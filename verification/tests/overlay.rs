use dht::node::DhtNode;
use dht::overlay::{OverlayNodeResolveContext, OverlayNodesSearchContext, OverlayResolve};
use dht::policy::DhtSearchPolicy;
use dht::search::FoundValue;
use dht::storage::{dht_key_from_key_id, nodes_key_name};
use dht::types::{
    DhtError, IpAddress, KeyDescription, KeyKind, OverlayNode, Payload, PublicKey, UpdateRule,
};

fn member(n: u8) -> OverlayNode {
    OverlayNode {
        id: PublicKey { kind: KeyKind::Ed25519, data: vec![n; 32] },
        overlay: [0xEE; 32],
        version: 1,
        signature: vec![n],
    }
}

fn key(n: u8) -> [u8; 32] {
    [n; 32]
}

fn ip(n: u8) -> IpAddress {
    IpAddress { ip: n as u32, port: 30303 }
}

fn roster(nodes: &[u8]) -> FoundValue {
    FoundValue {
        key: KeyDescription {
            id: PublicKey { kind: KeyKind::Overlay, data: vec![1] },
            key: dht_key_from_key_id(&[0xEE; 32], nodes_key_name()),
            signature: Vec::new(),
            update_rule: UpdateRule::OverlayNodes,
        },
        value: Payload::OverlayNodes(nodes.iter().map(|n| member(*n)).collect()),
    }
}

fn keys_of(window: &[OverlayNodeResolveContext]) -> Vec<[u8; 32]> {
    window.iter().map(|member| member.key).collect()
}

fn begin(policy: DhtSearchPolicy) -> (OverlayNodesSearchContext, OverlayResolve) {
    let mut ctx = None;
    let run = DhtNode::find_overlay_nodes_with_context([0xABu8; 32], &mut ctx, &policy);
    (ctx.unwrap(), run)
}

#[test]
fn context_is_made_once_and_kept() {
    let mut ctx = None;
    let policy = DhtSearchPolicy::FullSearch(3);
    let run = DhtNode::find_overlay_nodes_with_context([0xABu8; 32], &mut ctx, &policy);
    assert_eq!(ctx.as_ref().unwrap().key_id(), [0xABu8; 32]);
    assert!(run.needs_rosters(ctx.as_ref().unwrap()));
    let again = DhtNode::find_overlay_nodes_with_context([0xCDu8; 32], &mut ctx, &policy);
    assert_eq!(ctx.as_ref().unwrap().key_id(), [0xABu8; 32]);
    assert!(again.needs_rosters(ctx.as_ref().unwrap()));
    let (fresh, run) = DhtNode::find_overlay_nodes([0x01u8; 32]);
    assert_eq!(fresh.key_id(), [0x01u8; 32]);
    assert!(run.needs_rosters(&fresh));
}

#[test]
fn members_are_queued_and_resolved_in_windows() {
    let (mut ctx, mut run) = begin(DhtSearchPolicy::FullSearch(2));
    let found = vec![roster(&[1, 2]), roster(&[3, 4, 5])];
    let keys = vec![vec![key(1), key(2)], vec![key(3), key(4), key(5)]];
    assert_eq!(run.take_rosters(&mut ctx, found, &keys), Ok(true));
    assert!(!run.needs_rosters(&ctx));
    let window = run.next_window(&mut ctx);
    assert_eq!(keys_of(&window), vec![key(3), key(4)]);
    assert_eq!(window[0].node, member(3));
    assert!(window[0].search.is_none());
    let mut window = window.into_iter();
    run.resolved_member(&mut ctx, Some(ip(3)), window.next().unwrap());
    run.resolved_member(&mut ctx, None, window.next().unwrap());
    assert!(run.is_over(true));
    let resolved = run.finish(&mut ctx);
    assert_eq!(resolved, vec![(ip(3), member(3))]);
    let mut run = OverlayResolve::begin(&DhtSearchPolicy::FullSearch(10));
    let window = run.next_window(&mut ctx);
    assert_eq!(keys_of(&window), vec![key(5), key(1), key(2), key(4)]);
    assert!(run.needs_rosters(&ctx));
}

#[test]
fn member_that_was_handed_out_is_not_resolved_again() {
    let (mut ctx, mut run) = begin(DhtSearchPolicy::FullSearch(5));
    let keys = vec![vec![key(1), key(2), key(1)]];
    assert_eq!(run.take_rosters(&mut ctx, vec![roster(&[1, 2, 1])], &keys), Ok(true));
    let mut window = run.next_window(&mut ctx).into_iter();
    run.resolved_member(&mut ctx, Some(ip(1)), window.next().unwrap());
    run.resolved_member(&mut ctx, Some(ip(2)), window.next().unwrap());
    run.resolved_member(&mut ctx, Some(ip(9)), window.next().unwrap());
    assert_eq!(run.finish(&mut ctx), vec![(ip(1), member(1)), (ip(2), member(2))]);
    let mut run = OverlayResolve::begin(&DhtSearchPolicy::FullSearch(5));
    let keys = vec![vec![key(2), key(3), key(1)]];
    assert_eq!(run.take_rosters(&mut ctx, vec![roster(&[2, 3, 1])], &keys), Ok(true));
    let window = run.next_window(&mut ctx);
    assert_eq!(keys_of(&window), vec![key(3)]);
    assert!(run.needs_rosters(&ctx));
}

#[test]
fn fast_run_resolves_one_member_at_a_time_and_lets_misses_go() {
    let (mut ctx, mut run) = begin(DhtSearchPolicy::FastSearch(4));
    let keys = vec![vec![key(1), key(2), key(3)]];
    assert_eq!(run.take_rosters(&mut ctx, vec![roster(&[1, 2, 3])], &keys), Ok(true));
    let mut window = run.next_window(&mut ctx);
    assert_eq!(keys_of(&window), vec![key(1)]);
    run.resolved_member(&mut ctx, None, window.pop().unwrap());
    assert!(!run.is_over(true));
    assert!(run.is_over(false));
    assert!(run.finish(&mut ctx).is_empty());
    let mut run = OverlayResolve::begin(&DhtSearchPolicy::FullSearch(0));
    let window = run.next_window(&mut ctx);
    assert_eq!(keys_of(&window), vec![key(2)]);
    let window = run.next_window(&mut ctx);
    assert_eq!(keys_of(&window), vec![key(3)]);
    assert!(run.next_window(&mut ctx).is_empty());
}

#[test]
fn postponed_members_follow_the_new_ones() {
    let (mut ctx, mut run) = begin(DhtSearchPolicy::FullSearch(5));
    assert_eq!(run.take_rosters(&mut ctx, vec![roster(&[1, 2])], &vec![vec![key(1), key(2)]]), Ok(true));
    for member in run.next_window(&mut ctx) {
        run.resolved_member(&mut ctx, None, member);
    }
    assert!(run.needs_rosters(&ctx));
    assert!(!run.is_over(true));
    assert_eq!(run.take_rosters(&mut ctx, vec![roster(&[3])], &vec![vec![key(3)]]), Ok(true));
    let window = run.next_window(&mut ctx);
    assert_eq!(keys_of(&window), vec![key(3), key(1), key(2)]);
}

#[test]
fn search_without_rosters_ends_the_run() {
    let (mut ctx, mut run) = begin(DhtSearchPolicy::FullSearch(5));
    assert_eq!(run.take_rosters(&mut ctx, Vec::new(), &Vec::new()), Ok(false));
    assert!(run.needs_rosters(&ctx));
    assert!(run.finish(&mut ctx).is_empty());
}

#[test]
fn values_that_are_no_rosters_are_an_error() {
    let (mut ctx, mut run) = begin(DhtSearchPolicy::FullSearch(5));
    let mut other = roster(&[1]);
    other.value = Payload::AddressList(vec![1]);
    assert_eq!(
        run.take_rosters(&mut ctx, vec![roster(&[2]), other], &vec![vec![key(2)], vec![key(1)]]),
        Err(DhtError::WrongTypeInResult)
    );
    assert_eq!(
        run.take_rosters(&mut ctx, vec![roster(&[2])], &Vec::new()),
        Err(DhtError::InternalInvariant)
    );
    assert_eq!(
        run.take_rosters(&mut ctx, vec![roster(&[2, 3])], &vec![vec![key(2)]]),
        Err(DhtError::InternalInvariant)
    );
    assert!(run.needs_rosters(&ctx));
}

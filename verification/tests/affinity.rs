use dht::affinity::get_affinity;

fn id_with(byte: usize, value: u8) -> [u8; 32] {
    let mut id = [0u8; 32];
    id[byte] = value;
    id
}

fn flip(id: &[u8; 32], bit: usize) -> [u8; 32] {
    let mut flipped = *id;
    flipped[bit / 8] ^= 0x80u8 >> (bit % 8);
    flipped
}

#[test]
fn affinity_of_equal_ids_is_largest() {
    let a = [7u8; 32];
    assert_eq!(get_affinity(&a, &a), 255);
    let zero = [0u8; 32];
    assert_eq!(get_affinity(&zero, &zero), 255);
}

#[test]
fn affinity_counts_leading_equal_bits() {
    let zero = [0u8; 32];
    assert_eq!(get_affinity(&zero, &id_with(0, 0x80)), 0);
    assert_eq!(get_affinity(&zero, &id_with(0, 0x40)), 1);
    assert_eq!(get_affinity(&zero, &id_with(0, 0x10)), 3);
    assert_eq!(get_affinity(&zero, &id_with(0, 0x08)), 4);
    assert_eq!(get_affinity(&zero, &id_with(0, 0x01)), 7);
    assert_eq!(get_affinity(&zero, &id_with(1, 0xFF)), 8);
    assert_eq!(get_affinity(&zero, &id_with(1, 0x10)), 11);
    assert_eq!(get_affinity(&zero, &id_with(31, 0x02)), 254);
    assert_eq!(get_affinity(&zero, &id_with(31, 0x01)), 255);
}

#[test]
fn affinity_looks_at_the_first_difference_only() {
    let mut a = [0xAAu8; 32];
    let mut b = [0xAAu8; 32];
    a[5] = 0b1010_1010;
    b[5] = 0b1010_0010;
    b[6] = 0x55;
    b[31] = 0x00;
    assert_eq!(get_affinity(&a, &b), 5 * 8 + 4);
}

#[test]
fn affinity_is_symmetric() {
    let mut a = [0u8; 32];
    let mut b = [0u8; 32];
    for i in 0..32 {
        a[i] = (i as u8).wrapping_mul(37).wrapping_add(11);
        b[i] = (i as u8).wrapping_mul(37).wrapping_add(11);
    }
    for bit in [0usize, 1, 7, 8, 100, 200, 254, 255] {
        let c = flip(&b, bit);
        assert_eq!(get_affinity(&a, &c), get_affinity(&c, &a));
    }
    let d = [0xFFu8; 32];
    assert_eq!(get_affinity(&a, &d), get_affinity(&d, &a));
}

#[test]
fn flipping_bit_k_leaves_affinity_k_minus_one() {
    let mut y = [0u8; 32];
    for i in 0..32 {
        y[i] = (i as u8).wrapping_mul(101).wrapping_add(3);
    }
    for k in 1..=256usize {
        let flipped = flip(&y, k - 1);
        let affinity = get_affinity(&y, &flipped) as usize;
        assert_eq!(affinity, k - 1);
        assert!(affinity <= k - 1);
    }
}

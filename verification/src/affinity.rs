//! Affinity of two 256-bit identifiers: the length of their common bit prefix.

use vstd::prelude::*;

verus! {

/// A 256-bit identifier: a node ID or the hash of a DHT key.
pub type KeyId = [u8; 32];

/// Number of bits in an identifier.
pub const ID_BITS: usize = 256;

/// The largest affinity that is ever reported.
pub const MAX_AFFINITY: u8 = 255;

/// Bit `p` of byte `x`, counted from the most significant bit.
pub open spec fn byte_bit(x: u8, p: int) -> bool {
    (x >> ((7 - p) as u8)) & 1u8 == 1u8
}

/// Bit `p` of identifier `id`, counted from the most significant bit of the
/// first byte.
pub open spec fn id_bit(id: Seq<u8>, p: int) -> bool {
    byte_bit(id[p / 8], p % 8)
}

/// Number of positions from `from` on at which `a` and `b` carry the same bit
/// before the first position at which they differ.
pub open spec fn equal_bits_from(a: Seq<u8>, b: Seq<u8>, from: int) -> nat
    decreases 256 - from,
{
    if from < 0 || from >= 256 {
        0
    } else if id_bit(a, from) != id_bit(b, from) {
        0
    } else {
        1 + equal_bits_from(a, b, from + 1)
    }
}

/// Length of the common bit prefix of two identifiers, between 0 and 256.
pub open spec fn common_prefix_bits(a: Seq<u8>, b: Seq<u8>) -> nat {
    equal_bits_from(a, b, 0)
}

/// Affinity of two identifiers: the common prefix length, held to 255.
pub open spec fn affinity_of(a: Seq<u8>, b: Seq<u8>) -> int {
    if common_prefix_bits(a, b) >= 255 {
        255
    } else {
        common_prefix_bits(a, b) as int
    }
}

/// Identifier `id` with bit `p` inverted.
pub open spec fn flip_bit(id: Seq<u8>, p: int) -> Seq<u8> {
    id.update(p / 8, id[p / 8] ^ (0x80u8 >> ((p % 8) as u8)))
}

/// Number of leading zero bits of a byte, 8 for zero.
pub open spec fn leading_zeros(x: u8) -> int {
    if x >= 128 {
        0
    } else if x >= 64 {
        1
    } else if x >= 32 {
        2
    } else if x >= 16 {
        3
    } else if x >= 8 {
        4
    } else if x >= 4 {
        5
    } else if x >= 2 {
        6
    } else if x >= 1 {
        7
    } else {
        8
    }
}

proof fn lemma_leading_zeros_bits(x: u8)
    ensures
        forall|p: int| 0 <= p < leading_zeros(x) ==> !#[trigger] byte_bit(x, p),
        leading_zeros(x) < 8 ==> byte_bit(x, leading_zeros(x)),
{
    assert(x < 128 ==> (x >> 7u8) & 1u8 == 0u8) by (bit_vector);
    assert(x < 64 ==> (x >> 6u8) & 1u8 == 0u8) by (bit_vector);
    assert(x < 32 ==> (x >> 5u8) & 1u8 == 0u8) by (bit_vector);
    assert(x < 16 ==> (x >> 4u8) & 1u8 == 0u8) by (bit_vector);
    assert(x < 8 ==> (x >> 3u8) & 1u8 == 0u8) by (bit_vector);
    assert(x < 4 ==> (x >> 2u8) & 1u8 == 0u8) by (bit_vector);
    assert(x < 2 ==> (x >> 1u8) & 1u8 == 0u8) by (bit_vector);
    assert(x < 1 ==> (x >> 0u8) & 1u8 == 0u8) by (bit_vector);
    assert(128 <= x ==> (x >> 7u8) & 1u8 == 1u8) by (bit_vector);
    assert(64 <= x < 128 ==> (x >> 6u8) & 1u8 == 1u8) by (bit_vector);
    assert(32 <= x < 64 ==> (x >> 5u8) & 1u8 == 1u8) by (bit_vector);
    assert(16 <= x < 32 ==> (x >> 4u8) & 1u8 == 1u8) by (bit_vector);
    assert(8 <= x < 16 ==> (x >> 3u8) & 1u8 == 1u8) by (bit_vector);
    assert(4 <= x < 8 ==> (x >> 2u8) & 1u8 == 1u8) by (bit_vector);
    assert(2 <= x < 4 ==> (x >> 1u8) & 1u8 == 1u8) by (bit_vector);
    assert(1 <= x < 2 ==> (x >> 0u8) & 1u8 == 1u8) by (bit_vector);
    assert forall|p: int| 0 <= p < leading_zeros(x) implies !#[trigger] byte_bit(x, p) by {
        assert(p == 0 || p == 1 || p == 2 || p == 3 || p == 4 || p == 5 || p == 6 || p == 7);
    }
}

/// A bit of the XOR of two bytes is set where the bytes differ.
pub proof fn lemma_xor_bits(x: u8, y: u8)
    ensures
        forall|p: int|
            0 <= p < 8 ==> (#[trigger] byte_bit(x ^ y, p) <==> byte_bit(x, p) != byte_bit(y, p)),
{
    assert forall|p: int| 0 <= p < 8 implies (#[trigger] byte_bit(x ^ y, p) <==> byte_bit(x, p)
        != byte_bit(y, p)) by {
        let s = (7 - p) as u8;
        assert(s < 8 ==> ((((x ^ y) >> s) & 1u8 == 1u8) <==> (((x >> s) & 1u8 == 1u8) != ((y >> s)
            & 1u8 == 1u8)))) by (bit_vector);
    }
}

proof fn lemma_flip_bits(x: u8, q: int)
    requires
        0 <= q < 8,
    ensures
        forall|p: int|
            0 <= p < 8 ==> (#[trigger] byte_bit(x ^ (0x80u8 >> (q as u8)), p) <==> (byte_bit(x, p)
                != (p == q))),
{
    assert forall|p: int| 0 <= p < 8 implies (#[trigger] byte_bit(x ^ (0x80u8 >> (q as u8)), p)
        <==> (byte_bit(x, p) != (p == q))) by {
        let s = (7 - p) as u8;
        let t = q as u8;
        assert(s < 8 && t < 8 ==> ((((x ^ (0x80u8 >> t)) >> s) & 1u8 == 1u8) <==> (((x >> s) & 1u8
            == 1u8) != (7 - s == t)))) by (bit_vector);
    }
}

/// If two identifiers agree on the bits `from..n` and differ at bit `n`, or
/// `n` is 256, then exactly `n - from` equal bits follow position `from`.
pub proof fn lemma_equal_bits_count(a: Seq<u8>, b: Seq<u8>, from: int, n: int)
    requires
        0 <= from <= n <= 256,
        forall|p: int| from <= p < n ==> id_bit(a, p) == id_bit(b, p),
        n < 256 ==> id_bit(a, n) != id_bit(b, n),
    ensures
        equal_bits_from(a, b, from) == n - from,
    decreases n - from,
{
    if from < n {
        lemma_equal_bits_count(a, b, from + 1, n);
    }
}

/// The bits counted by `equal_bits_from` are equal, and the bit after them,
/// if there is one, differs.
pub proof fn lemma_equal_bits_agree(a: Seq<u8>, b: Seq<u8>, from: int)
    requires
        0 <= from <= 256,
    ensures
        from + equal_bits_from(a, b, from) <= 256,
        forall|p: int|
            from <= p < from + equal_bits_from(a, b, from) ==> id_bit(a, p) == id_bit(b, p),
        from + equal_bits_from(a, b, from) < 256 ==> id_bit(a, from + equal_bits_from(a, b, from))
            != id_bit(b, from + equal_bits_from(a, b, from)),
    decreases 256 - from,
{
    if from < 256 && id_bit(a, from) == id_bit(b, from) {
        lemma_equal_bits_agree(a, b, from + 1);
    }
}

/// An identifier shares all 256 bits with itself, so its affinity to itself
/// is the largest one, 255.
pub proof fn lemma_affinity_self(x: Seq<u8>)
    ensures
        common_prefix_bits(x, x) == 256,
        affinity_of(x, x) == 255,
{
    lemma_equal_bits_count(x, x, 0, 256);
}

/// Affinity does not depend on the order of its arguments.
pub proof fn lemma_affinity_symmetric(x: Seq<u8>, y: Seq<u8>)
    ensures
        common_prefix_bits(x, y) == common_prefix_bits(y, x),
        affinity_of(x, y) == affinity_of(y, x),
{
    lemma_equal_bits_agree(x, y, 0);
    lemma_equal_bits_count(y, x, 0, common_prefix_bits(x, y) as int);
}

/// Two identifiers that differ at bit `p` have an affinity of at most `p`.
pub proof fn lemma_affinity_at_most_first_difference(x: Seq<u8>, y: Seq<u8>, p: int)
    requires
        0 <= p < 256,
        id_bit(x, p) != id_bit(y, p),
    ensures
        common_prefix_bits(x, y) <= p,
        affinity_of(x, y) <= p,
{
    lemma_equal_bits_agree(x, y, 0);
}

/// Inverting the `k`-th bit of an identifier, counted from 1 at the most
/// significant bit, leaves exactly the `k - 1` bits before it in common.
pub proof fn lemma_affinity_flipped_bit(y: Seq<u8>, k: int)
    requires
        y.len() == 32,
        1 <= k <= 256,
    ensures
        common_prefix_bits(y, flip_bit(y, k - 1)) == k - 1,
        affinity_of(y, flip_bit(y, k - 1)) == k - 1,
        affinity_of(y, flip_bit(y, k - 1)) <= k - 1,
{
    let q = k - 1;
    let z = flip_bit(y, q);
    lemma_flip_bits(y[q / 8], q % 8);
    assert forall|p: int| 0 <= p < q implies id_bit(y, p) == id_bit(z, p) by {
        if p / 8 == q / 8 {
            assert(byte_bit(z[q / 8], p % 8) == byte_bit(y[q / 8], p % 8));
        }
    }
    assert(id_bit(y, q) != id_bit(z, q)) by {
        assert(byte_bit(z[q / 8], q % 8) != byte_bit(y[q / 8], q % 8));
    }
    lemma_equal_bits_count(y, z, 0, q);
}

/// Number of leading zero bits of a value below 16, read as four bits.
fn nibble_zeros(n: u8) -> (zeros: u8)
    requires
        n < 16,
    ensures
        zeros == leading_zeros(n) - 4,
{
    if n >= 8 {
        0
    } else if n >= 4 {
        1
    } else if n >= 2 {
        2
    } else if n >= 1 {
        3
    } else {
        4
    }
}

/// Number of leading zero bits of a byte.
fn byte_zeros(x: u8) -> (zeros: u8)
    ensures
        zeros == leading_zeros(x),
{
    if x & 0xF0 == 0 {
        assert(x & 0xF0 == 0 ==> x & 0x0F == x && x < 16) by (bit_vector);
        nibble_zeros(x & 0x0F) + 4
    } else {
        assert(x & 0xF0 != 0 ==> x >> 4 == x / 16 && x >= 16) by (bit_vector);
        nibble_zeros(x >> 4)
    }
}

/// Computes the affinity of two identifiers, byte by byte: equal bytes count
/// for eight bits, the first unequal pair for the leading zeros of its XOR.
pub fn get_affinity(key1: &KeyId, key2: &KeyId) -> (ret: u8)
    ensures
        ret == affinity_of(key1@, key2@),
{
    let mut ret: u8 = 0;
    let mut i: usize = 0;
    while i < 32
        invariant
            i <= 32,
            forall|p: int| 0 <= p < 8 * i ==> id_bit(key1@, p) == id_bit(key2@, p),
            ret == (if i == 32 { 255 } else { 8 * i as int }),
        decreases 32 - i,
    {
        let x = key1[i] ^ key2[i];
        proof {
            lemma_xor_bits(key1[i as int], key2[i as int]);
            lemma_leading_zeros_bits(x);
        }
        if x == 0 {
            ret = ret.saturating_add(8);
            assert forall|p: int| 0 <= p < 8 * (i + 1) implies id_bit(key1@, p) == id_bit(
                key2@,
                p,
            ) by {
                if p >= 8 * i {
                    assert(!byte_bit(x, p % 8));
                }
            }
        } else {
            let zeros = byte_zeros(x);
            proof {
                let n = 8 * i + zeros;
                assert forall|p: int| 0 <= p < n implies id_bit(key1@, p) == id_bit(key2@, p) by {
                    if p >= 8 * i {
                        assert(!byte_bit(x, p % 8));
                    }
                }
                assert(byte_bit(x, zeros as int));
                assert(id_bit(key1@, n) != id_bit(key2@, n));
                lemma_equal_bits_count(key1@, key2@, 0, n);
            }
            return ret + zeros;
        }
        i += 1;
    }
    proof {
        lemma_equal_bits_count(key1@, key2@, 0, 256);
    }
    ret
}

} // verus!

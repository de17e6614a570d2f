//! The high-score wire format: exactly eight bytes, an unsigned 64-bit
//! integer in little-endian byte order.

use vstd::prelude::*;

verus! {

/// Number of bytes in the persisted high-score record.
pub const SCORE_BYTES: usize = 8;

/// Byte `i` (little-endian) of `n`.
pub open spec fn le_byte(n: u64, i: int) -> u8 {
    (n >> (8 * i)) as u8
}

/// The value held by an eight-byte little-endian record.
pub open spec fn le_value(s: Seq<u8>) -> u64
    recommends
        s.len() == SCORE_BYTES,
{
    (s[0] as u64) | (s[1] as u64) << 8 | (s[2] as u64) << 16 | (s[3] as u64) << 24 | (
    s[4] as u64) << 32 | (s[5] as u64) << 40 | (s[6] as u64) << 48 | (s[7] as u64) << 56
}

/// The eight-byte little-endian record of a high score.
pub fn highscore_to_bytes(n: u64) -> (r: Vec<u8>)
    ensures
        r@.len() == SCORE_BYTES,
        forall|i: int| 0 <= i < SCORE_BYTES ==> #[trigger] r@[i] == le_byte(n, i),
        le_value(r@) == n,
{
    let mut r: Vec<u8> = Vec::new();
    r.push((n >> 0) as u8);
    r.push((n >> 8) as u8);
    r.push((n >> 16) as u8);
    r.push((n >> 24) as u8);
    r.push((n >> 32) as u8);
    r.push((n >> 40) as u8);
    r.push((n >> 48) as u8);
    r.push((n >> 56) as u8);
    proof {
        assert(r@.len() == 8);
        assert forall|i: int| 0 <= i < 8 implies #[trigger] r@[i] == le_byte(n, i) by {
            assert(r@[0] == (n >> 0) as u8);
            assert(r@[1] == (n >> 8) as u8);
            assert(r@[2] == (n >> 16) as u8);
            assert(r@[3] == (n >> 24) as u8);
            assert(r@[4] == (n >> 32) as u8);
            assert(r@[5] == (n >> 40) as u8);
            assert(r@[6] == (n >> 48) as u8);
            assert(r@[7] == (n >> 56) as u8);
            assert(n >> 0 == n) by (bit_vector);
        }
        lemma_le_round_trip(n);
    }
    r
}

/// The high score held by an eight-byte little-endian record.
pub fn highscore_from_bytes(bytes: &Vec<u8>) -> (r: u64)
    requires
        bytes@.len() == SCORE_BYTES,
    ensures
        r == le_value(bytes@),
{
    (bytes[0] as u64) | (bytes[1] as u64) << 8 | (bytes[2] as u64) << 16 | (bytes[3] as u64) << 24
        | (bytes[4] as u64) << 32 | (bytes[5] as u64) << 40 | (bytes[6] as u64) << 48 | (
    bytes[7] as u64) << 56
}

/// Round trip of the persisted high score: reading back the eight bytes
/// written for `n` yields `n` again.
pub proof fn lemma_le_round_trip(n: u64)
    ensures
        le_value(Seq::new(SCORE_BYTES as nat, |i: int| le_byte(n, i))) == n,
{
    let s = Seq::new(SCORE_BYTES as nat, |i: int| le_byte(n, i));
    assert(s[0] == (n >> 0) as u8);
    assert(s[1] == (n >> 8) as u8);
    assert(s[2] == (n >> 16) as u8);
    assert(s[3] == (n >> 24) as u8);
    assert(s[4] == (n >> 32) as u8);
    assert(s[5] == (n >> 40) as u8);
    assert(s[6] == (n >> 48) as u8);
    assert(s[7] == (n >> 56) as u8);
    assert((((n >> 0) as u8) as u64) | (((n >> 8) as u8) as u64) << 8 | (((n >> 16) as u8) as u64)
        << 16 | (((n >> 24) as u8) as u64) << 24 | (((n >> 32) as u8) as u64) << 32 | (((n
        >> 40) as u8) as u64) << 40 | (((n >> 48) as u8) as u64) << 48 | (((n >> 56) as u8) as u64)
        << 56 == n) by (bit_vector);
}

} // verus!

use vstd::prelude::*;

verus! {

/// The two payload-bearing bits (positions 1 and 0) of a channel byte.
pub open spec fn low_pair(c: u8) -> u8 {
    c & 3
}

/// Channel byte `c` with its two low bits replaced by the pair `p`;
/// bits 2 to 7 are kept.
pub open spec fn stamped(c: u8, p: u8) -> u8 {
    (c & 0xfc) | p
}

/// Pair `k` (0 to 3) of byte `b`, taken most significant first.
pub open spec fn byte_pair(b: u8, k: int) -> u8 {
    if k == 0 {
        b >> 6
    } else if k == 1 {
        (b >> 4) & 3
    } else if k == 2 {
        (b >> 2) & 3
    } else {
        b & 3
    }
}

/// Pair `j` of the bitstream of `m`: bytes in order, each byte most
/// significant bit first, two bits at a time.
pub open spec fn msg_pair(m: Seq<u8>, j: int) -> u8 {
    byte_pair(m[j / 4], j % 4)
}

/// The payload pair held by channel `t`, or zero past the end of the channels.
pub open spec fn pair_at(ch: Seq<u8>, t: int) -> u8 {
    if 0 <= t < ch.len() {
        low_pair(ch[t])
    } else {
        0
    }
}

/// The first `r` pairs of the channels from `s` on, packed into a byte,
/// the first pair most significant.
pub open spec fn packed(ch: Seq<u8>, s: int, r: int) -> u8
    decreases r,
{
    if r <= 0 {
        0
    } else {
        (packed(ch, s, r - 1) << 2) | pair_at(ch, s + r - 1)
    }
}

pub proof fn lemma_stamped(c: u8, p: u8)
    requires
        p < 4,
    ensures
        low_pair(stamped(c, p)) == p,
        stamped(c, p) & 0xfc == c & 0xfc,
{
    assert((((c & 0xfc) | p) & 3) == p && (((c & 0xfc) | p) & 0xfc) == c & 0xfc) by (bit_vector)
        requires
            p < 4,
    ;
}

pub proof fn lemma_byte_pair_bound(b: u8, k: int)
    ensures
        byte_pair(b, k) < 4,
{
    assert((b >> 6) < 4 && ((b >> 4) & 3) < 4 && ((b >> 2) & 3) < 4 && (b & 3) < 4)
        by (bit_vector);
}

pub proof fn lemma_low_pair_bound(c: u8)
    ensures
        low_pair(c) < 4,
{
    assert(c & 3 < 4) by (bit_vector);
}

/// Four pairs read back in order rebuild the byte they were taken from.
pub proof fn lemma_pack_byte(b: u8, a0: u8, a1: u8, a2: u8, a3: u8)
    requires
        a0 == byte_pair(b, 0),
        a1 == byte_pair(b, 1),
        a2 == byte_pair(b, 2),
        a3 == byte_pair(b, 3),
    ensures
        ((((((((0u8 << 2u8) | a0) << 2u8) | a1) << 2u8) | a2) << 2u8) | a3) == b,
{
    assert(((((((((0u8 << 2u8) | (b >> 6u8)) << 2u8) | ((b >> 4u8) & 3u8)) << 2u8) | ((b >> 2u8)
        & 3u8)) << 2u8) | (b & 3u8)) == b) by (bit_vector);
}

/// A byte whose four pairs are all zero is zero.
pub proof fn lemma_zero_pairs(b: u8)
    requires
        byte_pair(b, 0) == 0,
        byte_pair(b, 1) == 0,
        byte_pair(b, 2) == 0,
        byte_pair(b, 3) == 0,
    ensures
        b == 0,
{
    assert((b >> 6u8) == 0 && ((b >> 4u8) & 3) == 0 && ((b >> 2u8) & 3) == 0 && (b & 3) == 0
        ==> b == 0) by (bit_vector);
}

/// The zero byte has only zero pairs.
pub proof fn lemma_zero_byte_pairs(k: int)
    ensures
        byte_pair(0, k) == 0,
{
    assert((0u8 >> 6u8) == 0 && ((0u8 >> 4u8) & 3) == 0 && ((0u8 >> 2u8) & 3) == 0 && (0u8 & 3)
        == 0) by (bit_vector);
}

} // verus!

use vstd::arithmetic::div_mod::{
    lemma_fundamental_div_mod_converse_div, lemma_fundamental_div_mod_converse_mod,
};
use vstd::prelude::*;

verus! {

// All multi-byte integer fields of the wire format are big-endian
// (network byte order). These helpers split and join u16 and u32 values.

/// The high byte of a 16-bit value in network byte order.
pub open spec fn u16_hi(v: u16) -> u8 {
    (v / 256) as u8
}

/// The low byte of a 16-bit value in network byte order.
pub open spec fn u16_lo(v: u16) -> u8 {
    (v % 256) as u8
}

/// The 16-bit value whose network-byte-order encoding is `[hi, lo]`.
pub open spec fn u16_from_be(hi: u8, lo: u8) -> u16 {
    (hi * 256 + lo) as u16
}

/// The two-byte network-byte-order encoding of a 16-bit value.
pub open spec fn u16_be_bytes(v: u16) -> Seq<u8> {
    seq![u16_hi(v), u16_lo(v)]
}

/// The 32-bit value whose network-byte-order encoding is `[b0, b1, b2, b3]`.
pub open spec fn u32_from_be(b0: u8, b1: u8, b2: u8, b3: u8) -> u32 {
    (b0 * 0x100_0000 + b1 * 0x1_0000 + b2 * 256 + b3) as u32
}

/// Splitting a 16-bit value into its two wire bytes and joining them again
/// gives the value back.
pub proof fn lemma_u16_be_round_trip(v: u16)
    ensures
        u16_from_be(u16_hi(v), u16_lo(v)) == v,
{
    lemma_fundamental_div_mod_converse_div(v as int, 256, v as int / 256, v as int % 256);
    lemma_fundamental_div_mod_converse_mod(v as int, 256, v as int / 256, v as int % 256);
}

/// Joining two bytes big-endian, executably.
pub fn be_u16(hi: u8, lo: u8) -> (r: u16)
    ensures
        r == u16_from_be(hi, lo),
{
    (hi as u16) * 256 + (lo as u16)
}

/// Joining four bytes big-endian, executably.
pub fn be_u32(b0: u8, b1: u8, b2: u8, b3: u8) -> (r: u32)
    ensures
        r == u32_from_be(b0, b1, b2, b3),
{
    (b0 as u32) * 0x100_0000 + (b1 as u32) * 0x1_0000 + (b2 as u32) * 256 + (b3 as u32)
}

/// Appends the two-byte network-byte-order encoding of `v` to `out`.
pub fn push_u16_be(out: &mut Vec<u8>, v: u16)
    ensures
        final(out)@ == old(out)@ + u16_be_bytes(v),
{
    out.push((v / 256) as u8);
    out.push((v % 256) as u8);
    assert(final(out)@ =~= old(out)@ + u16_be_bytes(v));
}

} // verus!

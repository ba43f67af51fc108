//! Little-endian 16-bit word framing shared by the palette and tilemap
//! binary codecs: every persisted format stores a sequence of 16-bit words,
//! each as two bytes with the low byte first.

use vstd::prelude::*;

verus! {

/// The low byte of a 16-bit word.
pub open spec fn lo_byte(v: u16) -> u8 {
    (v & 0xFF) as u8
}

/// The high byte of a 16-bit word.
pub open spec fn hi_byte(v: u16) -> u8 {
    ((v >> 8) & 0xFF) as u8
}

/// The 16-bit word read from two bytes, low byte first.
pub open spec fn le_word(lo: u8, hi: u8) -> u16 {
    ((hi as u16) << 8) | (lo as u16)
}

/// Splitting a word into its two little-endian bytes and reading them back
/// is the identity, and so is the converse.
pub proof fn lemma_le_word_bytes(v: u16, lo: u8, hi: u8)
    by (bit_vector)
    ensures
        le_word(lo_byte(v), hi_byte(v)) == v,
        lo_byte(le_word(lo, hi)) == lo,
        hi_byte(le_word(lo, hi)) == hi,
{
}

/// Extracts the low byte of a word; mirrors `lo_byte`.
pub(crate) fn split_lo(v: u16) -> (r: u8)
    ensures
        r == lo_byte(v),
{
    (v & 0xFF) as u8
}

/// Extracts the high byte of a word; mirrors `hi_byte`.
pub(crate) fn split_hi(v: u16) -> (r: u8)
    ensures
        r == hi_byte(v),
{
    ((v >> 8) & 0xFF) as u8
}

/// Reassembles a word from its two little-endian bytes; mirrors `le_word`.
pub(crate) fn join_le(lo: u8, hi: u8) -> (r: u16)
    ensures
        r == le_word(lo, hi),
{
    ((hi as u16) << 8) | (lo as u16)
}

} // verus!

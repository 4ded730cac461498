//! Software breakpoints: patching the low byte of an instruction word with
//! INT3 and putting the saved byte back.

use vstd::prelude::*;

verus! {

/// The x86 breakpoint instruction.
pub const INT3: u8 = 0xCC;

/// The lowest byte of a machine word (the byte at the word's address on a
/// little-endian machine).
pub open spec fn low_byte(w: u64) -> u8 {
    (w % 256) as u8
}

/// `w` with its lowest byte replaced by `b`.
pub open spec fn with_low_byte(w: u64, b: u8) -> u64 {
    (w - w % 256 + b) as u64
}

/// Splits a word read from the tracee into the byte to save and the word
/// to write back with INT3 in place of that byte.
pub fn patch_word(word: u64) -> (r: (u8, u64))
    ensures
        r.0 == low_byte(word),
        r.1 == with_low_byte(word, INT3),
{
    let saved = (word & 0xFF) as u8;
    let patched = (word & !0xFFu64) | 0xCC;
    assert((word & 0xFF) as u8 == (word % 256) as u8) by (bit_vector);
    assert((word & !0xFFu64) | 0xCC == (word - word % 256 + 0xCC) as u64) by (bit_vector);
    (saved, patched)
}

/// The word with the saved original byte put back in place of the INT3.
pub fn restore_word(word: u64, saved: u8) -> (r: u64)
    ensures
        r == with_low_byte(word, saved),
{
    let r = (word & !0xFFu64) | (saved as u64);
    assert((word & !0xFFu64) | (saved as u64) == (word - word % 256 + saved) as u64)
        by (bit_vector);
    r
}

/// Removing a breakpoint gives back the word that was there before it was
/// inserted: restoring the saved byte into the patched word yields the
/// original word, and the patch changes nothing but the lowest byte.
pub proof fn breakpoint_roundtrip(word: u64)
    ensures
        with_low_byte(with_low_byte(word, INT3), low_byte(word)) == word,
        low_byte(with_low_byte(word, INT3)) == INT3,
        with_low_byte(word, INT3) / 256 == word / 256,
{
    assert(with_low_byte(with_low_byte(word, 0xCC), low_byte(word)) == word) by (bit_vector);
    assert(low_byte(with_low_byte(word, 0xCC)) == 0xCC) by (bit_vector);
    assert(with_low_byte(word, 0xCC) / 256 == word / 256) by (bit_vector);
}

} // verus!

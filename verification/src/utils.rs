use vstd::prelude::*;

verus! {

/// Number of general-purpose registers in the machine.
pub const REGISTER_COUNT: usize = 16;

/// Number of 16-bit words in the stack; the whole `u16` offset space is addressable.
pub const STACK_SIZE: usize = 65536;

/// Low byte of a 16-bit word. All two-byte operands are serialized
/// little-endian: low byte first.
pub open spec fn lo_byte(w: u16) -> u8 {
    (w % 256) as u8
}

/// High byte of a 16-bit word.
pub open spec fn hi_byte(w: u16) -> u8 {
    (w / 256) as u8
}

/// The 16-bit word whose little-endian bytes are `lo` and `hi`.
pub open spec fn word_of_bytes(lo: u8, hi: u8) -> u16 {
    (lo + hi * 256) as u16
}

/// Two's-complement reading of a 16-bit word as a signed jump offset.
pub open spec fn i16_of_word(w: u16) -> i16 {
    if w < 32768 {
        w as i16
    } else {
        (w - 65536) as i16
    }
}

/// Two's-complement image of a signed jump offset in a 16-bit word.
pub open spec fn word_of_i16(x: i16) -> u16 {
    if x >= 0 {
        x as u16
    } else {
        (x + 65536) as u16
    }
}

/// Splits a 16-bit word into its little-endian bytes.
pub fn u16_to_u8(double: u16) -> (r: (u8, u8))
    ensures
        r.0 == lo_byte(double),
        r.1 == hi_byte(double),
{
    ((double % 256) as u8, (double / 256) as u8)
}

/// Splits a signed 16-bit value into the little-endian bytes of its
/// two's-complement image.
pub fn i16_to_u8(double: i16) -> (r: (u8, u8))
    ensures
        r.0 == lo_byte(word_of_i16(double)),
        r.1 == hi_byte(word_of_i16(double)),
{
    let w: u16 = if double >= 0 {
        double as u16
    } else {
        ((double as i32) + 65536) as u16
    };
    u16_to_u8(w)
}

/// Reassembles a 16-bit word from its little-endian bytes.
pub fn u8_to_u16(b1: u8, b2: u8) -> (r: u16)
    ensures
        r == word_of_bytes(b1, b2),
{
    b1 as u16 + b2 as u16 * 256
}

/// Reassembles a signed 16-bit value from the little-endian bytes of its
/// two's-complement image.
pub fn u8_to_i16(b1: u8, b2: u8) -> (r: i16)
    ensures
        r == i16_of_word(word_of_bytes(b1, b2)),
{
    let w = u8_to_u16(b1, b2);
    if w < 32768 {
        w as i16
    } else {
        ((w as i32) - 65536) as i16
    }
}

/// A word is exactly the pair of its little-endian bytes.
pub proof fn lemma_word_bytes_roundtrip(w: u16)
    ensures
        word_of_bytes(lo_byte(w), hi_byte(w)) == w,
{
}

/// A signed offset survives the trip through its two's-complement word.
pub proof fn lemma_i16_word_roundtrip(x: i16)
    ensures
        i16_of_word(word_of_i16(x)) == x,
{
}

} // verus!

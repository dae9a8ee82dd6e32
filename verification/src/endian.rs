//! Little-endian integers in byte strings.

use vstd::prelude::*;

verus! {

/// The 32-bit word whose little-endian bytes are `b0`, `b1`, `b2`, `b3`.
pub open spec fn le_word(b0: u8, b1: u8, b2: u8, b3: u8) -> u32 {
    (b0 as u32) | ((b1 as u32) << 8) | ((b2 as u32) << 16) | ((b3 as u32) << 24)
}

/// Byte `k` (0 is the lowest) of the little-endian form of `w`.
pub open spec fn word_byte(w: u32, k: int) -> u8 {
    if k == 0 {
        (w & 0xFF) as u8
    } else if k == 1 {
        ((w >> 8) & 0xFF) as u8
    } else if k == 2 {
        ((w >> 16) & 0xFF) as u8
    } else {
        ((w >> 24) & 0xFF) as u8
    }
}

/// The little-endian word stored at `data[i..i + 4]`.
pub open spec fn word_at(data: Seq<u8>, i: int) -> u32 {
    le_word(data[i], data[i + 1], data[i + 2], data[i + 3])
}

/// `data` with the little-endian form of `w` stored at `data[i..i + 4]`.
pub open spec fn put_word(data: Seq<u8>, i: int, w: u32) -> Seq<u8> {
    data.update(i, word_byte(w, 0)).update(i + 1, word_byte(w, 1)).update(
        i + 2,
        word_byte(w, 2),
    ).update(i + 3, word_byte(w, 3))
}

/// The word made of the four bytes of `w` is `w`.
pub proof fn lemma_word_of_bytes(w: u32)
    ensures
        le_word(word_byte(w, 0), word_byte(w, 1), word_byte(w, 2), word_byte(w, 3)) == w,
{
    assert(le_word(
        (w & 0xFF) as u8,
        ((w >> 8) & 0xFF) as u8,
        ((w >> 16) & 0xFF) as u8,
        ((w >> 24) & 0xFF) as u8,
    ) == w) by (bit_vector);
}

/// The bytes of the word made of four bytes are those bytes.
pub proof fn lemma_bytes_of_word(b0: u8, b1: u8, b2: u8, b3: u8)
    ensures
        word_byte(le_word(b0, b1, b2, b3), 0) == b0,
        word_byte(le_word(b0, b1, b2, b3), 1) == b1,
        word_byte(le_word(b0, b1, b2, b3), 2) == b2,
        word_byte(le_word(b0, b1, b2, b3), 3) == b3,
{
    let w = le_word(b0, b1, b2, b3);
    assert((w & 0xFF) as u8 == b0 && ((w >> 8) & 0xFF) as u8 == b1 && ((w >> 16) & 0xFF) as u8
        == b2 && ((w >> 24) & 0xFF) as u8 == b3) by (bit_vector)
        requires
            w == le_word(b0, b1, b2, b3),
    ;
}

/// Reads the little-endian word at `data[i..i + 4]`.
pub fn read_word(data: &[u8], i: usize) -> (w: u32)
    requires
        i + 4 <= data@.len(),
    ensures
        w == word_at(data@, i as int),
{
    (data[i] as u32) | ((data[i + 1] as u32) << 8) | ((data[i + 2] as u32) << 16) | ((data[i
        + 3] as u32) << 24)
}

/// Stores `w` in little-endian form at `data[i..i + 4]`.
pub fn write_word(data: &mut [u8], i: usize, w: u32)
    requires
        i + 4 <= old(data)@.len(),
    ensures
        final(data)@ == put_word(old(data)@, i as int, w),
{
    data[i] = (w & 0xFF) as u8;
    data[i + 1] = ((w >> 8) & 0xFF) as u8;
    data[i + 2] = ((w >> 16) & 0xFF) as u8;
    data[i + 3] = ((w >> 24) & 0xFF) as u8;
}

/// The 16-bit number whose little-endian bytes are `b0`, `b1`.
pub open spec fn le_half(b0: u8, b1: u8) -> u16 {
    (b0 as u16) | ((b1 as u16) << 8)
}

/// Byte `k` (0 is the lower) of the little-endian form of `h`.
pub open spec fn half_byte(h: u16, k: int) -> u8 {
    if k == 0 {
        (h & 0xFF) as u8
    } else {
        ((h >> 8) & 0xFF) as u8
    }
}

/// The two bytes of a 16-bit number make that number, and the other way round.
pub proof fn lemma_half_bytes(h: u16, b0: u8, b1: u8)
    ensures
        le_half(half_byte(h, 0), half_byte(h, 1)) == h,
        half_byte(le_half(b0, b1), 0) == b0,
        half_byte(le_half(b0, b1), 1) == b1,
{
    assert(le_half((h & 0xFF) as u8, ((h >> 8) & 0xFF) as u8) == h) by (bit_vector);
    let x = le_half(b0, b1);
    assert((x & 0xFF) as u8 == b0 && ((x >> 8) & 0xFF) as u8 == b1) by (bit_vector)
        requires
            x == le_half(b0, b1),
    ;
}

/// Reads the little-endian 16-bit number at `data[i..i + 2]`.
pub fn read_half(data: &[u8], i: usize) -> (h: u16)
    requires
        i + 2 <= data@.len(),
    ensures
        h == le_half(data@[i as int], data@[i + 1]),
{
    (data[i] as u16) | ((data[i + 1] as u16) << 8)
}

} // verus!

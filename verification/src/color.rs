//! Packing of colour channels into words and back.
use vstd::prelude::*;

verus! {

/// The word that holds `r` in its top byte, then `g`, `b`, and `a` in its
/// lowest byte.
pub open spec fn pack_rgba(r: u8, g: u8, b: u8, a: u8) -> u32 {
    ((r as u32) << 24) | ((g as u32) << 16) | ((b as u32) << 8) | (a as u32)
}

/// Byte `k` of `num`, counted from the top: byte 0 is bits 24..32.
pub open spec fn channel(num: u32, k: int) -> u8 {
    if k == 0 {
        ((num >> 24) & 255) as u8
    } else if k == 1 {
        ((num >> 16) & 255) as u8
    } else if k == 2 {
        ((num >> 8) & 255) as u8
    } else {
        (num & 255) as u8
    }
}

/// The word with the four bytes of `num` in reverse order.
pub open spec fn reversed_bytes(num: u32) -> u32 {
    ((num & 255) << 24) | (((num >> 8) & 255) << 16) | (((num >> 16) & 255) << 8) | ((num >> 24)
        & 255)
}

/// Packs four colour channels into one word, red in the top byte.
pub fn u8_rgba_to_u32_rgba(r: u8, g: u8, b: u8, a: u8) -> (packed: u32)
    ensures
        packed == pack_rgba(r, g, b, a),
{
    ((r as u32) << 24) | ((g as u32) << 16) | ((b as u32) << 8) | (a as u32)
}

/// Reverses the byte order of a packed colour.
pub fn u32_rgba_to_u32_abgr(num: u32) -> (swapped: u32)
    ensures
        swapped == reversed_bytes(num),
{
    let r = num & 255;
    let g = (num >> 8) & 255;
    let b = (num >> 16) & 255;
    let a = (num >> 24) & 255;
    (r << 24) | (g << 16) | (b << 8) | a
}

/// Splits a packed colour into its four channels, top byte first.
pub fn u32_rgba_to_u8_rgba(num: u32) -> (channels: [u8; 4])
    ensures
        forall|k: int| 0 <= k < 4 ==> channels[k] == channel(num, k),
{
    let r = num & 255;
    let g = (num >> 8) & 255;
    let b = (num >> 16) & 255;
    let a = (num >> 24) & 255;
    assert(r < 256 && g < 256 && b < 256 && a < 256) by (bit_vector)
        requires
            r == num & 255,
            g == (num >> 8) & 255,
            b == (num >> 16) & 255,
            a == (num >> 24) & 255,
    ;
    [a as u8, b as u8, g as u8, r as u8]
}

/// Splitting a packed colour gives back the channels it was packed from.
pub proof fn lemma_channels_of_packed(r: u8, g: u8, b: u8, a: u8)
    ensures
        channel(pack_rgba(r, g, b, a), 0) == r,
        channel(pack_rgba(r, g, b, a), 1) == g,
        channel(pack_rgba(r, g, b, a), 2) == b,
        channel(pack_rgba(r, g, b, a), 3) == a,
{
    let p = pack_rgba(r, g, b, a);
    assert(((p >> 24) & 255) == r as u32 && ((p >> 16) & 255) == g as u32 && ((p >> 8) & 255)
        == b as u32 && (p & 255) == a as u32) by (bit_vector)
        requires
            p == ((r as u32) << 24) | ((g as u32) << 16) | ((b as u32) << 8) | (a as u32),
    ;
}

/// Packing the channels of a word gives the word back.
pub proof fn lemma_packed_of_channels(num: u32)
    ensures
        pack_rgba(channel(num, 0), channel(num, 1), channel(num, 2), channel(num, 3)) == num,
{
    let c0 = (num >> 24) & 255;
    let c1 = (num >> 16) & 255;
    let c2 = (num >> 8) & 255;
    let c3 = num & 255;
    assert(c0 < 256 && c1 < 256 && c2 < 256 && c3 < 256 && (c0 << 24) | (c1 << 16) | (c2 << 8)
        | c3 == num) by (bit_vector)
        requires
            c0 == (num >> 24) & 255,
            c1 == (num >> 16) & 255,
            c2 == (num >> 8) & 255,
            c3 == num & 255,
    ;
    assert((c0 as u8) as u32 == c0);
    assert((c1 as u8) as u32 == c1);
    assert((c2 as u8) as u32 == c2);
    assert((c3 as u8) as u32 == c3);
}

/// Reversing the byte order twice gives the word back.
pub proof fn lemma_reversed_bytes_twice(num: u32)
    ensures
        reversed_bytes(reversed_bytes(num)) == num,
{
    let once = reversed_bytes(num);
    assert(((once & 255) << 24) | (((once >> 8) & 255) << 16) | (((once >> 16) & 255) << 8) | ((
    once >> 24) & 255) == num) by (bit_vector)
        requires
            once == ((num & 255) << 24) | (((num >> 8) & 255) << 16) | (((num >> 16) & 255) << 8)
                | ((num >> 24) & 255),
    ;
}

} // verus!

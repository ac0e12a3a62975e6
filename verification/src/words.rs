//! 32-bit word arithmetic and little-endian byte conversions.
//!
//! The cipher works on 32-bit unsigned words with three primitive operations:
//! addition wrapping modulo 2^32, bitwise exclusive-or, and left rotation.
//! Keys, nonces and keystream blocks store each word as four bytes in
//! little-endian order.

use vstd::prelude::*;

verus! {

/// Addition of two 32-bit words, wrapping modulo 2^32.
pub open spec fn wrap_add(x: u32, y: u32) -> u32 {
    ((x + y) % 0x1_0000_0000) as u32
}

/// Left rotation of a 32-bit word by `n` bit positions.
pub open spec fn rotl(x: u32, n: u32) -> u32
    recommends
        0 < n < 32,
{
    (x << n) | (x >> ((32 - n) as u32))
}

/// The 32-bit word stored by four bytes in little-endian order
/// (least significant byte first).
pub open spec fn word_from_le(b0: u8, b1: u8, b2: u8, b3: u8) -> u32 {
    (b0 as u32) | ((b1 as u32) << 8) | ((b2 as u32) << 16) | ((b3 as u32) << 24)
}

/// The four little-endian bytes of a 32-bit word, least significant first.
pub open spec fn word_to_le(x: u32) -> Seq<u8> {
    seq![
        (x & 0xff) as u8,
        ((x >> 8) & 0xff) as u8,
        ((x >> 16) & 0xff) as u8,
        ((x >> 24) & 0xff) as u8,
    ]
}

/// Wrapping 32-bit addition.
pub fn add_word(x: u32, y: u32) -> (r: u32)
    ensures
        r == wrap_add(x, y),
{
    proof {
        if x + y > u32::MAX {
            assert((x + y) % 0x1_0000_0000 == x + y - 0x1_0000_0000);
        } else {
            assert((x + y) % 0x1_0000_0000 == x + y);
        }
    }
    x.wrapping_add(y)
}

/// Left rotation of a 32-bit word by `n` bit positions, `0 < n < 32`.
pub fn rotate_word(x: u32, n: u32) -> (r: u32)
    requires
        0 < n < 32,
    ensures
        r == rotl(x, n),
{
    (x << n) | (x >> (32 - n))
}

/// Reads the little-endian 32-bit word at byte offset `off` of `b`.
pub fn load_word(b: &[u8], off: usize) -> (r: u32)
    requires
        off + 4 <= b@.len(),
    ensures
        r == word_from_le(b@[off as int], b@[off + 1], b@[off + 2], b@[off + 3]),
{
    (b[off] as u32) | ((b[off + 1] as u32) << 8) | ((b[off + 2] as u32) << 16) | ((b[off + 3]
        as u32) << 24)
}

/// Writes the four little-endian bytes of `x` at byte offset `off` of `out`.
pub fn store_word(out: &mut [u8], off: usize, x: u32)
    requires
        off + 4 <= old(out)@.len(),
    ensures
        final(out)@.len() == old(out)@.len(),
        forall|j: int| 0 <= j < 4 ==> final(out)@[off + j] == word_to_le(x)[j],
        forall|j: int|
            0 <= j < old(out)@.len() && !(off <= j < off + 4) ==> final(out)@[j] == old(out)@[j],
{
    proof {
        assert(x & 0xff < 256 && (x >> 8) & 0xff < 256 && (x >> 16) & 0xff < 256 && (x >> 24)
            & 0xff < 256) by (bit_vector);
    }
    out[off] = (x & 0xff) as u8;
    out[off + 1] = ((x >> 8) & 0xff) as u8;
    out[off + 2] = ((x >> 16) & 0xff) as u8;
    out[off + 3] = ((x >> 24) & 0xff) as u8;
}

} // verus!

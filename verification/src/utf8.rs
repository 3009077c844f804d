//! A check that bytes are well-formed UTF-8.

use vstd::prelude::*;
use vstd::utf8::*;

verus! {

/// True for a byte of the form `10xxxxxx`.
fn is_continuation(byte: u8) -> (yes: bool)
    ensures
        yes == is_continuation_byte(byte),
{
    0x80 <= byte && byte <= 0xbf
}

/// True when `codepoint`, encoded in `width` bytes, is a Unicode scalar value
/// in its shortest encoding.
fn is_shortest_scalar(codepoint: u32, width: usize) -> (yes: bool)
    ensures
        yes == (not_overlong_encoding(codepoint, width as int) && not_surrogate(codepoint)),
{
    let long_enough: bool = if width == 2 {
        0x80 <= codepoint
    } else if width == 3 {
        0x800 <= codepoint
    } else if width == 4 {
        0x10000 <= codepoint && codepoint <= 0x10ffff
    } else {
        true
    };
    long_enough && !(0xd800 <= codepoint && codepoint <= 0xdfff)
}

/// The number of bytes that the scalar value encoded at `bytes[at..]` takes,
/// or 0 when no well-formed encoding of a scalar value starts there.
pub fn scalar_width(bytes: &[u8], at: usize) -> (width: usize)
    requires
        at < bytes@.len(),
    ensures
        valid_first_scalar(bytes@.subrange(at as int, bytes@.len() as int)) ==> width
            == length_of_first_scalar(bytes@.subrange(at as int, bytes@.len() as int)),
        !valid_first_scalar(bytes@.subrange(at as int, bytes@.len() as int)) ==> width == 0,
        at + width <= bytes@.len(),
        width <= 4,
{
    let n: usize = bytes.len();
    let left: usize = n - at;
    let ghost rest = bytes@.subrange(at as int, n as int);
    let b0: u8 = bytes[at];
    assert(rest[0] == b0);
    if b0 <= 0x7f {
        1
    } else if 0xc0 <= b0 && b0 <= 0xdf {
        if left < 2 {
            return 0;
        }
        let b1: u8 = bytes[at + 1];
        assert(rest[1] == b1);
        if !is_continuation(b1) {
            return 0;
        }
        let codepoint: u32 = (((b0 & 0x1f) as u32) << 6) | ((b1 & 0x3f) as u32);
        assert(codepoint == codepoint_width_2(b0, b1));
        if is_shortest_scalar(codepoint, 2) {
            2
        } else {
            0
        }
    } else if 0xe0 <= b0 && b0 <= 0xef {
        if left < 3 {
            return 0;
        }
        let b1: u8 = bytes[at + 1];
        let b2: u8 = bytes[at + 2];
        assert(rest[1] == b1 && rest[2] == b2);
        if !is_continuation(b1) || !is_continuation(b2) {
            return 0;
        }
        let codepoint: u32 = (((b0 & 0x0f) as u32) << 12) | (((b1 & 0x3f) as u32) << 6) | ((b2
            & 0x3f) as u32);
        assert(codepoint == codepoint_width_3(b0, b1, b2));
        if is_shortest_scalar(codepoint, 3) {
            3
        } else {
            0
        }
    } else if 0xf0 <= b0 && b0 <= 0xf7 {
        if left < 4 {
            return 0;
        }
        let b1: u8 = bytes[at + 1];
        let b2: u8 = bytes[at + 2];
        let b3: u8 = bytes[at + 3];
        assert(rest[1] == b1 && rest[2] == b2 && rest[3] == b3);
        if !is_continuation(b1) || !is_continuation(b2) || !is_continuation(b3) {
            return 0;
        }
        let codepoint: u32 = (((b0 & 0x07) as u32) << 18) | (((b1 & 0x3f) as u32) << 12) | (((b2
            & 0x3f) as u32) << 6) | ((b3 & 0x3f) as u32);
        assert(codepoint == codepoint_width_4(b0, b1, b2, b3));
        if is_shortest_scalar(codepoint, 4) {
            4
        } else {
            0
        }
    } else {
        0
    }
}

/// Decides whether `bytes` is well-formed UTF-8.
pub fn is_valid_utf8(bytes: &[u8]) -> (valid: bool)
    ensures
        valid == valid_utf8(bytes@),
{
    let n: usize = bytes.len();
    let mut i: usize = 0;
    assert(bytes@.subrange(0, 0) =~= Seq::<u8>::empty());
    while i < n
        invariant
            i <= n,
            n == bytes@.len(),
            partial_valid_utf8(bytes@, i as int),
        decreases n - i,
    {
        let ghost rest = bytes@.subrange(i as int, n as int);
        let width: usize = scalar_width(bytes, i);
        if width == 0 {
            proof {
                assert(rest.len() != 0);
                assert(!valid_utf8(rest));
                partial_valid_partial_invalid_utf8(bytes@, i as int);
            }
            return false;
        }
        proof {
            partial_valid_utf8_extend(bytes@, i as int);
        }
        i = i + width;
    }
    assert(bytes@.subrange(0, n as int) =~= bytes@);
    true
}

} // verus!

//! Whether bytes are well-formed UTF-8.

use vstd::prelude::*;
use vstd::utf8::{
    decode_first_codepoint, length_of_first_codepoint, partial_valid_partial_invalid_utf8,
    partial_valid_utf8, partial_valid_utf8_extend, valid_first_scalar, valid_utf8,
};

verus! {

fn is_continuation(b: u8) -> (r: bool)
    ensures
        r == vstd::utf8::is_continuation_byte(b),
{
    0x80 <= b && b <= 0xbf
}

/// Measures the scalar value that is encoded at `i`: the number of its
/// bytes, or 0 where the bytes from `i` on do not start with a well-formed
/// encoding of one.
fn scalar_width(s: &[u8], i: usize) -> (w: usize)
    requires
        i < s.len(),
    ensures
        w == 0 <==> !valid_first_scalar(s@.subrange(i as int, s@.len() as int)),
        w > 0 ==> w == length_of_first_codepoint(s@.subrange(i as int, s@.len() as int)),
        i + w <= s.len(),
{
    let n: usize = s.len();
    let ghost rest = s@.subrange(i as int, n as int);
    let left: usize = n - i;
    let a: u8 = s[i];
    assert(rest[0] == a);
    let width: usize = if a <= 0x7f {
        1
    } else if 0xc0 <= a && a <= 0xdf {
        2
    } else if 0xe0 <= a && a <= 0xef {
        3
    } else if 0xf0 <= a && a <= 0xf7 {
        4
    } else {
        0
    };
    if width == 0 || left < width {
        return 0;
    }
    let point: u32 = if width == 1 {
        (a & 0x7f) as u32
    } else if width == 2 {
        let b: u8 = s[i + 1];
        assert(rest[1] == b);
        if !is_continuation(b) {
            return 0;
        }
        (((a & 0x1f) as u32) << 6) | ((b & 0x3f) as u32)
    } else if width == 3 {
        let b: u8 = s[i + 1];
        let c: u8 = s[i + 2];
        assert(rest[1] == b && rest[2] == c);
        if !is_continuation(b) || !is_continuation(c) {
            return 0;
        }
        (((a & 0x0f) as u32) << 12) | (((b & 0x3f) as u32) << 6) | ((c & 0x3f) as u32)
    } else {
        let b: u8 = s[i + 1];
        let c: u8 = s[i + 2];
        let d: u8 = s[i + 3];
        assert(rest[1] == b && rest[2] == c && rest[3] == d);
        if !is_continuation(b) || !is_continuation(c) || !is_continuation(d) {
            return 0;
        }
        (((a & 0x07) as u32) << 18) | (((b & 0x3f) as u32) << 12) | (((c & 0x3f) as u32) << 6) | ((d
            & 0x3f) as u32)
    };
    assert(point == decode_first_codepoint(rest));
    if width == 2 && point < 0x80 {
        return 0;
    }
    if width == 3 && point < 0x800 {
        return 0;
    }
    if width == 4 && (point < 0x10000 || point > 0x10ffff) {
        return 0;
    }
    if 0xd800 <= point && point <= 0xdfff {
        return 0;
    }
    width
}

/// Decides whether `s` is well-formed UTF-8.
pub fn is_valid_utf8(s: &[u8]) -> (r: bool)
    ensures
        r == valid_utf8(s@),
{
    let n: usize = s.len();
    let mut i: usize = 0;
    assert(s@.subrange(0, 0) == Seq::<u8>::empty());
    while i < n
        invariant
            i <= n,
            n == s.len(),
            partial_valid_utf8(s@, i as int),
        decreases n - i,
    {
        let w: usize = scalar_width(s, i);
        if w == 0 {
            proof {
                let rest = s@.subrange(i as int, n as int);
                assert(rest.len() > 0);
                assert(!valid_utf8(rest));
                partial_valid_partial_invalid_utf8(s@, i as int);
            }
            return false;
        }
        proof {
            partial_valid_utf8_extend(s@, i as int);
        }
        i += w;
    }
    proof {
        assert(s@.subrange(0, n as int) == s@);
    }
    true
}

} // verus!

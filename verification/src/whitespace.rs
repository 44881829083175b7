//! Whitespace in the text of a literal: the characters that Unicode gives the
//! property White_Space, as UTF-8 writes them.

use crate::bytes::tail;
use vstd::prelude::*;
use vstd::utf8::{decode_first_scalar, length_of_first_scalar, valid_first_scalar};

verus! {

/// Whether the character numbered `c` has the Unicode property White_Space.
pub open spec fn is_white_space(c: u32) -> bool {
    ||| 0x09 <= c <= 0x0d
    ||| c == 0x20
    ||| c == 0x85
    ||| c == 0xa0
    ||| c == 0x1680
    ||| 0x2000 <= c <= 0x200a
    ||| c == 0x2028
    ||| c == 0x2029
    ||| c == 0x202f
    ||| c == 0x205f
    ||| c == 0x3000
}

/// The number of bytes of the whitespace character that `s` starts with, and 0 where
/// it starts with none: `s` then is empty, or starts with another character, or with
/// bytes that are no UTF-8.
pub open spec fn whitespace_width(s: Seq<u8>) -> int {
    if valid_first_scalar(s) && is_white_space(decode_first_scalar(s)) {
        length_of_first_scalar(s)
    } else {
        0
    }
}

/// `s` without the whitespace characters that it starts with.
pub open spec fn trim_start(s: Seq<u8>) -> Seq<u8>
    decreases s.len(),
{
    if 0 < whitespace_width(s) <= s.len() {
        trim_start(s.skip(whitespace_width(s)))
    } else {
        s
    }
}

/// A whitespace character takes one to three bytes, and no more than there are.
pub proof fn lemma_whitespace_width_bounds(s: Seq<u8>)
    ensures
        0 <= whitespace_width(s) <= 3,
        whitespace_width(s) <= s.len(),
{
}

/// Nothing is added by trimming.
pub proof fn lemma_trim_start_len(s: Seq<u8>)
    ensures
        trim_start(s).len() <= s.len(),
    decreases s.len(),
{
    if 0 < whitespace_width(s) <= s.len() {
        lemma_trim_start_len(s.skip(whitespace_width(s)));
    }
}

/// Which single byte writes a whitespace character.
proof fn lemma_one_byte(b0: u8)
    by (bit_vector)
    requires
        b0 <= 0x7f,
    ensures
        ({
            let c = (b0 & 0x7f) as u32;
            (0x09 <= c && c <= 0x0d || c == 0x20 || c == 0x85 || c == 0xa0 || c == 0x1680
                || 0x2000 <= c && c <= 0x200a || c == 0x2028 || c == 0x2029 || c == 0x202f || c
                == 0x205f || c == 0x3000) <==> (0x09 <= b0 && b0 <= 0x0d || b0 == 0x20)
        }),
{
}

/// Which two bytes write a whitespace character.
proof fn lemma_two_bytes(b0: u8, b1: u8)
    by (bit_vector)
    requires
        0xc0 <= b0 <= 0xdf,
        0x80 <= b1 <= 0xbf,
    ensures
        ({
            let c = (((b0 & 0x1f) as u32) << 6) | ((b1 & 0x3f) as u32);
            (0x80 <= c && (0x09 <= c && c <= 0x0d || c == 0x20 || c == 0x85 || c == 0xa0 || c
                == 0x1680 || 0x2000 <= c && c <= 0x200a || c == 0x2028 || c == 0x2029 || c
                == 0x202f || c == 0x205f || c == 0x3000)) <==> (b0 == 0xc2 && (b1 == 0x85 || b1
                == 0xa0))
        }),
{
}

/// Which three bytes write a whitespace character.
proof fn lemma_three_bytes(b0: u8, b1: u8, b2: u8)
    by (bit_vector)
    requires
        0xe0 <= b0 <= 0xef,
        0x80 <= b1 <= 0xbf,
        0x80 <= b2 <= 0xbf,
    ensures
        ({
            let c = (((b0 & 0x0f) as u32) << 12) | (((b1 & 0x3f) as u32) << 6) | ((b2
                & 0x3f) as u32);
            (0x800 <= c && !(0xd800 <= c && c <= 0xdfff) && (0x09 <= c && c <= 0x0d || c == 0x20
                || c == 0x85 || c == 0xa0 || c == 0x1680 || 0x2000 <= c && c <= 0x200a || c
                == 0x2028 || c == 0x2029 || c == 0x202f || c == 0x205f || c == 0x3000)) <==> (b0
                == 0xe1 && b1 == 0x9a && b2 == 0x80 || b0 == 0xe2 && b1 == 0x80 && (0x80 <= b2
                && b2 <= 0x8a || b2 == 0xa8 || b2 == 0xa9 || b2 == 0xaf) || b0 == 0xe2 && b1
                == 0x81 && b2 == 0x9f || b0 == 0xe3 && b1 == 0x80 && b2 == 0x80)
        }),
{
}

/// Whether three bytes write a whitespace character: U+1680, U+2000 to U+200A,
/// U+2028, U+2029, U+202F, U+205F or U+3000.
pub open spec fn is_wide_whitespace(b0: u8, b1: u8, b2: u8) -> bool {
    ||| b0 == 0xe1 && b1 == 0x9a && b2 == 0x80
    ||| b0 == 0xe2 && b1 == 0x80 && (0x80 <= b2 <= 0x8a || b2 == 0xa8 || b2 == 0xa9 || b2 == 0xaf)
    ||| b0 == 0xe2 && b1 == 0x81 && b2 == 0x9f
    ||| b0 == 0xe3 && b1 == 0x80 && b2 == 0x80
}

/// `whitespace_width`, read off the bytes: one byte for U+0009 to U+000D and U+0020,
/// two for U+0085 and U+00A0, three for the others.
pub open spec fn whitespace_bytes(s: Seq<u8>) -> int {
    if s.len() >= 1 && (0x09 <= s[0] <= 0x0d || s[0] == 0x20) {
        1
    } else if s.len() >= 2 && s[0] == 0xc2 && (s[1] == 0x85 || s[1] == 0xa0) {
        2
    } else if s.len() >= 3 && is_wide_whitespace(s[0], s[1], s[2]) {
        3
    } else {
        0
    }
}

/// The bytes that `whitespace_bytes` reads are the UTF-8 encodings of the whitespace
/// characters, and no others.
pub proof fn lemma_whitespace_bytes(s: Seq<u8>)
    ensures
        whitespace_width(s) == whitespace_bytes(s),
{
    if s.len() >= 1 {
        let b0 = s[0];
        if b0 <= 0x7f {
            lemma_one_byte(b0);
        } else if 0xc0 <= b0 <= 0xdf {
            if s.len() >= 2 && 0x80 <= s[1] <= 0xbf {
                lemma_two_bytes(b0, s[1]);
            }
        } else if 0xe0 <= b0 <= 0xef {
            if s.len() >= 3 && 0x80 <= s[1] <= 0xbf && 0x80 <= s[2] <= 0xbf {
                lemma_three_bytes(b0, s[1], s[2]);
            }
        }
    }
}

/// Tells how many bytes the whitespace character takes that `s` starts with, and 0
/// where it starts with none.
pub fn whitespace_len(s: &[u8]) -> (r: usize)
    ensures
        r == whitespace_width(s@),
{
    proof {
        lemma_whitespace_bytes(s@);
    }
    if s.len() >= 1 && ((0x09 <= s[0] && s[0] <= 0x0d) || s[0] == 0x20) {
        1
    } else if s.len() >= 2 && s[0] == 0xc2 && (s[1] == 0x85 || s[1] == 0xa0) {
        2
    } else if s.len() >= 3 && ((s[0] == 0xe1 && s[1] == 0x9a && s[2] == 0x80) || (s[0] == 0xe2
        && s[1] == 0x80 && ((0x80 <= s[2] && s[2] <= 0x8a) || s[2] == 0xa8 || s[2] == 0xa9 || s[2]
        == 0xaf)) || (s[0] == 0xe2 && s[1] == 0x81 && s[2] == 0x9f) || (s[0] == 0xe3 && s[1]
        == 0x80 && s[2] == 0x80)) {
        3
    } else {
        0
    }
}

/// Drops the whitespace characters that `s` starts with.
pub fn skip_whitespace(s: &[u8]) -> (r: &[u8])
    ensures
        r@ == trim_start(s@),
{
    let len = s.len();
    let mut i: usize = 0;
    assert(s@.skip(0) =~= s@);
    while i < len
        invariant
            i <= len == s@.len(),
            trim_start(s@) == trim_start(s@.skip(i as int)),
        decreases len - i,
    {
        let n = whitespace_len(tail(s, i));
        proof {
            lemma_whitespace_width_bounds(s@.skip(i as int));
        }
        if n == 0 {
            return tail(s, i);
        }
        assert(s@.skip(i as int).skip(n as int) =~= s@.skip(i + n));
        i += n;
    }
    tail(s, i)
}

} // verus!

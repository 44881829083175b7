//! The escapes of a cooked string literal that carry a number: `\xHH` and `\u{H..H}`.

use crate::bytes::{position, tail, CLOSE_BRACE, OPEN_BRACE};
use crate::error::ErrorKind;
use vstd::prelude::*;
use vstd::utf8::{encode_scalar, is_scalar};

verus! {

/// The value of a hexadecimal digit, if `b` is one.
pub open spec fn hex_value(b: u8) -> Option<u8> {
    if 0x30 <= b <= 0x39 {
        Some((b - 0x30) as u8)
    } else if 0x61 <= b <= 0x66 {
        Some((b - 0x61 + 10) as u8)
    } else if 0x41 <= b <= 0x46 {
        Some((b - 0x41 + 10) as u8)
    } else {
        None
    }
}

/// Whether every byte of `digits` is a hexadecimal digit.
pub open spec fn all_hex(digits: Seq<u8>) -> bool {
    forall|i: int| 0 <= i < digits.len() ==> hex_value(#[trigger] digits[i]).is_some()
}

/// The number that `digits` write in base 16, most significant digit first.
pub open spec fn hex_number(digits: Seq<u8>) -> nat
    decreases digits.len(),
{
    if digits.len() == 0 {
        0
    } else {
        16 * hex_number(digits.drop_last()) + hex_value(digits.last()).unwrap_or(0) as nat
    }
}

/// 16 to the power `n`.
pub open spec fn pow16(n: nat) -> nat
    decreases n,
{
    if n == 0 {
        1
    } else {
        16 * pow16((n - 1) as nat)
    }
}

/// The byte that the text behind `\x` denotes: its first two bytes, read as hexadecimal digits.
pub open spec fn hex_escape(s: Seq<u8>) -> Option<u8> {
    if s.len() >= 2 && hex_value(s[0]).is_some() && hex_value(s[1]).is_some() {
        Some((16 * hex_value(s[0]).unwrap() + hex_value(s[1]).unwrap()) as u8)
    } else {
        None
    }
}

/// The character that the text behind `\u` denotes, and the number of bytes that the
/// escape takes from that text: an opening brace, one to six hexadecimal digits that
/// write a Unicode scalar value, and a closing brace.
pub open spec fn unicode_escape(s: Seq<u8>) -> Option<(char, int)> {
    if s.len() >= 1 && s[0] == OPEN_BRACE {
        match s.skip(1).index_of_first(CLOSE_BRACE) {
            Some(n) => {
                let digits = s.subrange(1, 1 + n);
                if 1 <= n <= 6 && all_hex(digits) && is_scalar(hex_number(digits) as u32) {
                    Some((hex_number(digits) as u32 as char, n + 2))
                } else {
                    None
                }
            },
            None => None,
        }
    } else {
        None
    }
}

/// A number of `n` hexadecimal digits is below 16 to the power `n`.
pub proof fn lemma_hex_number_bound(digits: Seq<u8>)
    ensures
        hex_number(digits) < pow16(digits.len()),
    decreases digits.len(),
{
    if digits.len() > 0 {
        lemma_hex_number_bound(digits.drop_last());
    }
}

/// Reads one hexadecimal digit, in either case.
pub fn hex_to_u8(b: u8) -> (r: Option<u8>)
    ensures
        r == hex_value(b),
        r matches Some(v) ==> v < 16,
{
    if 0x30 <= b && b <= 0x39 {
        Some(b - 0x30)
    } else if 0x61 <= b && b <= 0x66 {
        Some(b - 0x61 + 10)
    } else if 0x41 <= b && b <= 0x46 {
        Some(b - 0x41 + 10)
    } else {
        None
    }
}

/// Reads the two hexadecimal digits behind `\x` and hands back the byte they write
/// together with the text behind them.
pub fn backslash_x(s: &[u8]) -> (r: Result<(u8, &[u8]), ErrorKind>)
    ensures
        match r {
            Ok((b, rest)) => hex_escape(s@) == Some(b) && rest@ == s@.skip(2),
            Err(e) => hex_escape(s@).is_none() && e == ErrorKind::InvalidHexEscape,
        },
{
    if s.len() < 2 {
        return Err(ErrorKind::InvalidHexEscape);
    }
    match (hex_to_u8(s[0]), hex_to_u8(s[1])) {
        (Some(high), Some(low)) => Ok((high * 0x10 + low, tail(s, 2))),
        _ => Err(ErrorKind::InvalidHexEscape),
    }
}

/// `char::from_u32` of std, which gives the character numbered `i` where `i` is a
/// Unicode scalar value, and nothing for a surrogate or a number above 0x10FFFF.
pub assume_specification[ char::from_u32 ](i: u32) -> (r: Option<char>)
    ensures
        r == if is_scalar(i) {
            Some(i as char)
        } else {
            None::<char>
        },
;

/// Reads the braces behind `\u` and the digits in them, and hands back the character
/// they number together with the text behind the closing brace.
pub fn backslash_u(s: &[u8]) -> (r: Result<(char, &[u8]), ErrorKind>)
    ensures
        match r {
            Ok((c, rest)) => unicode_escape(s@) matches Some((scalar, n)) && scalar == c && rest@
                == s@.skip(n),
            Err(e) => unicode_escape(s@).is_none() && e == ErrorKind::InvalidUnicodeEscape,
        },
{
    if s.len() == 0 || s[0] != OPEN_BRACE {
        return Err(ErrorKind::InvalidUnicodeEscape);
    }
    let end = match position(tail(s, 1), CLOSE_BRACE) {
        Some(end) => end,
        None => {
            return Err(ErrorKind::InvalidUnicodeEscape);
        },
    };
    if end == 0 || end > 6 {
        return Err(ErrorKind::InvalidUnicodeEscape);
    }
    let ghost digits = s@.subrange(1, 1 + end);
    let mut ch: u32 = 0;
    let mut i: usize = 0;
    while i < end
        invariant
            i <= end <= 6,
            end < s@.len(),
            s@[0] == OPEN_BRACE,
            s@.skip(1).index_of_first(CLOSE_BRACE) == Some(end as int),
            digits == s@.subrange(1, 1 + end),
            ch == hex_number(digits.take(i as int)),
            all_hex(digits.take(i as int)),
        decreases end - i,
    {
        proof {
            lemma_hex_number_bound(digits.take(i as int));
            reveal_with_fuel(pow16, 7);
            assert(digits.take(i + 1).drop_last() == digits.take(i as int));
            assert(digits.take(i + 1).last() == s@[1 + i]);
        }
        match hex_to_u8(s[1 + i]) {
            Some(d) => {
                ch = ch * 0x10 + d as u32;
            },
            None => {
                assert(!all_hex(digits)) by {
                    assert(digits[i as int] == s@[1 + i]);
                }
                return Err(ErrorKind::InvalidUnicodeEscape);
            },
        }
        i += 1;
    }
    assert(digits.take(end as int) == digits);
    match char::from_u32(ch) {
        Some(c) => {
            assert(unicode_escape(s@) == Some((c, end + 2)));
            Ok((c, tail(s, end + 2)))
        },
        None => Err(ErrorKind::InvalidUnicodeEscape),
    }
}

/// Appends the UTF-8 encoding of `c` to `out`.
pub fn push_utf8(out: &mut Vec<u8>, c: char)
    ensures
        final(out)@ == old(out)@ + encode_scalar(c as u32),
{
    let v: u32 = c as u32;
    if v <= 0x7f {
        assert(v & 0x7f == v) by (bit_vector)
            requires
                v <= 0x7f,
        ;
        out.push(v as u8);
        assert(final(out)@ =~= old(out)@ + encode_scalar(c as u32));
    } else if v <= 0x7ff {
        assert((v >> 6) & 0x1f <= 0x1f && v & 0x3f <= 0x3f) by (bit_vector);
        out.push(0xc0 | ((v >> 6) & 0x1f) as u8);
        out.push(0x80 | (v & 0x3f) as u8);
        assert(final(out)@ =~= old(out)@ + encode_scalar(c as u32));
    } else if v <= 0xffff {
        assert((v >> 12) & 0x0f <= 0x0f && (v >> 6) & 0x3f <= 0x3f && v & 0x3f <= 0x3f)
            by (bit_vector);
        out.push(0xe0 | ((v >> 12) & 0x0f) as u8);
        out.push(0x80 | ((v >> 6) & 0x3f) as u8);
        out.push(0x80 | (v & 0x3f) as u8);
        assert(final(out)@ =~= old(out)@ + encode_scalar(c as u32));
    } else {
        assert((v >> 18) & 0x7 <= 0x7 && (v >> 12) & 0x3f <= 0x3f && (v >> 6) & 0x3f <= 0x3f && v
            & 0x3f <= 0x3f) by (bit_vector);
        out.push(0xf0 | ((v >> 18) & 0x7) as u8);
        out.push(0x80 | ((v >> 12) & 0x3f) as u8);
        out.push(0x80 | ((v >> 6) & 0x3f) as u8);
        out.push(0x80 | (v & 0x3f) as u8);
        assert(final(out)@ =~= old(out)@ + encode_scalar(c as u32));
    }
}

} // verus!

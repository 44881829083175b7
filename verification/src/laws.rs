//! Laws of the decoder: what it gives back for literals written in a known way.

use crate::bytes::{BACKSLASH, CR, LF, LOWER_R, LOWER_X, POUND, QUOTE};
use crate::error::ErrorKind;
use crate::escape::{hex_escape, hex_value};
use crate::parse::{
    cooked_value, escape, lemma_prepend_nothing, lemma_prepend_twice, literal_value, prepend,
};
use crate::whitespace::{is_white_space, trim_start, whitespace_width};
use vstd::prelude::*;
use vstd::utf8::{
    decode_first_scalar, encode_scalar, encode_utf8, encode_utf8_first_scalar,
    length_of_first_scalar, valid_first_scalar,
};

verus! {

/// The lower-case hexadecimal digit that writes `v`, for `v` below 16.
pub open spec fn hex_digit(v: int) -> u8 {
    if v < 10 {
        (0x30 + v) as u8
    } else {
        (0x61 + v - 10) as u8
    }
}

/// How a byte is written inside a cooked string literal: a backslash before a
/// backslash or a quote, `\x` and two digits for a control byte and for a byte from
/// 0x80 on, and the byte itself otherwise.
pub open spec fn escaped(b: u8) -> Seq<u8> {
    if b == BACKSLASH || b == QUOTE {
        seq![BACKSLASH, b]
    } else if b < 0x20 || b >= 0x7f {
        seq![BACKSLASH, LOWER_X, hex_digit(b as int / 16), hex_digit(b as int % 16)]
    } else {
        seq![b]
    }
}

/// The bytes of `bytes`, each written as `escaped` says.
pub open spec fn escaped_text(bytes: Seq<u8>) -> Seq<u8>
    decreases bytes.len(),
{
    if bytes.len() == 0 {
        Seq::empty()
    } else {
        escaped(bytes[0]) + escaped_text(bytes.skip(1))
    }
}

/// The cooked string literal that writes `bytes`.
pub open spec fn cooked_literal_of(bytes: Seq<u8>) -> Seq<u8> {
    seq![QUOTE] + escaped_text(bytes) + seq![QUOTE]
}

/// `n` times `#`.
pub open spec fn pounds(n: nat) -> Seq<u8> {
    Seq::new(n, |i: int| POUND)
}

/// The raw string literal that writes `bytes` between `n` pounds on either side.
pub open spec fn raw_literal_of(bytes: Seq<u8>, n: nat) -> Seq<u8> {
    seq![LOWER_R] + pounds(n) + seq![QUOTE] + bytes + seq![QUOTE] + pounds(n)
}

/// Whether `s` holds neither a backslash nor a carriage return, so that each of its
/// bytes stands for itself in a cooked string.
pub open spec fn is_plain(s: Seq<u8>) -> bool {
    forall|i: int| 0 <= i < s.len() ==> s[i] != BACKSLASH && s[i] != CR
}

/// Whether every character of `chars` is whitespace.
pub open spec fn all_white_space(chars: Seq<char>) -> bool {
    forall|i: int| 0 <= i < chars.len() ==> is_white_space(#[trigger] chars[i] as u32)
}

/// A byte written as `escaped` says, before any text, decodes to that byte, before
/// whatever the text decodes to.
pub proof fn lemma_escaped_byte(b: u8, rest: Seq<u8>)
    ensures
        cooked_value(escaped(b) + rest) == prepend(seq![b], cooked_value(rest)),
{
    let s = escaped(b) + rest;
    if b == BACKSLASH || b == QUOTE {
        assert(s.skip(1).skip(1) =~= rest);
    } else if b < 0x20 || b >= 0x7f {
        let high = b as int / 16;
        let low = b as int % 16;
        let operand = s.skip(1).skip(1);
        assert(operand[0] == hex_digit(high) && operand[1] == hex_digit(low));
        assert(hex_value(hex_digit(high)) == Some(high as u8));
        assert(hex_value(hex_digit(low)) == Some(low as u8));
        assert(hex_escape(operand) == Some(b));
        assert(s.skip(1).skip(3) =~= rest);
    } else {
        assert(s.skip(1) =~= rest);
    }
}

/// Bytes written as `escaped_text` says, before any text, decode to those bytes,
/// before whatever the text decodes to.
pub proof fn lemma_escaped_prefix(bytes: Seq<u8>, rest: Seq<u8>)
    ensures
        cooked_value(escaped_text(bytes) + rest) == prepend(bytes, cooked_value(rest)),
    decreases bytes.len(),
{
    if bytes.len() == 0 {
        assert(escaped_text(bytes) + rest =~= rest);
        lemma_prepend_nothing(cooked_value(rest));
        assert(bytes =~= Seq::<u8>::empty());
    } else {
        let tail = escaped_text(bytes.skip(1)) + rest;
        assert(escaped_text(bytes) + rest =~= escaped(bytes[0]) + tail);
        lemma_escaped_byte(bytes[0], tail);
        lemma_escaped_prefix(bytes.skip(1), rest);
        lemma_prepend_twice(seq![bytes[0]], bytes.skip(1), cooked_value(rest));
        assert(seq![bytes[0]] + bytes.skip(1) =~= bytes);
    }
}

/// The last quote of a text that ends with a quote is its last byte.
proof fn lemma_last_quote(text: Seq<u8>)
    requires
        text.len() >= 1,
        text.last() == QUOTE,
    ensures
        text.index_of_last(QUOTE) == Some(text.len() - 1),
{
    text.index_of_last_ensures(QUOTE);
    assert(text.contains(QUOTE)) by {
        assert(text[text.len() - 1] == QUOTE);
    }
}

/// Round trip: the cooked string literal that writes `bytes`, with every control
/// byte, every byte from 0x80 on, every backslash and every quote escaped, decodes to
/// `bytes`.
pub proof fn lemma_cooked_round_trip(bytes: Seq<u8>)
    ensures
        literal_value(cooked_literal_of(bytes)) == Ok::<Seq<u8>, ErrorKind>(bytes),
{
    let text = cooked_literal_of(bytes);
    lemma_last_quote(text);
    let content = text.subrange(1, text.len() - 1);
    assert(content =~= escaped_text(bytes) + Seq::<u8>::empty());
    lemma_escaped_prefix(bytes, Seq::empty());
    assert(bytes + Seq::<u8>::empty() =~= bytes);
}

/// Raw-string identity: the raw string literal that writes `bytes`, which hold no
/// quote, between any number of pounds decodes to `bytes`.
pub proof fn lemma_raw_identity(bytes: Seq<u8>, n: nat)
    requires
        !bytes.contains(QUOTE),
    ensures
        literal_value(raw_literal_of(bytes, n)) == Ok::<Seq<u8>, ErrorKind>(bytes),
{
    let text = raw_literal_of(bytes, n);
    let s = text.skip(1);
    let open = n as int;
    let close = open + 1 + bytes.len();
    assert(s =~= pounds(n) + seq![QUOTE] + bytes + seq![QUOTE] + pounds(n));
    assert(s[open] == QUOTE && s[close] == QUOTE);
    assert forall|j: int| 0 <= j < s.len() && j != open && j != close implies s[j] != QUOTE by {
        if open < j < close {
            assert(s[j] == bytes[j - open - 1]);
            assert(bytes.contains(bytes[j - open - 1]));
        }
    }
    s.index_of_first_ensures(QUOTE);
    s.index_of_last_ensures(QUOTE);
    assert(s.index_of_first(QUOTE) == Some(open));
    assert(s.index_of_last(QUOTE) == Some(close));
    assert(s.subrange(open + 1, close) =~= bytes);
}

/// Plain text before any text decodes to itself, before whatever the text decodes to.
pub proof fn lemma_plain_prefix(plain: Seq<u8>, rest: Seq<u8>)
    requires
        is_plain(plain),
    ensures
        cooked_value(plain + rest) == prepend(plain, cooked_value(rest)),
    decreases plain.len(),
{
    if plain.len() == 0 {
        assert(plain + rest =~= rest);
        lemma_prepend_nothing(cooked_value(rest));
        assert(plain =~= Seq::<u8>::empty());
    } else {
        let s = plain + rest;
        assert(s.skip(1) =~= plain.skip(1) + rest);
        lemma_plain_prefix(plain.skip(1), rest);
        lemma_prepend_twice(seq![plain[0]], plain.skip(1), cooked_value(rest));
        assert(seq![plain[0]] + plain.skip(1) =~= plain);
    }
}

/// CRLF normalization: a carriage return and its line feed behind plain text, where
/// they are part of no escape, decode to the line feed alone.
pub proof fn lemma_crlf_normalized(before: Seq<u8>, after: Seq<u8>)
    requires
        is_plain(before),
    ensures
        cooked_value(before + seq![CR, LF] + after) == prepend(
            before + seq![LF],
            cooked_value(after),
        ),
{
    let s = seq![CR, LF] + after;
    assert(before + seq![CR, LF] + after =~= before + s);
    lemma_plain_prefix(before, s);
    assert(s.skip(2) =~= after);
    lemma_prepend_twice(before, seq![LF], cooked_value(after));
}

/// The character that a text starts with stays the first when more text follows.
pub proof fn lemma_first_scalar_extends(text: Seq<u8>, more: Seq<u8>)
    requires
        valid_first_scalar(text),
    ensures
        valid_first_scalar(text + more),
        decode_first_scalar(text + more) == decode_first_scalar(text),
        length_of_first_scalar(text + more) == length_of_first_scalar(text),
{
    let all = text + more;
    assert(forall|i: int| 0 <= i < text.len() ==> all[i] == text[i]);
}

/// Trimming takes away whitespace characters, written in UTF-8, and stops at text
/// that starts with none.
pub proof fn lemma_trim_whitespace(blank: Seq<char>, after: Seq<u8>)
    requires
        all_white_space(blank),
        whitespace_width(after) == 0,
    ensures
        trim_start(encode_utf8(blank) + after) == after,
    decreases blank.len(),
{
    if blank.len() == 0 {
        assert(encode_utf8(blank) + after =~= after);
    } else {
        let first = encode_scalar(blank[0] as u32);
        let rest = blank.drop_first();
        encode_utf8_first_scalar(blank);
        lemma_first_scalar_extends(encode_utf8(blank), after);
        assert((encode_utf8(blank) + after).skip(first.len() as int) =~= encode_utf8(rest)
            + after);
        assert(all_white_space(rest)) by {
            assert forall|i: int| 0 <= i < rest.len() implies is_white_space(
                #[trigger] rest[i] as u32,
            ) by {
                assert(rest[i] == blank[i + 1]);
            }
        }
        lemma_trim_whitespace(rest, after);
    }
}

/// A line continuation removes whitespace and nothing else: a backslash before a
/// line break, behind plain text, takes away the line break and the whitespace
/// characters behind it, and the text from the first character that is no whitespace
/// decodes as if it stood next to the plain text.
pub proof fn lemma_line_continuation(
    before: Seq<u8>,
    line_break: u8,
    blank: Seq<char>,
    after: Seq<u8>,
)
    requires
        is_plain(before),
        line_break == CR || line_break == LF,
        all_white_space(blank),
        whitespace_width(after) == 0,
    ensures
        cooked_value(before + seq![BACKSLASH, line_break] + encode_utf8(blank) + after)
            == prepend(before, cooked_value(after)),
{
    let s = seq![BACKSLASH, line_break] + encode_utf8(blank) + after;
    assert(before + seq![BACKSLASH, line_break] + encode_utf8(blank) + after =~= before + s);
    lemma_plain_prefix(before, s);
    assert(s.skip(1).skip(1) =~= encode_utf8(blank) + after);
    lemma_trim_whitespace(blank, after);
    assert(escape(s.skip(1)) == Ok::<_, ErrorKind>((Seq::<u8>::empty(), after)));
    lemma_prepend_nothing(cooked_value(after));
}

} // verus!

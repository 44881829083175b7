//! From the text of a string literal to the bytes that it denotes.

use crate::bytes::{
    all_pounds, all_pounds_spec, position, rposition, tail, APOSTROPHE, BACKSLASH, CLOSE_BRACE, CR,
    DIGIT_ZERO, LF, LOWER_N, LOWER_R, LOWER_T, LOWER_U, LOWER_X, NUL, QUOTE, TAB,
};
use crate::error::ErrorKind;
use crate::escape::{backslash_u, backslash_x, hex_escape, push_utf8, unicode_escape};
use crate::token::Literal;
use crate::whitespace::{lemma_trim_start_len, skip_whitespace, trim_start};
use vstd::prelude::*;
use vstd::slice::{slice_subrange, slice_to_vec};
use vstd::utf8::encode_scalar;

verus! {

/// The outcome of decoding, over the decoded bytes as a sequence.
pub type Decoded = Result<Seq<u8>, ErrorKind>;

/// What a function that decodes returned, with the bytes as a sequence.
pub open spec fn decoded(r: Result<Vec<u8>, ErrorKind>) -> Decoded {
    match r {
        Ok(bytes) => Ok(bytes@),
        Err(e) => Err(e),
    }
}

/// `rest` with `bytes` put before what it decoded to; an error stays as it is.
pub open spec fn prepend(bytes: Seq<u8>, rest: Decoded) -> Decoded {
    match rest {
        Ok(more) => Ok(bytes + more),
        Err(e) => Err(e),
    }
}

/// What the escape that starts behind a backslash denotes, `s` being the text behind
/// that backslash: the bytes that it stands for, and the text that follows it.
pub open spec fn escape(s: Seq<u8>) -> Result<(Seq<u8>, Seq<u8>), ErrorKind> {
    if s.len() == 0 {
        Err(ErrorKind::UnknownEscape)
    } else if s[0] == LOWER_X {
        match hex_escape(s.skip(1)) {
            Some(b) => Ok((seq![b], s.skip(3))),
            None => Err(ErrorKind::InvalidHexEscape),
        }
    } else if s[0] == LOWER_U {
        match unicode_escape(s.skip(1)) {
            Some((c, n)) => Ok((encode_scalar(c as u32), s.skip(1 + n))),
            None => Err(ErrorKind::InvalidUnicodeEscape),
        }
    } else if s[0] == LOWER_N {
        Ok((seq![LF], s.skip(1)))
    } else if s[0] == LOWER_R {
        Ok((seq![CR], s.skip(1)))
    } else if s[0] == LOWER_T {
        Ok((seq![TAB], s.skip(1)))
    } else if s[0] == DIGIT_ZERO {
        Ok((seq![NUL], s.skip(1)))
    } else if s[0] == BACKSLASH || s[0] == QUOTE || s[0] == APOSTROPHE {
        Ok((seq![s[0]], s.skip(1)))
    } else if s[0] == CR || s[0] == LF {
        Ok((Seq::empty(), trim_start(s.skip(1))))
    } else {
        Err(ErrorKind::UnknownEscape)
    }
}

/// An escape takes at least one byte of the text behind its backslash, and no more
/// than there is.
pub proof fn lemma_escape_shortens(s: Seq<u8>)
    ensures
        escape(s) matches Ok((_, rest)) ==> rest.len() < s.len(),
{
    if s.len() > 0 {
        if s[0] == LOWER_U && s.len() >= 2 {
            s.skip(2).index_of_first_ensures(CLOSE_BRACE);
            assert(s.skip(1).skip(1) =~= s.skip(2));
        } else if s[0] == CR || s[0] == LF {
            lemma_trim_start_len(s.skip(1));
        }
    }
}

/// What the content of a cooked string denotes, `s` being the text between its quotes:
/// each escape gives what it stands for, a carriage return with its line feed gives the
/// line feed, and every other byte gives itself. The first error in the text is the
/// outcome.
pub open spec fn cooked_value(s: Seq<u8>) -> Decoded
    decreases s.len(),
    via cooked_value_decreases
{
    if s.len() == 0 {
        Ok(Seq::empty())
    } else if s[0] == BACKSLASH {
        match escape(s.skip(1)) {
            Ok((bytes, rest)) => prepend(bytes, cooked_value(rest)),
            Err(e) => Err(e),
        }
    } else if s[0] == CR {
        if s.len() >= 2 && s[1] == LF {
            prepend(seq![LF], cooked_value(s.skip(2)))
        } else {
            Err(ErrorKind::BareCarriageReturn)
        }
    } else {
        prepend(seq![s[0]], cooked_value(s.skip(1)))
    }
}

#[via_fn]
proof fn cooked_value_decreases(s: Seq<u8>) {
    if s.len() > 0 && s[0] == BACKSLASH {
        lemma_escape_shortens(s.skip(1));
    }
}

/// What a cooked string literal denotes, `text` being the literal as written: the
/// content lies between the first byte and the last quote.
pub open spec fn cooked_literal(text: Seq<u8>) -> Decoded {
    match text.index_of_last(QUOTE) {
        Some(close) => if close >= 1 {
            cooked_value(text.subrange(1, close))
        } else {
            Err(ErrorKind::MissingQuote)
        },
        None => Err(ErrorKind::MissingQuote),
    }
}

/// What a raw string literal denotes, `s` being the text behind its `r`: the bytes
/// between the first quote and the last, where nothing but `#` stands before the
/// first quote and as many `#` follow the last one. What stands behind those, the
/// suffix of a literal, is not read.
pub open spec fn raw_value(s: Seq<u8>) -> Decoded {
    match (s.index_of_first(QUOTE), s.index_of_last(QUOTE)) {
        (Some(open), Some(close)) => if open == close {
            Err(ErrorKind::MissingQuote)
        } else if all_pounds_spec(s.subrange(0, open)) && close + 1 + open <= s.len()
            && all_pounds_spec(s.subrange(close + 1, close + 1 + open)) {
            Ok(s.subrange(open + 1, close))
        } else {
            Err(ErrorKind::UnbalancedPounds)
        },
        _ => Err(ErrorKind::MissingQuote),
    }
}

/// Whether `text` starts as a string literal does, cooked or raw.
pub open spec fn is_string_literal(text: Seq<u8>) -> bool {
    text.len() > 0 && (text[0] == QUOTE || text[0] == LOWER_R)
}

/// What the literal written as `text` denotes.
pub open spec fn literal_value(text: Seq<u8>) -> Decoded {
    if text.len() > 0 && text[0] == QUOTE {
        cooked_literal(text)
    } else if text.len() > 0 && text[0] == LOWER_R {
        raw_value(text.skip(1))
    } else {
        Err(ErrorKind::ExpectedStringLiteral)
    }
}

/// Tells whether `text` starts as a string literal does, cooked or raw.
pub fn starts_string_literal(text: &[u8]) -> (r: bool)
    ensures
        r == is_string_literal(text@),
{
    text.len() > 0 && (text[0] == QUOTE || text[0] == LOWER_R)
}

/// Decodes a literal token: a cooked string where its text starts with a quote, a raw
/// string where it starts with `r`, and no string literal otherwise.
pub fn parse_literal(literal: &Literal) -> (r: Result<Vec<u8>, ErrorKind>)
    ensures
        decoded(r) == literal_value(literal@.text),
{
    let s = literal.text.as_slice();
    if s.len() == 0 {
        Err(ErrorKind::ExpectedStringLiteral)
    } else if s[0] == QUOTE {
        parse_cooked_content(s)
    } else if s[0] == LOWER_R {
        parse_raw_content(tail(s, 1))
    } else {
        Err(ErrorKind::ExpectedStringLiteral)
    }
}

/// Decodes a raw string literal, given the text behind its `r`.
pub fn parse_raw_content(s: &[u8]) -> (r: Result<Vec<u8>, ErrorKind>)
    ensures
        decoded(r) == raw_value(s@),
{
    let (open, close) = match (position(s, QUOTE), rposition(s, QUOTE)) {
        (Some(open), Some(close)) => (open, close),
        _ => {
            return Err(ErrorKind::MissingQuote);
        },
    };
    proof {
        s@.index_of_first_ensures(QUOTE);
        s@.index_of_last_ensures(QUOTE);
    }
    if open == close {
        return Err(ErrorKind::MissingQuote);
    }
    if s.len() - 1 - close < open {
        return Err(ErrorKind::UnbalancedPounds);
    }
    if !all_pounds(slice_subrange(s, 0, open)) {
        return Err(ErrorKind::UnbalancedPounds);
    }
    if !all_pounds(slice_subrange(s, close + 1, close + 1 + open)) {
        return Err(ErrorKind::UnbalancedPounds);
    }
    Ok(slice_to_vec(slice_subrange(s, open + 1, close)))
}

/// Decodes a cooked string literal, given the literal as written, quotes included.
pub fn parse_cooked_content(s: &[u8]) -> (r: Result<Vec<u8>, ErrorKind>)
    ensures
        decoded(r) == cooked_literal(s@),
{
    let close = match rposition(s, QUOTE) {
        Some(close) => close,
        None => {
            return Err(ErrorKind::MissingQuote);
        },
    };
    if close < 1 {
        return Err(ErrorKind::MissingQuote);
    }
    let content = slice_subrange(s, 1, close);
    let mut rest = content;
    let mut result: Vec<u8> = Vec::new();
    assert(prepend(result@, cooked_value(rest@)) == cooked_value(content@)) by {
        lemma_prepend_nothing(cooked_value(rest@));
    }
    while rest.len() > 0
        invariant
            cooked_literal(s@) == cooked_value(content@),
            prepend(result@, cooked_value(rest@)) == cooked_value(content@),
        decreases rest@.len(),
    {
        let ghost before = result@;
        let ghost text = rest@;
        let first = rest[0];
        if first == CR {
            if rest.len() < 2 || rest[1] != LF {
                return Err(ErrorKind::BareCarriageReturn);
            }
            result.push(LF);
            rest = tail(rest, 2);
            proof {
                assert(result@ =~= before + seq![LF]);
                lemma_prepend_twice(before, seq![LF], cooked_value(rest@));
            }
        } else if first != BACKSLASH {
            result.push(first);
            rest = tail(rest, 1);
            proof {
                assert(result@ =~= before + seq![first]);
                lemma_prepend_twice(before, seq![first], cooked_value(rest@));
            }
        } else {
            let after = tail(rest, 1);
            proof {
                lemma_escape_shortens(after@);
            }
            if after.len() == 0 {
                return Err(ErrorKind::UnknownEscape);
            }
            let selector = after[0];
            let operand = tail(after, 1);
            if selector == LOWER_X {
                match backslash_x(operand) {
                    Ok((b, behind)) => {
                        result.push(b);
                        rest = behind;
                        proof {
                            assert(after@.skip(1).skip(2) =~= after@.skip(3));
                            assert(result@ =~= before + seq![b]);
                lemma_prepend_twice(before, seq![b], cooked_value(rest@));
                        }
                    },
                    Err(e) => {
                        return Err(e);
                    },
                }
            } else if selector == LOWER_U {
                match backslash_u(operand) {
                    Ok((c, behind)) => {
                        push_utf8(&mut result, c);
                        rest = behind;
                        proof {
                            let n = unicode_escape(operand@).unwrap().1;
                            operand@.skip(1).index_of_first_ensures(CLOSE_BRACE);
                            assert(after@.skip(1).skip(n) =~= after@.skip(1 + n));
                            lemma_prepend_twice(
                                before,
                                encode_scalar(c as u32),
                                cooked_value(rest@),
                            );
                        }
                    },
                    Err(e) => {
                        return Err(e);
                    },
                }
            } else if selector == CR || selector == LF {
                rest = skip_whitespace(operand);
                proof {
                    lemma_prepend_twice(before, Seq::empty(), cooked_value(rest@));
                    assert(before + Seq::<u8>::empty() =~= before);
                }
            } else {
                let b = if selector == LOWER_N {
                    LF
                } else if selector == LOWER_R {
                    CR
                } else if selector == LOWER_T {
                    TAB
                } else if selector == DIGIT_ZERO {
                    NUL
                } else if selector == BACKSLASH || selector == QUOTE || selector == APOSTROPHE {
                    selector
                } else {
                    return Err(ErrorKind::UnknownEscape);
                };
                result.push(b);
                rest = operand;
                proof {
                    assert(result@ =~= before + seq![b]);
                lemma_prepend_twice(before, seq![b], cooked_value(rest@));
                }
            }
        }
    }
    proof {
        assert(result@ + Seq::<u8>::empty() =~= result@);
    }
    Ok(result)
}

/// Putting nothing before an outcome leaves it as it is.
pub proof fn lemma_prepend_nothing(rest: Decoded)
    ensures
        prepend(Seq::empty(), rest) == rest,
{
    if let Ok(more) = rest {
        assert(Seq::<u8>::empty() + more =~= more);
    }
}

/// Putting `b` before an outcome and then `a` before that puts `a + b` before it.
pub proof fn lemma_prepend_twice(a: Seq<u8>, b: Seq<u8>, rest: Decoded)
    ensures
        prepend(a, prepend(b, rest)) == prepend(a + b, rest),
{
    if let Ok(more) = rest {
        assert(a + (b + more) =~= (a + b) + more);
    }
}

} // verus!

//! What can go wrong, and where in the source it is reported.

use vstd::prelude::*;

verus! {

/// The reason for which an invocation is refused.
#[derive(Clone, Copy, Debug, PartialEq, Eq, Structural)]
pub enum ErrorKind {
    /// The token stream ended before any token was found.
    UnexpectedEnd,
    /// The token is no string literal, cooked or raw.
    ExpectedStringLiteral,
    /// A token follows the literal, or the group that holds it.
    UnexpectedToken,
    /// The literal has no closing quote.
    MissingQuote,
    /// The `#` marks round a raw string do not match.
    UnbalancedPounds,
    /// A carriage return that no line feed follows.
    BareCarriageReturn,
    /// A backslash before a byte that starts no escape, or at the very end.
    UnknownEscape,
    /// `\x` without two hexadecimal digits behind it.
    InvalidHexEscape,
    /// `\u` without braces that hold one to six hexadecimal digits of a scalar value.
    InvalidUnicodeEscape,
    /// The literal does not denote UTF-8, so it names no file.
    InvalidPath,
    /// The file holds a NUL byte.
    NulByte,
}

/// The place that a diagnostic points at.
#[derive(Clone, Copy, Debug, PartialEq, Eq, Structural)]
pub enum Location {
    /// The place of the invocation itself.
    CallSite,
    /// The token that carries this tag.
    Token(u64),
}

/// One refusal: where, and why.
#[derive(Clone, Copy, Debug, PartialEq, Eq, Structural)]
pub struct Diagnostic {
    pub location: Location,
    pub kind: ErrorKind,
}

impl ErrorKind {
    /// The text shown to the user for this kind of error.
    pub open spec fn message_spec(self) -> Seq<char> {
        match self {
            ErrorKind::UnexpectedEnd => "unexpected end of input, expected a string literal"@,
            ErrorKind::ExpectedStringLiteral => "expected a string literal"@,
            ErrorKind::UnexpectedToken => "unexpected token"@,
            ErrorKind::MissingQuote => "unterminated string literal"@,
            ErrorKind::UnbalancedPounds => "unbalanced `#` around a raw string literal"@,
            ErrorKind::BareCarriageReturn => "bare carriage return in a string literal"@,
            ErrorKind::UnknownEscape => "unknown escape in a string literal"@,
            ErrorKind::InvalidHexEscape => "invalid `\\x` escape in a string literal"@,
            ErrorKind::InvalidUnicodeEscape => "invalid `\\u` escape in a string literal"@,
            ErrorKind::InvalidPath => "the path is not valid UTF-8"@,
            ErrorKind::NulByte => "nul byte found in the file"@,
        }
    }

    /// The text shown to the user for this kind of error.
    pub fn message(&self) -> (r: &'static str)
        ensures
            r@ == self.message_spec(),
    {
        match self {
            ErrorKind::UnexpectedEnd => "unexpected end of input, expected a string literal",
            ErrorKind::ExpectedStringLiteral => "expected a string literal",
            ErrorKind::UnexpectedToken => "unexpected token",
            ErrorKind::MissingQuote => "unterminated string literal",
            ErrorKind::UnbalancedPounds => "unbalanced `#` around a raw string literal",
            ErrorKind::BareCarriageReturn => "bare carriage return in a string literal",
            ErrorKind::UnknownEscape => "unknown escape in a string literal",
            ErrorKind::InvalidHexEscape => "invalid `\\x` escape in a string literal",
            ErrorKind::InvalidUnicodeEscape => "invalid `\\u` escape in a string literal",
            ErrorKind::InvalidPath => "the path is not valid UTF-8",
            ErrorKind::NulByte => "nul byte found in the file",
        }
    }
}

impl Diagnostic {
    /// The text of this diagnostic.
    pub fn message(&self) -> (r: &'static str)
        ensures
            r@ == self.kind.message_spec(),
    {
        self.kind.message()
    }
}

} // verus!

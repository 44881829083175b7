//! The tokens of an invocation, and the choice of the one literal among them.

use crate::error::{Diagnostic, ErrorKind, Location};
use crate::parse::{is_string_literal, literal_value, parse_literal, starts_string_literal};
use vstd::prelude::*;

verus! {

/// A literal token: its text as written in the source, and the tag of its place there.
#[derive(Clone, Debug, PartialEq, Eq)]
pub struct Literal {
    pub text: Vec<u8>,
    pub tag: u64,
}

/// A literal token, with its text as a sequence.
pub struct LiteralView {
    pub text: Seq<u8>,
    pub tag: u64,
}

impl View for Literal {
    type V = LiteralView;

    open spec fn view(&self) -> LiteralView {
        LiteralView { text: self.text@, tag: self.tag }
    }
}

/// One token of a stream, as far as the choice of the literal reads it.
#[derive(Debug, PartialEq, Eq)]
pub enum Token {
    /// A group of tokens; a transparent one has no delimiter of its own.
    Group { transparent: bool, stream: Vec<Token>, tag: u64 },
    /// A literal of any sort.
    Literal(Literal),
    /// Any other token.
    Other { tag: u64 },
}

/// One token of a stream, with the streams and texts in it as sequences.
pub enum TokenView {
    Group { transparent: bool, stream: Seq<TokenView>, tag: u64 },
    Literal(LiteralView),
    Other { tag: u64 },
}

/// The view of a token: the streams and texts in it as sequences.
pub open spec fn token_view(token: Token) -> TokenView
    decreases token,
{
    match token {
        Token::Group { transparent, stream, tag } => TokenView::Group {
            transparent,
            stream: Seq::new(
                stream@.len(),
                |i: int|
                    if 0 <= i < stream@.len() {
                        token_view(stream@[i])
                    } else {
                        TokenView::Other { tag: 0 }
                    },
            ),
            tag,
        },
        Token::Literal(literal) => TokenView::Literal(literal@),
        Token::Other { tag } => TokenView::Other { tag },
    }
}

impl View for Token {
    type V = TokenView;

    open spec fn view(&self) -> TokenView {
        token_view(*self)
    }
}

/// A stream of tokens, each by its view.
pub open spec fn stream_view(tokens: Seq<Token>) -> Seq<TokenView> {
    Seq::new(tokens.len(), |i: int| tokens[i]@)
}

impl TokenView {
    /// The tag of the place of this token.
    pub open spec fn tag(self) -> u64 {
        match self {
            TokenView::Group { tag, .. } => tag,
            TokenView::Literal(literal) => literal.tag,
            TokenView::Other { tag } => tag,
        }
    }
}

impl Token {
    /// The tag of the place of this token.
    pub fn tag(&self) -> (r: u64)
        ensures
            r == self@.tag(),
    {
        match self {
            Token::Group { tag, .. } => *tag,
            Token::Literal(literal) => literal.tag,
            Token::Other { tag } => *tag,
        }
    }
}

/// The view of a group holds the view of its stream.
pub proof fn lemma_group_view(token: Token)
    requires
        token is Group,
    ensures
        token@ == (TokenView::Group {
            transparent: token->transparent,
            stream: stream_view(token->stream@),
            tag: token->Group_tag,
        }),
{
    assert(token@->Group_stream =~= stream_view(token->stream@));
}

/// The diagnostic of `kind` at the token tagged `tag`.
pub open spec fn at_token(tag: u64, kind: ErrorKind) -> Diagnostic {
    Diagnostic { location: Location::Token(tag), kind }
}

/// What a stream of tokens yields: the bytes that its one string literal denotes and
/// that literal, or the first fault found. Transparent groups round the literal are
/// entered, and nothing may stand beside the literal or beside such a group.
pub open spec fn input_value(tokens: Seq<TokenView>) -> Result<(Seq<u8>, LiteralView), Diagnostic>
    decreases tokens,
{
    if tokens.len() == 0 {
        Err(Diagnostic { location: Location::CallSite, kind: ErrorKind::UnexpectedEnd })
    } else {
        match tokens[0] {
            TokenView::Group { transparent, stream, tag } => if !transparent {
                Err(at_token(tag, ErrorKind::ExpectedStringLiteral))
            } else if tokens.len() > 1 {
                Err(at_token(tokens[1].tag(), ErrorKind::UnexpectedToken))
            } else {
                input_value(stream)
            },
            TokenView::Literal(literal) => if !is_string_literal(literal.text) {
                Err(at_token(literal.tag, ErrorKind::ExpectedStringLiteral))
            } else if tokens.len() > 1 {
                Err(at_token(tokens[1].tag(), ErrorKind::UnexpectedToken))
            } else {
                match literal_value(literal.text) {
                    Ok(bytes) => Ok((bytes, literal)),
                    Err(kind) => Err(at_token(literal.tag, kind)),
                }
            },
            TokenView::Other { tag } => Err(at_token(tag, ErrorKind::ExpectedStringLiteral)),
        }
    }
}

/// Finds the one string literal of an invocation and decodes it.
pub fn parse_input(input: Vec<Token>) -> (r: Result<(Vec<u8>, Literal), Diagnostic>)
    ensures
        match r {
            Ok((bytes, literal)) => input_value(stream_view(input@)) == Ok::<_, Diagnostic>(
                (bytes@, literal@),
            ),
            Err(diagnostic) => input_value(stream_view(input@)) == Err::<
                (Seq<u8>, LiteralView),
                _,
            >(diagnostic),
        },
        input@.len() == 0 ==> r == Err::<(Vec<u8>, Literal), _>(
            Diagnostic { location: Location::CallSite, kind: ErrorKind::UnexpectedEnd },
        ),
        input@.len() >= 2 && (input@[0] matches Token::Literal(first) && is_string_literal(
            first.text@,
        )) ==> r == Err::<(Vec<u8>, Literal), _>(
            at_token(input@[1]@.tag(), ErrorKind::UnexpectedToken),
        ),
{
    let mut tokens = input;
    loop
        invariant
            input_value(stream_view(tokens@)) == input_value(stream_view(input@)),
        decreases tokens,
    {
        if tokens.len() == 0 {
            return Err(
                Diagnostic { location: Location::CallSite, kind: ErrorKind::UnexpectedEnd },
            );
        }
        let first = tokens.remove(0);
        match first {
            Token::Group { transparent, stream, tag } => {
                if !transparent {
                    return Err(
                        Diagnostic {
                            location: Location::Token(tag),
                            kind: ErrorKind::ExpectedStringLiteral,
                        },
                    );
                }
                if tokens.len() > 0 {
                    return Err(
                        Diagnostic {
                            location: Location::Token(tokens[0].tag()),
                            kind: ErrorKind::UnexpectedToken,
                        },
                    );
                }
                proof {
                    lemma_group_view(first);
                }
                tokens = stream;
            },
            Token::Literal(literal) => {
                let location = Location::Token(literal.tag);
                if !starts_string_literal(literal.text.as_slice()) {
                    return Err(Diagnostic { location, kind: ErrorKind::ExpectedStringLiteral });
                }
                if tokens.len() > 0 {
                    return Err(
                        Diagnostic {
                            location: Location::Token(tokens[0].tag()),
                            kind: ErrorKind::UnexpectedToken,
                        },
                    );
                }
                return match parse_literal(&literal) {
                    Ok(bytes) => Ok((bytes, literal)),
                    Err(kind) => Err(Diagnostic { location, kind }),
                };
            },
            Token::Other { tag } => {
                return Err(
                    Diagnostic {
                        location: Location::Token(tag),
                        kind: ErrorKind::ExpectedStringLiteral,
                    },
                );
            },
        }
    }
}

} // verus!

//! The errors of the tokenizer and the parser.

use vstd::prelude::*;
use vstd::string::StringSliceAdditionalSpecFns;
use crate::lexer::Lexer;
use crate::span::Str;

verus! {

/// Why tokenizing or parsing stopped. Most kinds carry the span of the text
/// that caused them.
#[derive(Clone, Copy, Debug, PartialEq, Eq, Structural)]
pub enum Error {
    /// The input ended inside a production, a string or an escape.
    UnexpectedEof,
    /// A token of another kind was required here.
    UnexpectedToken(Str),
    /// An expression in statement position is neither a call nor assignable.
    UnexpectedExpression,
    /// A backslash in a string is followed by something that is no escape.
    InvalidEscapeSequence(Str),
    /// A number holds a second `.`.
    InvalidFloat(Str),
    /// A character that starts no token.
    InvalidToken(Str),
    /// A token that cannot start an expression.
    InvalidUnaryExpression(Str),
}

impl Error {
    /// The span that the error carries, if its kind carries one.
    pub open spec fn span(self) -> Option<Str> {
        match self {
            Error::UnexpectedEof | Error::UnexpectedExpression => None,
            Error::UnexpectedToken(s)
            | Error::InvalidEscapeSequence(s)
            | Error::InvalidFloat(s)
            | Error::InvalidToken(s)
            | Error::InvalidUnaryExpression(s) => Some(s),
        }
    }
}

impl Error {
    /// The text that the error's span denotes in the source of `lex`, for the
    /// kinds that carry a span.
    pub fn slice<'a>(&self, lex: &'a Lexer) -> (r: Option<&'a str>)
        requires
            self.span() matches Some(s) ==> lex.holds(s),
        ensures
            match self.span() {
                Some(s) => r matches Some(text) && text.spec_bytes() == lex.src().subrange(
                    s.start(),
                    s.end(),
                ),
                None => r is None,
            },
    {
        match self {
            Error::UnexpectedEof | Error::UnexpectedExpression => None,
            Error::UnexpectedToken(slice)
            | Error::InvalidEscapeSequence(slice)
            | Error::InvalidFloat(slice)
            | Error::InvalidToken(slice)
            | Error::InvalidUnaryExpression(slice) => Some(lex.slice(*slice)),
        }
    }
}

} // verus!

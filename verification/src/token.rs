//! Tokens: the lexical units that the tokenizer yields.

use vstd::prelude::*;
use crate::span::Str;

verus! {

/// A lexical unit: its kind and the span of its text in the source.
#[derive(Clone, Copy, Debug, PartialEq, Eq, Structural)]
pub struct Token {
    pub kind: TokenType,
    pub slice: Str,
}

impl Token {
    /// The token of kind `kind` over `slice`.
    pub fn new(kind: TokenType, slice: Str) -> (r: Self)
        ensures
            r == (Token { kind, slice }),
    {
        Self { kind, slice }
    }
}

/// The kinds of tokens.
///
/// `KwPub` and `KwSelf` are reserved: the grammar knows them, but the keyword
/// table maps no text to them.
#[derive(Clone, Copy, Debug, PartialEq, Eq, Structural)]
pub enum TokenType {
    // Brackets
    LeftParen,
    RightParen,
    LeftBracket,
    RightBracket,
    LeftBrace,
    RightBrace,
    // Punctuation
    Colon,
    Semicolon,
    At,
    Hashtag,
    Dot,
    DotDot,
    DotDotDot,
    Arrow,
    Comma,
    // Operators
    Bang,
    And,
    Pipe,
    Caret,
    Plus,
    Minus,
    Star,
    Slash,
    Percent,
    Equal,
    Less,
    Greater,
    // Combined
    BangEqual,
    AndEqual,
    PipeEqual,
    CaretEqual,
    PlusEqual,
    MinusEqual,
    StarEqual,
    SlashEqual,
    PercentEqual,
    EqualEqual,
    LessEqual,
    GreaterEqual,
    LessLess,
    GreaterGreater,
    // Literals
    Integer,
    Float,
    String,
    Identifier,
    // Keywords
    KwModule,
    KwImport,
    KwPub,
    KwSelf,
    KwTrait,
    KwStruct,
    KwEnum,
    KwImpl,
    KwFun,
    KwConst,
    KwVar,
    KwIf,
    KwElse,
    KwElseif,
    KwFor,
    KwWhile,
    KwIn,
    KwReturn,
    KwContinue,
    KwBreak,
    KwAnd,
    KwOr,
}

impl TokenType {
    /// The kinds that may stand before an operand as a prefix operator.
    pub open spec fn unary(self) -> bool {
        self == TokenType::Bang || self == TokenType::And || self == TokenType::Plus || self
            == TokenType::Minus || self == TokenType::Star
    }

    /// The binding strength of a binary operator, from 1 (`or`, loosest) to
    /// 10 (`*`, `/`, `%`, tightest); 0 for every other kind, which is no
    /// binary operator.
    pub open spec fn level(self) -> nat {
        match self {
            TokenType::KwOr => 1,
            TokenType::KwAnd => 2,
            TokenType::Pipe => 3,
            TokenType::Caret => 4,
            TokenType::And => 5,
            TokenType::EqualEqual | TokenType::BangEqual => 6,
            TokenType::Less
            | TokenType::Greater
            | TokenType::LessEqual
            | TokenType::GreaterEqual => 7,
            TokenType::LessLess | TokenType::GreaterGreater => 8,
            TokenType::Plus | TokenType::Minus => 9,
            TokenType::Star | TokenType::Slash | TokenType::Percent => 10,
            _ => 0,
        }
    }

    /// The kinds that have a binding strength.
    pub open spec fn ranked(self) -> bool {
        self.level() > 0
    }

    /// The kinds that may stand between two operands: the eighteen that
    /// have a binding strength.
    pub open spec fn binary(self) -> bool {
        self.ranked()
    }

    /// Whether a token of this kind may stand before an operand.
    pub fn is_unary_op(&self) -> (r: bool)
        ensures
            r == self.unary(),
    {
        match self {
            TokenType::Bang
            | TokenType::And
            | TokenType::Plus
            | TokenType::Minus
            | TokenType::Star => true,
            _ => false,
        }
    }

    /// Whether a token of this kind may stand between two operands.
    pub fn is_binary_op(&self) -> (r: bool)
        ensures
            r == self.binary(),
    {
        match self {
            TokenType::And
            | TokenType::Pipe
            | TokenType::Caret
            | TokenType::Plus
            | TokenType::Minus
            | TokenType::Star
            | TokenType::Slash
            | TokenType::Percent
            | TokenType::Less
            | TokenType::Greater
            | TokenType::BangEqual
            | TokenType::EqualEqual
            | TokenType::LessEqual
            | TokenType::GreaterEqual
            | TokenType::LessLess
            | TokenType::GreaterGreater
            | TokenType::KwAnd
            | TokenType::KwOr => true,
            _ => false,
        }
    }

    /// The binding strength of this operator. Only binary operators have
    /// one.
    pub fn precedence(&self) -> (r: usize)
        requires
            self.ranked(),
        ensures
            r == self.level(),
    {
        match self {
            TokenType::KwOr => 1,
            TokenType::KwAnd => 2,
            TokenType::Pipe => 3,
            TokenType::Caret => 4,
            TokenType::And => 5,
            TokenType::EqualEqual | TokenType::BangEqual => 6,
            TokenType::Less
            | TokenType::Greater
            | TokenType::LessEqual
            | TokenType::GreaterEqual => 7,
            TokenType::LessLess | TokenType::GreaterGreater => 8,
            TokenType::Plus | TokenType::Minus => 9,
            _ => 10,
        }
    }
}

} // verus!

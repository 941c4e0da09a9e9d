//! What the tokenizer yields, as functions of the source bytes.
//!
//! `lex_at` says which token starts at or behind a byte offset, `tokens_from`
//! collects the tokens from an offset to the end of the input or to the first
//! lexical error. The executable tokenizer is proved against `lex_at`, the
//! parser against the stream that `tokens_from` describes.

use vstd::prelude::*;
use vstd::string::StringSliceAdditionalSpecFns;
use vstd::utf8::is_char_boundary;
use crate::error::Error;
use crate::span::Str;
use crate::text::{char_at, is_digit, is_hex_digit, is_space, is_word_part, is_word_start, utf8_len};
use crate::token::{Token, TokenType};

verus! {

/// Whether `slice` denotes text of `src`: it starts and ends on character
/// boundaries of the buffer.
pub open spec fn spans_text(src: Seq<u8>, slice: Str) -> bool {
    &&& is_char_boundary(src, slice.start())
    &&& is_char_boundary(src, slice.end())
}

/// How many bytes lie at or behind offset `i`.
pub open spec fn left(src: Seq<u8>, i: int) -> nat {
    if i < src.len() {
        (src.len() - i) as nat
    } else {
        0
    }
}

/// The outcome of reading one token, with the offset at which the cursor
/// comes to rest.
pub enum LexStep {
    /// A token, and the offset behind its last byte.
    Token(Token, int),
    /// Nothing but whitespace and comments was left.
    End(int),
    /// A lexical error.
    Error(Error, int),
}

/// The first offset at or behind `i` at which no whitespace stands.
pub open spec fn space_end(src: Seq<u8>, i: int) -> int
    decreases left(src, i),
{
    match char_at(src, i) {
        Some(c) => if is_space(c) {
            space_end(src, i + utf8_len(c))
        } else {
            i
        },
        None => i,
    }
}

/// The first offset at or behind `i` at which a line feed stands or the
/// input ends.
pub open spec fn line_end(src: Seq<u8>, i: int) -> int
    decreases left(src, i),
{
    match char_at(src, i) {
        Some(c) => if c == '\n' {
            i
        } else {
            line_end(src, i + utf8_len(c))
        },
        None => i,
    }
}

/// The first offset at or behind `i` at which no identifier character
/// stands.
pub open spec fn word_end(src: Seq<u8>, i: int) -> int
    decreases left(src, i),
{
    match char_at(src, i) {
        Some(c) => if is_word_part(c) {
            word_end(src, i + 1)
        } else {
            i
        },
        None => i,
    }
}

/// The keyword table: the kind of the keyword that `word` spells, if it
/// spells one.
pub open spec fn keyword(word: Seq<u8>) -> Option<TokenType> {
    if word == "module".spec_bytes() {
        Some(TokenType::KwModule)
    } else if word == "import".spec_bytes() {
        Some(TokenType::KwImport)
    } else if word == "trait".spec_bytes() {
        Some(TokenType::KwTrait)
    } else if word == "struct".spec_bytes() {
        Some(TokenType::KwStruct)
    } else if word == "enum".spec_bytes() {
        Some(TokenType::KwEnum)
    } else if word == "impl".spec_bytes() {
        Some(TokenType::KwImpl)
    } else if word == "fun".spec_bytes() {
        Some(TokenType::KwFun)
    } else if word == "const".spec_bytes() {
        Some(TokenType::KwConst)
    } else if word == "var".spec_bytes() {
        Some(TokenType::KwVar)
    } else if word == "if".spec_bytes() {
        Some(TokenType::KwIf)
    } else if word == "else".spec_bytes() {
        Some(TokenType::KwElse)
    } else if word == "elseif".spec_bytes() {
        Some(TokenType::KwElseif)
    } else if word == "for".spec_bytes() {
        Some(TokenType::KwFor)
    } else if word == "while".spec_bytes() {
        Some(TokenType::KwWhile)
    } else if word == "in".spec_bytes() {
        Some(TokenType::KwIn)
    } else if word == "return".spec_bytes() {
        Some(TokenType::KwReturn)
    } else if word == "continue".spec_bytes() {
        Some(TokenType::KwContinue)
    } else if word == "break".spec_bytes() {
        Some(TokenType::KwBreak)
    } else if word == "and".spec_bytes() {
        Some(TokenType::KwAnd)
    } else if word == "or".spec_bytes() {
        Some(TokenType::KwOr)
    } else {
        None
    }
}

/// The kind of the word `word`: a keyword's, or `Identifier`.
pub open spec fn word_kind(word: Seq<u8>) -> TokenType {
    match keyword(word) {
        Some(kind) => kind,
        None => TokenType::Identifier,
    }
}

/// The kind of a token that is one bracket or punctuation character.
pub open spec fn punct_kind(c: char) -> Option<TokenType> {
    if c == '(' {
        Some(TokenType::LeftParen)
    } else if c == ')' {
        Some(TokenType::RightParen)
    } else if c == '[' {
        Some(TokenType::LeftBracket)
    } else if c == ']' {
        Some(TokenType::RightBracket)
    } else if c == '{' {
        Some(TokenType::LeftBrace)
    } else if c == '}' {
        Some(TokenType::RightBrace)
    } else if c == ':' {
        Some(TokenType::Colon)
    } else if c == ';' {
        Some(TokenType::Semicolon)
    } else if c == '@' {
        Some(TokenType::At)
    } else if c == '#' {
        Some(TokenType::Hashtag)
    } else if c == ',' {
        Some(TokenType::Comma)
    } else {
        None
    }
}

/// The kind of the operator that starts with `c`, given the character `next`
/// that follows it, and whether `next` belongs to the operator. `None` where
/// `c` starts no operator.
pub open spec fn op_kind(c: char, next: Option<char>) -> Option<(TokenType, bool)> {
    let eq = next == Some('=');
    if c == '!' {
        Some(if eq { (TokenType::BangEqual, true) } else { (TokenType::Bang, false) })
    } else if c == '&' {
        Some(if eq { (TokenType::AndEqual, true) } else { (TokenType::And, false) })
    } else if c == '|' {
        Some(if eq { (TokenType::PipeEqual, true) } else { (TokenType::Pipe, false) })
    } else if c == '^' {
        Some(if eq { (TokenType::CaretEqual, true) } else { (TokenType::Caret, false) })
    } else if c == '+' {
        Some(if eq { (TokenType::PlusEqual, true) } else { (TokenType::Plus, false) })
    } else if c == '-' {
        Some(
            if eq {
                (TokenType::MinusEqual, true)
            } else if next == Some('>') {
                (TokenType::Arrow, true)
            } else {
                (TokenType::Minus, false)
            },
        )
    } else if c == '*' {
        Some(if eq { (TokenType::StarEqual, true) } else { (TokenType::Star, false) })
    } else if c == '/' {
        Some(if eq { (TokenType::SlashEqual, true) } else { (TokenType::Slash, false) })
    } else if c == '%' {
        Some(if eq { (TokenType::PercentEqual, true) } else { (TokenType::Percent, false) })
    } else if c == '=' {
        Some(if eq { (TokenType::EqualEqual, true) } else { (TokenType::Equal, false) })
    } else if c == '<' {
        Some(
            if eq {
                (TokenType::LessEqual, true)
            } else if next == Some('<') {
                (TokenType::LessLess, true)
            } else {
                (TokenType::Less, false)
            },
        )
    } else if c == '>' {
        Some(
            if eq {
                (TokenType::GreaterEqual, true)
            } else if next == Some('>') {
                (TokenType::GreaterGreater, true)
            } else {
                (TokenType::Greater, false)
            },
        )
    } else {
        None
    }
}

/// A token of kind `kind` over `from..to`, with the cursor behind it.
pub open spec fn token(kind: TokenType, from: int, to: int) -> LexStep {
    LexStep::Token(Token { kind, slice: Str::between(from, to) }, to)
}

/// The rest of a number that starts at `start` and has been read up to `i`;
/// `float` says whether a `.` has been read. A maximal run of digits with
/// at most one `.` is a number; a second `.` is an error.
pub open spec fn number_end(src: Seq<u8>, start: int, i: int, float: bool) -> LexStep
    decreases left(src, i),
{
    let done = token(if float { TokenType::Float } else { TokenType::Integer }, start, i);
    match char_at(src, i) {
        Some(c) => if c == '.' {
            if float {
                LexStep::Error(Error::InvalidFloat(Str::between(start, i + 1)), i + 1)
            } else {
                number_end(src, start, i + 1, true)
            }
        } else if is_digit(c) {
            number_end(src, start, i + 1, float)
        } else {
            done
        },
        None => done,
    }
}

/// The escapes of one character behind the backslash.
pub open spec fn is_simple_escape(c: char) -> bool {
    c == '"' || c == '\\' || c == 'n' || c == 't' || c == 'r'
}

/// What is wrong with the escape `\\xHH` whose backslash stands at `i`, and
/// where the cursor comes to rest: two hexadecimal digits must follow the
/// `x`. `None` where they do.
pub open spec fn hex_escape_error(src: Seq<u8>, i: int) -> Option<(Error, int)> {
    match char_at(src, i + 2) {
        None => Some((Error::UnexpectedEof, i + 2)),
        Some(h) => {
            let j = i + 2 + utf8_len(h);
            if !is_hex_digit(h) {
                Some((Error::InvalidEscapeSequence(Str::between(i, j)), j))
            } else {
                match char_at(src, j) {
                    None => Some((Error::UnexpectedEof, j)),
                    Some(l) => {
                        let k = j + utf8_len(l);
                        if !is_hex_digit(l) {
                            Some((Error::InvalidEscapeSequence(Str::between(i, k)), k))
                        } else {
                            None
                        }
                    },
                }
            }
        },
    }
}

/// The rest of a string literal whose opening quote stands at `start` and
/// that has been read up to `i`.
pub open spec fn string_end(src: Seq<u8>, start: int, i: int) -> LexStep
    decreases left(src, i),
{
    match char_at(src, i) {
        None => LexStep::Error(Error::UnexpectedEof, i),
        Some(c) => if c == '\\' {
            match char_at(src, i + 1) {
                None => LexStep::Error(Error::UnexpectedEof, i + 1),
                Some(e) => if is_simple_escape(e) {
                    string_end(src, start, i + 2)
                } else if e == 'x' {
                    match hex_escape_error(src, i) {
                        Some((err, at)) => LexStep::Error(err, at),
                        None => string_end(src, start, i + 4),
                    }
                } else {
                    LexStep::Error(Error::InvalidEscapeSequence(Str::between(i, i + 1)), i + 1)
                },
            }
        } else if c == '"' {
            token(TokenType::String, start, i + 1)
        } else {
            string_end(src, start, i + utf8_len(c))
        },
    }
}

/// The token that starts with `.` at `p`: one, two or three dots, or a
/// number that begins with its fraction.
pub open spec fn dot_at(src: Seq<u8>, p: int) -> LexStep {
    match char_at(src, p + 1) {
        Some(d) => if d == '.' {
            if char_at(src, p + 2) == Some('.') {
                token(TokenType::DotDotDot, p, p + 3)
            } else {
                token(TokenType::DotDot, p, p + 2)
            }
        } else if is_digit(d) {
            number_end(src, p, p + 1, true)
        } else {
            token(TokenType::Dot, p, p + 1)
        },
        None => token(TokenType::Dot, p, p + 1),
    }
}

/// The token that starts at `p` with the character `c`, which is neither
/// whitespace nor the start of a comment.
#[verifier::opaque]
pub open spec fn token_at(src: Seq<u8>, p: int, c: char) -> LexStep {
    let q = p + utf8_len(c);
    if punct_kind(c) is Some {
        token(punct_kind(c).unwrap(), p, q)
    } else if op_kind(c, char_at(src, q)) is Some {
        let (kind, two) = op_kind(c, char_at(src, q)).unwrap();
        token(kind, p, if two { q + 1 } else { q })
    } else if c == '.' {
        dot_at(src, p)
    } else if is_digit(c) {
        number_end(src, p, q, false)
    } else if c == '"' {
        string_end(src, p, q)
    } else if is_word_start(c) {
        let e = word_end(src, q);
        token(word_kind(src.subrange(p, e)), p, e)
    } else {
        LexStep::Error(Error::InvalidToken(Str::between(p, q)), q)
    }
}

/// Whether a line comment starts at `p`.
pub open spec fn comment_at(src: Seq<u8>, p: int) -> bool {
    char_at(src, p) == Some('/') && char_at(src, p + 1) == Some('/')
}

/// The next token at or behind `i`: whitespace and line comments are passed
/// over, then one token is read.
pub open spec fn lex_at(src: Seq<u8>, i: int) -> LexStep
    decreases left(src, i),
    via lex_at_decreases
{
    let p = space_end(src, i);
    match char_at(src, p) {
        None => LexStep::End(p),
        Some(c) => if comment_at(src, p) {
            lex_at(src, line_end(src, p + 2))
        } else {
            token_at(src, p, c)
        },
    }
}

#[via_fn]
proof fn lex_at_decreases(src: Seq<u8>, i: int) {
    lemma_space_end_ge(src, i);
    lemma_line_end_ge(src, space_end(src, i) + 2);
}

/// Passing over whitespace never moves the cursor back.
pub proof fn lemma_space_end_ge(src: Seq<u8>, i: int)
    ensures
        space_end(src, i) >= i,
    decreases left(src, i),
{
    match char_at(src, i) {
        Some(c) => if is_space(c) {
            lemma_space_end_ge(src, i + utf8_len(c));
        },
        None => {},
    }
}

/// Passing over a line never moves the cursor back.
pub proof fn lemma_line_end_ge(src: Seq<u8>, i: int)
    ensures
        line_end(src, i) >= i,
    decreases left(src, i),
{
    match char_at(src, i) {
        Some(c) => if c != '\n' {
            lemma_line_end_ge(src, i + utf8_len(c));
        },
        None => {},
    }
}

/// Passing over a word never moves the cursor back.
pub proof fn lemma_word_end_ge(src: Seq<u8>, i: int)
    ensures
        word_end(src, i) >= i,
    decreases left(src, i),
{
    match char_at(src, i) {
        Some(c) => if is_word_part(c) {
            lemma_word_end_ge(src, i + 1);
        },
        None => {},
    }
}

/// The offset at which a step leaves the cursor.
pub open spec fn rest_of(step: LexStep) -> int {
    match step {
        LexStep::Token(_, e) => e,
        LexStep::End(e) => e,
        LexStep::Error(_, e) => e,
    }
}

/// Reading a number yields a token or an error, and never moves the cursor
/// back.
pub proof fn lemma_number_end_ge(src: Seq<u8>, start: int, i: int, float: bool)
    ensures
        rest_of(number_end(src, start, i, float)) >= i,
        !(number_end(src, start, i, float) is End),
    decreases left(src, i),
{
    match char_at(src, i) {
        Some(c) => if c == '.' {
            if !float {
                lemma_number_end_ge(src, start, i + 1, true);
            }
        } else if is_digit(c) {
            lemma_number_end_ge(src, start, i + 1, float);
        },
        None => {},
    }
}

/// Reading a string yields a token or an error, and never moves the cursor
/// back.
pub proof fn lemma_string_end_ge(src: Seq<u8>, start: int, i: int)
    ensures
        rest_of(string_end(src, start, i)) >= i,
        !(string_end(src, start, i) is End),
    decreases left(src, i),
{
    match char_at(src, i) {
        None => {},
        Some(c) => if c == '\\' {
            match char_at(src, i + 1) {
                None => {},
                Some(e) => if is_simple_escape(e) {
                    lemma_string_end_ge(src, start, i + 2);
                } else if e == 'x' {
                    if hex_escape_error(src, i) is None {
                        lemma_string_end_ge(src, start, i + 4);
                    }
                },
            }
        } else if c != '"' {
            lemma_string_end_ge(src, start, i + utf8_len(c));
        },
    }
}

/// A step that yields a token or an error moves the cursor forward, and a
/// step ends the input only where nothing but whitespace and comments is
/// left.
pub proof fn lemma_lex_at_advances(src: Seq<u8>, i: int)
    ensures
        rest_of(lex_at(src, i)) >= i,
        !(lex_at(src, i) is End) ==> rest_of(lex_at(src, i)) > i && i < src.len(),
        lex_at(src, i) is End ==> char_at(src, rest_of(lex_at(src, i))) is None,
    decreases left(src, i),
{
    let p = space_end(src, i);
    lemma_space_end_ge(src, i);
    match char_at(src, p) {
        None => {},
        Some(c) => {
            if comment_at(src, p) {
                lemma_line_end_ge(src, p + 2);
                lemma_lex_at_advances(src, line_end(src, p + 2));
            } else {
                let q = p + utf8_len(c);
                reveal(token_at);
                lemma_number_end_ge(src, p, q, false);
                lemma_number_end_ge(src, p, p + 1, true);
                lemma_string_end_ge(src, p, q);
                lemma_word_end_ge(src, q);
            }
        },
    }
}

/// Where the input has ended, it has ended for good.
pub proof fn lemma_lex_at_end(src: Seq<u8>, i: int)
    ensures
        lex_at(src, i) is End ==> lex_at(src, rest_of(lex_at(src, i))) == lex_at(src, i),
{
    lemma_lex_at_advances(src, i);
}

/// What the tokenizer yields from some offset on: the tokens in order, and
/// the lexical error that stopped it, if one did.
pub struct Stream {
    pub toks: Seq<Token>,
    pub fail: Option<Error>,
}

impl Stream {
    /// The stream that yields `t` and then goes on as `s`.
    pub open spec fn cons(t: Token, s: Stream) -> Stream {
        Stream { toks: seq![t] + s.toks, fail: s.fail }
    }

    /// The stream behind the first `n` tokens; behind all of them, where
    /// there are fewer.
    pub open spec fn skip(self, n: nat) -> Stream {
        Stream {
            toks: if n <= self.toks.len() {
                self.toks.subrange(n as int, self.toks.len() as int)
            } else {
                Seq::empty()
            },
            fail: self.fail,
        }
    }

    /// The error of reading past the last token: the lexical error that ended
    /// the stream, or `UnexpectedEof` at the end of the input.
    pub open spec fn past_end(self) -> Error {
        match self.fail {
            Some(e) => e,
            None => Error::UnexpectedEof,
        }
    }
}

/// The tokens of `src` from offset `i` on.
pub open spec fn tokens_from(src: Seq<u8>, i: int) -> Stream
    decreases left(src, i),
    via tokens_from_decreases
{
    match lex_at(src, i) {
        LexStep::Token(t, e) => Stream::cons(t, tokens_from(src, e)),
        LexStep::End(_) => Stream { toks: Seq::empty(), fail: None },
        LexStep::Error(err, _) => Stream { toks: Seq::empty(), fail: Some(err) },
    }
}

#[via_fn]
proof fn tokens_from_decreases(src: Seq<u8>, i: int) {
    lemma_lex_at_advances(src, i);
}

/// Behind the first token of `cons(t, s)` lies `s`.
pub proof fn lemma_cons_skip(t: Token, s: Stream)
    ensures
        Stream::cons(t, s).skip(1) == s,
        Stream::cons(t, s).skip(0) == Stream::cons(t, s),
        Stream::cons(t, s).toks.len() == s.toks.len() + 1,
        Stream::cons(t, s).toks[0] == t,
{
    assert(Stream::cons(t, s).skip(1).toks =~= s.toks);
    assert(Stream::cons(t, s).skip(0).toks =~= Stream::cons(t, s).toks);
}

/// A stream is its first token and what lies behind it.
pub proof fn lemma_cons_head(s: Stream)
    requires
        s.toks.len() > 0,
    ensures
        Stream::cons(s.toks[0], s.skip(1)) == s,
{
    assert(Stream::cons(s.toks[0], s.skip(1)).toks =~= s.toks);
}

/// Behind no token of a stream lies the stream itself.
pub proof fn lemma_skip_none(s: Stream)
    ensures
        s.skip(0) == s,
{
    assert(s.skip(0).toks =~= s.toks);
}

/// Skipping twice is skipping the sum.
pub proof fn lemma_skip_skip(s: Stream, a: nat, b: nat)
    ensures
        s.skip(a).skip(b) == s.skip(a + b),
{
    assert(s.skip(a).skip(b).toks =~= s.skip(a + b).toks);
}

} // verus!

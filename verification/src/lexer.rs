//! The tokenizer: a byte cursor over the source that yields one token per
//! call of [`Lexer::next_token`].

use std::rc::Rc;
use vstd::prelude::*;
use vstd::string::StringSliceAdditionalSpecFns;
use vstd::utf8::{
    encode_utf8_valid_utf8, is_char_boundary, is_char_boundary_iff_not_is_continuation_byte,
    is_char_boundary_start_end_of_seq,
};
use crate::error::Error;
use crate::scan::{
    dot_at, hex_escape_error, keyword, left, lemma_line_end_ge, lemma_space_end_ge, lex_at,
    line_end, number_end, op_kind, punct_kind, space_end, spans_text, string_end, token_at,
    word_end, word_kind, LexStep,
};
use crate::scan_laws::{lemma_token_span, step_ok};
use crate::span::Str;
use crate::text::{
    char_at, char_is_digit, char_is_hex_digit, char_is_space, char_is_word_part,
    char_is_word_start, char_width, first_char, lemma_char_step, utf8_len,
};
pub use crate::token::{Token, TokenType};

verus! {

/// Whether the bytes `from..to` of `bytes` spell `word`.
fn spells(bytes: &[u8], from: usize, to: usize, word: &str) -> (r: bool)
    requires
        from <= to <= bytes@.len(),
    ensures
        r == (bytes@.subrange(from as int, to as int) == word.spec_bytes()),
{
    let w = word.as_bytes();
    let n: usize = to - from;
    if w.len() != n {
        return false;
    }
    let mut k: usize = 0;
    while k < n
        invariant
            k <= n,
            n == to - from,
            from <= to <= bytes@.len(),
            w@.len() == n,
            w@ == word.spec_bytes(),
            forall|j: int| 0 <= j < k ==> bytes@[from + j] == w@[j],
        decreases n - k,
    {
        if bytes[from + k] != w[k] {
            assert(bytes@.subrange(from as int, to as int)[k as int] != w@[k as int]);
            return false;
        }
        k += 1;
    }
    assert(bytes@.subrange(from as int, to as int) =~= w@);
    true
}

/// Looks the bytes `from..to` of `bytes` up in the keyword table.
pub fn keyword_of(bytes: &[u8], from: usize, to: usize) -> (r: Option<TokenType>)
    requires
        from <= to <= bytes@.len(),
    ensures
        r == keyword(bytes@.subrange(from as int, to as int)),
{
    if spells(bytes, from, to, "module") {
        Some(TokenType::KwModule)
    } else if spells(bytes, from, to, "import") {
        Some(TokenType::KwImport)
    } else if spells(bytes, from, to, "trait") {
        Some(TokenType::KwTrait)
    } else if spells(bytes, from, to, "struct") {
        Some(TokenType::KwStruct)
    } else if spells(bytes, from, to, "enum") {
        Some(TokenType::KwEnum)
    } else if spells(bytes, from, to, "impl") {
        Some(TokenType::KwImpl)
    } else if spells(bytes, from, to, "fun") {
        Some(TokenType::KwFun)
    } else if spells(bytes, from, to, "const") {
        Some(TokenType::KwConst)
    } else if spells(bytes, from, to, "var") {
        Some(TokenType::KwVar)
    } else if spells(bytes, from, to, "if") {
        Some(TokenType::KwIf)
    } else if spells(bytes, from, to, "else") {
        Some(TokenType::KwElse)
    } else if spells(bytes, from, to, "elseif") {
        Some(TokenType::KwElseif)
    } else if spells(bytes, from, to, "for") {
        Some(TokenType::KwFor)
    } else if spells(bytes, from, to, "while") {
        Some(TokenType::KwWhile)
    } else if spells(bytes, from, to, "in") {
        Some(TokenType::KwIn)
    } else if spells(bytes, from, to, "return") {
        Some(TokenType::KwReturn)
    } else if spells(bytes, from, to, "continue") {
        Some(TokenType::KwContinue)
    } else if spells(bytes, from, to, "break") {
        Some(TokenType::KwBreak)
    } else if spells(bytes, from, to, "and") {
        Some(TokenType::KwAnd)
    } else if spells(bytes, from, to, "or") {
        Some(TokenType::KwOr)
    } else {
        None
    }
}

/// The kind of the token that is the one character `c`, if there is one.
pub fn punctuation(c: char) -> (r: Option<TokenType>)
    ensures
        r == punct_kind(c),
{
    if c == '(' {
        Some(TokenType::LeftParen)
    } else if c == ')' {
        Some(TokenType::RightParen)
    } else if c == '[' {
        Some(TokenType::LeftBracket)
    } else if c == ']' {
        Some(TokenType::RightBracket)
    } else if c == '{' {
        Some(TokenType::LeftBrace)
    } else if c == '}' {
        Some(TokenType::RightBrace)
    } else if c == ':' {
        Some(TokenType::Colon)
    } else if c == ';' {
        Some(TokenType::Semicolon)
    } else if c == '@' {
        Some(TokenType::At)
    } else if c == '#' {
        Some(TokenType::Hashtag)
    } else if c == ',' {
        Some(TokenType::Comma)
    } else {
        None
    }
}

/// Picks between an operator of one character and its compound forms.
fn compound(
    eq: bool,
    with_eq: TokenType,
    twin: bool,
    doubled: TokenType,
    alone: TokenType,
) -> (r: (TokenType, bool))
    ensures
        r == if eq {
            (with_eq, true)
        } else if twin {
            (doubled, true)
        } else {
            (alone, false)
        },
{
    if eq {
        (with_eq, true)
    } else if twin {
        (doubled, true)
    } else {
        (alone, false)
    }
}

/// The kind of the operator that starts with `c` and is followed by `next`,
/// and whether `next` is part of it.
pub fn operator(c: char, next: Option<char>) -> (r: Option<(TokenType, bool)>)
    ensures
        r == op_kind(c, next),
{
    let eq = match next {
        Some(n) => n == '=',
        None => false,
    };
    let twin = match next {
        Some(n) => (c == '-' && n == '>') || (c == '<' && n == '<') || (c == '>' && n == '>'),
        None => false,
    };
    if c == '!' {
        Some(compound(eq, TokenType::BangEqual, false, TokenType::Bang, TokenType::Bang))
    } else if c == '&' {
        Some(compound(eq, TokenType::AndEqual, false, TokenType::And, TokenType::And))
    } else if c == '|' {
        Some(compound(eq, TokenType::PipeEqual, false, TokenType::Pipe, TokenType::Pipe))
    } else if c == '^' {
        Some(compound(eq, TokenType::CaretEqual, false, TokenType::Caret, TokenType::Caret))
    } else if c == '+' {
        Some(compound(eq, TokenType::PlusEqual, false, TokenType::Plus, TokenType::Plus))
    } else if c == '-' {
        Some(compound(eq, TokenType::MinusEqual, twin, TokenType::Arrow, TokenType::Minus))
    } else if c == '*' {
        Some(compound(eq, TokenType::StarEqual, false, TokenType::Star, TokenType::Star))
    } else if c == '/' {
        Some(compound(eq, TokenType::SlashEqual, false, TokenType::Slash, TokenType::Slash))
    } else if c == '%' {
        Some(compound(eq, TokenType::PercentEqual, false, TokenType::Percent, TokenType::Percent))
    } else if c == '=' {
        Some(compound(eq, TokenType::EqualEqual, false, TokenType::Equal, TokenType::Equal))
    } else if c == '<' {
        Some(compound(eq, TokenType::LessEqual, twin, TokenType::LessLess, TokenType::Less))
    } else if c == '>' {
        Some(
            compound(
                eq,
                TokenType::GreaterEqual,
                twin,
                TokenType::GreaterGreater,
                TokenType::Greater,
            ),
        )
    } else {
        None
    }
}

/// The tokenizer's state: the source buffer, shared and never changed, and
/// the byte offset of the next character to read.
pub struct Lexer {
    source: Rc<str>,
    index: u32,
}

impl Lexer {
    /// The buffer's length fits the cursor, and the cursor stands on a
    /// character boundary.
    #[verifier::type_invariant]
    spec fn inv(&self) -> bool {
        &&& self.source.spec_bytes().len() <= u32::MAX
        &&& is_char_boundary(self.source.spec_bytes(), self.index as int)
    }

    /// The bytes of the source buffer.
    pub closed spec fn src(&self) -> Seq<u8> {
        self.source.spec_bytes()
    }

    /// The byte offset of the cursor.
    pub closed spec fn pos(&self) -> int {
        self.index as int
    }

    /// Whether `slice` denotes text of the source: it starts and ends on
    /// character boundaries of the buffer.
    pub open spec fn holds(&self, slice: Str) -> bool {
        spans_text(self.src(), slice)
    }

    /// Whether `source` is short enough for spans to address it, so that a
    /// tokenizer can be made for it.
    pub fn fits(source: &str) -> (r: bool)
        ensures
            r == (source.spec_bytes().len() <= u32::MAX),
    {
        source.as_bytes().len() <= 0xffff_ffff
    }

    /// A tokenizer at the start of `source`. The buffer is shared, not
    /// copied; it must not be longer than a span can address.
    pub fn new(source: Rc<str>) -> (r: Self)
        requires
            source.spec_bytes().len() <= u32::MAX,
        ensures
            r.src() == source.spec_bytes(),
            r.pos() == 0,
    {
        proof {
            encode_utf8_valid_utf8(source@);
        }
        Self { source, index: 0 }
    }

    /// Whether any byte is left behind the cursor.
    pub fn has_next(&self) -> (r: bool)
        ensures
            r == (self.pos() < self.src().len()),
    {
        proof {
            use_type_invariant(self);
        }
        let s: &str = &self.source;
        (self.index as usize) < s.len()
    }

    /// The character at the cursor, if one is left.
    fn peek_opt(&self) -> (r: Option<char>)
        ensures
            r == char_at(self.src(), self.pos()),
    {
        proof {
            use_type_invariant(self);
            encode_utf8_valid_utf8(self.source@);
        }
        let s: &str = &self.source;
        let (_, rest) = s.split_at(self.index as usize);
        let r = first_char(rest);
        proof {
            let i = self.index as int;
            assert(rest.spec_bytes() =~= self.src().skip(i));
            assert(rest.spec_bytes().skip(0) =~= rest.spec_bytes());
            encode_utf8_valid_utf8(rest@);
            if rest.spec_bytes().len() > 0 {
                assert(is_char_boundary(rest.spec_bytes(), 0));
            }
        }
        r
    }

    /// The character at the cursor; `UnexpectedEof` at the end of the
    /// input.
    pub fn peek(&self) -> (r: Result<char, Error>)
        ensures
            r == match char_at(self.src(), self.pos()) {
                Some(c) => Ok::<char, Error>(c),
                None => Err::<char, Error>(Error::UnexpectedEof),
            },
    {
        match self.peek_opt() {
            Some(c) => Ok(c),
            None => Err(Error::UnexpectedEof),
        }
    }

    /// Reads the character at the cursor and moves the cursor behind it;
    /// `UnexpectedEof` at the end of the input.
    #[allow(clippy::should_implement_trait)]
    pub fn next(&mut self) -> (r: Result<char, Error>)
        ensures
            final(self).src() == old(self).src(),
            match char_at(old(self).src(), old(self).pos()) {
                Some(c) => r == Ok::<char, Error>(c) && final(self).pos() == old(self).pos()
                    + utf8_len(c),
                None => r == Err::<char, Error>(Error::UnexpectedEof) && final(self).pos()
                    == old(self).pos(),
            },
    {
        let c = self.peek()?;
        proof {
            use_type_invariant(&*self);
            encode_utf8_valid_utf8(self.source@);
            lemma_char_step(self.src(), self.pos());
        }
        self.index += char_width(c);
        Ok(c)
    }

    /// Moves the cursor behind the character at which it stands. There
    /// must be one.
    pub fn eat(&mut self)
        requires
            char_at(old(self).src(), old(self).pos()) is Some,
        ensures
            final(self).src() == old(self).src(),
            final(self).pos() == old(self).pos() + utf8_len(
                char_at(old(self).src(), old(self).pos()).unwrap(),
            ),
    {
        let _ = self.next();
    }

    /// Reads the character at the cursor if it is `c`, and says whether
    /// it was.
    pub fn maybe(&mut self, c: char) -> (r: bool)
        ensures
            final(self).src() == old(self).src(),
            r == (char_at(old(self).src(), old(self).pos()) == Some(c)),
            final(self).pos() == if r {
                old(self).pos() + utf8_len(c)
            } else {
                old(self).pos()
            },
    {
        match self.peek_opt() {
            Some(d) => {
                if d == c {
                    self.eat();
                    true
                } else {
                    false
                }
            },
            None => false,
        }
    }

    /// Moves the cursor to the next character that is no whitespace.
    pub fn skip_whitespace(&mut self)
        ensures
            final(self).src() == old(self).src(),
            final(self).pos() == space_end(old(self).src(), old(self).pos()),
    {
        loop
            invariant
                self.src() == old(self).src(),
                space_end(self.src(), self.pos()) == space_end(old(self).src(), old(self).pos()),
            decreases left(self.src(), self.pos()),
        {
            match self.peek_opt() {
                Some(c) => {
                    if !char_is_space(c) {
                        return ;
                    }
                    self.eat();
                },
                None => {
                    return ;
                },
            }
        }
    }

    /// Moves the cursor to the end of the line.
    fn skip_line(&mut self)
        ensures
            final(self).src() == old(self).src(),
            final(self).pos() == line_end(old(self).src(), old(self).pos()),
    {
        loop
            invariant
                self.src() == old(self).src(),
                line_end(self.src(), self.pos()) == line_end(old(self).src(), old(self).pos()),
            decreases left(self.src(), self.pos()),
        {
            match self.peek_opt() {
                Some(c) => {
                    if c == '\n' {
                        return ;
                    }
                    self.eat();
                },
                None => {
                    return ;
                },
            }
        }
    }

    /// The span from `start` to the cursor.
    fn span_from(&self, start: u32) -> (r: Str)
        requires
            start <= self.pos(),
        ensures
            r == Str::between(start as int, self.pos()),
    {
        Str(start, self.index - start)
    }

    /// Reads the rest of a number that began at `start`.
    fn scan_number(&mut self, start: u32, float: bool) -> (r: Result<TokenType, Error>)
        requires
            start <= old(self).pos(),
        ensures
            final(self).src() == old(self).src(),
            old(self).pos() <= final(self).pos(),
            match number_end(old(self).src(), start as int, old(self).pos(), float) {
                LexStep::Token(t, e) => r == Ok::<TokenType, Error>(t.kind) && final(self).pos()
                    == e && t.slice == Str::between(start as int, e),
                LexStep::Error(err, e) => r == Err::<TokenType, Error>(err) && final(self).pos()
                    == e,
                LexStep::End(_) => false,
            },
    {
        let mut dotted = float;
        loop
            invariant
                self.src() == old(self).src(),
                start <= self.pos(),
                old(self).pos() <= self.pos(),
                number_end(self.src(), start as int, self.pos(), dotted) == number_end(
                    old(self).src(),
                    start as int,
                    old(self).pos(),
                    float,
                ),
            decreases left(self.src(), self.pos()),
        {
            match self.peek_opt() {
                Some(c) => {
                    if c == '.' {
                        self.eat();
                        if dotted {
                            return Err(Error::InvalidFloat(self.span_from(start)));
                        }
                        dotted = true;
                    } else if char_is_digit(c) {
                        self.eat();
                    } else {
                        return Ok(if dotted { TokenType::Float } else { TokenType::Integer });
                    }
                },
                None => {
                    return Ok(if dotted { TokenType::Float } else { TokenType::Integer });
                },
            }
        }
    }

    /// Reads the rest of a token that began with `.` at `start`.
    fn scan_dot(&mut self, start: u32) -> (r: Result<TokenType, Error>)
        requires
            old(self).pos() == start + 1,
        ensures
            final(self).src() == old(self).src(),
            old(self).pos() <= final(self).pos(),
            match dot_at(old(self).src(), start as int) {
                LexStep::Token(t, e) => r == Ok::<TokenType, Error>(t.kind) && final(self).pos()
                    == e && t.slice == Str::between(start as int, e),
                LexStep::Error(err, e) => r == Err::<TokenType, Error>(err) && final(self).pos()
                    == e,
                LexStep::End(_) => false,
            },
    {
        match self.peek_opt() {
            Some(d) => {
                if d == '.' {
                    self.eat();
                    if self.maybe('.') {
                        Ok(TokenType::DotDotDot)
                    } else {
                        Ok(TokenType::DotDot)
                    }
                } else if char_is_digit(d) {
                    self.scan_number(start, true)
                } else {
                    Ok(TokenType::Dot)
                }
            },
            None => Ok(TokenType::Dot),
        }
    }

    /// Reads the two digits of an escape `\\xHH` whose backslash stands at
    /// `escape`; the cursor stands behind the `x`.
    fn scan_hex_escape(&mut self, escape: u32) -> (r: Result<(), Error>)
        requires
            old(self).pos() == escape + 2,
        ensures
            final(self).src() == old(self).src(),
            match hex_escape_error(old(self).src(), escape as int) {
                Some((err, at)) => r == Err::<(), Error>(err) && final(self).pos() == at,
                None => r.is_ok() && final(self).pos() == escape + 4,
            },
    {
        let h = self.next()?;
        if !char_is_hex_digit(h) {
            return Err(Error::InvalidEscapeSequence(self.span_from(escape)));
        }
        let l = self.next()?;
        if !char_is_hex_digit(l) {
            return Err(Error::InvalidEscapeSequence(self.span_from(escape)));
        }
        Ok(())
    }

    /// Reads the rest of a string literal whose opening quote stood at
    /// `start`.
    fn scan_string(&mut self, start: u32) -> (r: Result<TokenType, Error>)
        requires
            start <= old(self).pos(),
        ensures
            final(self).src() == old(self).src(),
            old(self).pos() <= final(self).pos(),
            match string_end(old(self).src(), start as int, old(self).pos()) {
                LexStep::Token(t, e) => r == Ok::<TokenType, Error>(t.kind) && final(self).pos()
                    == e && t.slice == Str::between(start as int, e),
                LexStep::Error(err, e) => r == Err::<TokenType, Error>(err) && final(self).pos()
                    == e,
                LexStep::End(_) => false,
            },
    {
        loop
            invariant
                self.src() == old(self).src(),
                start <= self.pos(),
                old(self).pos() <= self.pos(),
                string_end(self.src(), start as int, self.pos()) == string_end(
                    old(self).src(),
                    start as int,
                    old(self).pos(),
                ),
            decreases left(self.src(), self.pos()),
        {
            let c = self.peek()?;
            if c == '\\' {
                let escape = self.index;
                self.eat();
                let e = self.peek()?;
                if e == '"' || e == '\\' || e == 'n' || e == 't' || e == 'r' {
                    self.eat();
                } else if e == 'x' {
                    self.eat();
                    self.scan_hex_escape(escape)?;
                } else {
                    return Err(Error::InvalidEscapeSequence(self.span_from(escape)));
                }
            } else {
                self.eat();
                if c == '"' {
                    return Ok(TokenType::String);
                }
            }
        }
    }

    /// Reads the rest of an identifier or keyword that began at `start`.
    fn scan_word(&mut self, start: u32) -> (r: TokenType)
        requires
            start <= old(self).pos(),
        ensures
            final(self).src() == old(self).src(),
            old(self).pos() <= final(self).pos(),
            final(self).pos() == word_end(old(self).src(), old(self).pos()),
            r == word_kind(old(self).src().subrange(start as int, final(self).pos())),
    {
        loop
            invariant_except_break
                self.src() == old(self).src(),
                start <= self.pos(),
                old(self).pos() <= self.pos(),
                word_end(self.src(), self.pos()) == word_end(old(self).src(), old(self).pos()),
            ensures
                self.src() == old(self).src(),
                start <= self.pos(),
                old(self).pos() <= self.pos(),
                self.pos() == word_end(old(self).src(), old(self).pos()),
            decreases left(self.src(), self.pos()),
        {
            match self.peek_opt() {
                Some(c) => {
                    if !char_is_word_part(c) {
                        break ;
                    }
                    self.eat();
                },
                None => {
                    break ;
                },
            }
        }
        proof {
            use_type_invariant(&*self);
            encode_utf8_valid_utf8(self.source@);
        }
        let s: &str = &self.source;
        match keyword_of(s.as_bytes(), start as usize, self.index as usize) {
            Some(kind) => kind,
            None => TokenType::Identifier,
        }
    }

    /// Reads the rest of the token that began at `start` with `c`; the cursor
    /// stands behind `c`.
    fn scan_token(&mut self, start: u32, c: char) -> (r: Result<TokenType, Error>)
        requires
            old(self).pos() == start + utf8_len(c),
        ensures
            final(self).src() == old(self).src(),
            old(self).pos() <= final(self).pos(),
            match token_at(old(self).src(), start as int, c) {
                LexStep::Token(t, e) => r == Ok::<TokenType, Error>(t.kind) && final(self).pos()
                    == e && t.slice == Str::between(start as int, e),
                LexStep::Error(err, e) => r == Err::<TokenType, Error>(err) && final(self).pos()
                    == e,
                LexStep::End(_) => false,
            },
    {
        reveal(token_at);
        if let Some(kind) = punctuation(c) {
            Ok(kind)
        } else if let Some((kind, two)) = operator(c, self.peek_opt()) {
            if two {
                self.eat();
            }
            Ok(kind)
        } else if c == '.' {
            self.scan_dot(start)
        } else if char_is_digit(c) {
            self.scan_number(start, false)
        } else if c == '"' {
            self.scan_string(start)
        } else if char_is_word_start(c) {
            Ok(self.scan_word(start))
        } else {
            Err(Error::InvalidToken(self.span_from(start)))
        }
    }

    /// Reads the next token. `Ok(None)` marks the end of the input.
    ///
    /// Whitespace and `//` comments before the token are passed over. On a
    /// lexical error the cursor rests behind the text that the error's span
    /// covers. The span of the token, or of the error, denotes text of the
    /// source.
    pub fn next_token(&mut self) -> (r: Result<Option<Token>, Error>)
        ensures
            final(self).src() == old(self).src(),
            step_ok(old(self).src(), old(self).pos(), lex_at(old(self).src(), old(self).pos())),
            match lex_at(old(self).src(), old(self).pos()) {
                LexStep::Token(t, e) => r == Ok::<Option<Token>, Error>(Some(t))
                    && final(self).pos() == e,
                LexStep::End(e) => r == Ok::<Option<Token>, Error>(None) && final(self).pos() == e,
                LexStep::Error(err, e) => r == Err::<Option<Token>, Error>(err) && final(self).pos()
                    == e,
            },
    {
        proof {
            use_type_invariant(&*self);
            encode_utf8_valid_utf8(self.source@);
            lemma_token_span(self.src(), self.pos());
        }
        loop
            invariant
                self.src() == old(self).src(),
                lex_at(self.src(), self.pos()) == lex_at(old(self).src(), old(self).pos()),
                step_ok(
                    old(self).src(),
                    old(self).pos(),
                    lex_at(old(self).src(), old(self).pos()),
                ),
            decreases left(self.src(), self.pos()),
        {
            let ghost before = self.pos();
            self.skip_whitespace();
            let start = self.index;
            let c = match self.next() {
                Ok(c) => c,
                Err(_) => {
                    return Ok(None);
                },
            };
            if c == '/' {
                if self.maybe('/') {
                    self.skip_line();
                    proof {
                        lemma_space_end_ge(self.src(), before);
                        lemma_line_end_ge(self.src(), start + 2);
                    }
                    continue ;
                }
            }
            let kind = self.scan_token(start, c)?;
            return Ok(Some(Token::new(kind, self.span_from(start))));
        }
    }

    /// Whether `slice` denotes text of the source, so that `slice` may be
    /// asked for it.
    pub fn covers(&self, slice: Str) -> (r: bool)
        ensures
            r == self.holds(slice),
    {
        proof {
            use_type_invariant(self);
            encode_utf8_valid_utf8(self.source@);
        }
        let s: &str = &self.source;
        let end: u64 = slice.0 as u64 + slice.1 as u64;
        if end > s.len() as u64 {
            return false;
        }
        s.is_char_boundary(slice.0 as usize) && s.is_char_boundary(end as usize)
    }

    /// The text that `slice` denotes: the bytes of the source from its start
    /// up to its end, as they stand.
    pub fn slice(&self, slice: Str) -> (r: &str)
        requires
            self.holds(slice),
        ensures
            r.spec_bytes() == self.src().subrange(slice.start(), slice.end()),
    {
        let s: &str = &self.source;
        proof {
            encode_utf8_valid_utf8(self.source@);
        }
        let (_, tail) = s.split_at(slice.0 as usize);
        proof {
            let src = self.src();
            let from = slice.start();
            let to = slice.end();
            let t = tail.spec_bytes();
            assert(t =~= src.skip(from));
            encode_utf8_valid_utf8(tail@);
            if to == src.len() {
                is_char_boundary_start_end_of_seq(t);
            } else {
                is_char_boundary_iff_not_is_continuation_byte(src, to);
                assert(t[to - from] == src[to]);
                is_char_boundary_iff_not_is_continuation_byte(t, to - from);
            }
        }
        let (r, _) = tail.split_at(slice.1 as usize);
        proof {
            assert(r.spec_bytes() =~= self.src().subrange(slice.start(), slice.end()));
        }
        r
    }
}

} // verus!

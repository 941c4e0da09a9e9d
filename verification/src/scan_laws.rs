//! Where the tokens lie in the source: every span that the tokenizer hands
//! out denotes text of the buffer, the text of a literal has the shape of
//! its kind, and the tokens of a stream come in the order of the source.

use vstd::prelude::*;
use vstd::utf8::{is_char_boundary, valid_utf8};
use crate::scan::{
    comment_at, dot_at, hex_escape_error, keyword, left, lemma_lex_at_advances, lex_at,
    line_end, number_end, op_kind, punct_kind, rest_of, space_end, spans_text, string_end,
    token_at, tokens_from, word_end, LexStep,
};
use crate::span::Str;
use crate::text::{
    char_at, is_digit, is_hex_digit, is_space, is_word_part, is_word_start, lemma_char_step,
    utf8_len,
};
use crate::token::{Token, TokenType};

verus! {

/// Whether the tokenizer may stand at offset `i` of `src`: the buffer is
/// UTF-8 that the cursor can address, and `i` is a character boundary.
pub open spec fn cursor_ok(src: Seq<u8>, i: int) -> bool {
    &&& valid_utf8(src)
    &&& src.len() <= u32::MAX
    &&& is_char_boundary(src, i)
}

/// Whether every character from `a` up to `b` is a digit.
pub open spec fn digits(src: Seq<u8>, a: int, b: int) -> bool {
    forall|j: int| a <= j < b ==> (#[trigger] char_at(src, j) matches Some(c) && is_digit(c))
}

/// Whether the characters from `a` up to `b` are digits and one `.`.
pub open spec fn fraction(src: Seq<u8>, a: int, b: int) -> bool {
    exists|k: int|
        a <= k < b && #[trigger] char_at(src, k) == Some('.') && digits(src, a, k)
            && digits(src, k + 1, b)
}

/// Whether the characters from `a` up to `b` are a letter or `_` and then
/// letters, digits and `_`.
pub open spec fn word(src: Seq<u8>, a: int, b: int) -> bool {
    &&& char_at(src, a) matches Some(c) && is_word_start(c)
    &&& forall|j: int|
        a < j < b ==> (#[trigger] char_at(src, j) matches Some(c) && is_word_part(c))
}

/// What the text of a literal looks like: an integer is digits, a float is
/// digits around one `.`, a string stands between two `"`, and an
/// identifier is a word that the keyword table does not hold.
pub open spec fn literal_text(src: Seq<u8>, t: Token) -> bool {
    let a = t.slice.start();
    let b = t.slice.end();
    match t.kind {
        TokenType::Integer => digits(src, a, b),
        TokenType::Float => fraction(src, a, b),
        TokenType::String => b - a >= 2 && char_at(src, a) == Some('"') && char_at(src, b - 1)
            == Some('"'),
        TokenType::Identifier => word(src, a, b) && keyword(src.subrange(a, b)) is None,
        _ => true,
    }
}

/// What holds of a step of the tokenizer that started at `i` or behind it:
/// a token's span denotes text that lies behind `i` and ends at the cursor,
/// and has the shape of its kind; the input ends only at the end of the
/// buffer; and an error's span denotes text that ends at the cursor.
pub open spec fn step_ok(src: Seq<u8>, i: int, step: LexStep) -> bool {
    match step {
        LexStep::Token(t, e) => {
            &&& spans_text(src, t.slice)
            &&& i <= t.slice.start() < t.slice.end() == e
            &&& literal_text(src, t)
        },
        LexStep::End(e) => e == src.len(),
        LexStep::Error(err, e) => {
            &&& is_char_boundary(src, e)
            &&& i <= e
            &&& err.span() matches Some(s) ==> spans_text(src, s) && i <= s.start() && s.end()
                == e
        },
    }
}

/// One character behind a boundary lies the next boundary.
proof fn lemma_step(src: Seq<u8>, i: int)
    requires
        cursor_ok(src, i),
        char_at(src, i) is Some,
    ensures
        cursor_ok(src, i + utf8_len(char_at(src, i).unwrap())),
        i + utf8_len(char_at(src, i).unwrap()) <= src.len(),
{
    lemma_char_step(src, i);
}

proof fn lemma_space_end_ok(src: Seq<u8>, i: int)
    requires
        cursor_ok(src, i),
    ensures
        cursor_ok(src, space_end(src, i)),
        i <= space_end(src, i),
    decreases left(src, i),
{
    match char_at(src, i) {
        Some(c) => if is_space(c) {
            lemma_step(src, i);
            lemma_space_end_ok(src, i + utf8_len(c));
        },
        None => {},
    }
}

proof fn lemma_line_end_ok(src: Seq<u8>, i: int)
    requires
        cursor_ok(src, i),
    ensures
        cursor_ok(src, line_end(src, i)),
        i <= line_end(src, i),
    decreases left(src, i),
{
    match char_at(src, i) {
        Some(c) => if c != '\n' {
            lemma_step(src, i);
            lemma_line_end_ok(src, i + utf8_len(c));
        },
        None => {},
    }
}

proof fn lemma_word_end_ok(src: Seq<u8>, i: int)
    requires
        cursor_ok(src, i),
    ensures
        cursor_ok(src, word_end(src, i)),
        i <= word_end(src, i),
        forall|j: int|
            i <= j < word_end(src, i) ==> (#[trigger] char_at(src, j) matches Some(c)
                && is_word_part(c)),
    decreases left(src, i),
{
    match char_at(src, i) {
        Some(c) => if is_word_part(c) {
            lemma_step(src, i);
            lemma_word_end_ok(src, i + 1);
        },
        None => {},
    }
}

/// The span from `a` to `b`, two boundaries of a buffer that the cursor
/// can address.
proof fn lemma_between(src: Seq<u8>, a: int, b: int)
    requires
        cursor_ok(src, a),
        cursor_ok(src, b),
        a <= b,
    ensures
        Str::between(a, b).start() == a,
        Str::between(a, b).end() == b,
        spans_text(src, Str::between(a, b)),
{
}

proof fn lemma_number_end_ok(src: Seq<u8>, start: int, i: int, float: bool)
    requires
        cursor_ok(src, start),
        cursor_ok(src, i),
        start < i,
        if float {
            fraction(src, start, i)
        } else {
            digits(src, start, i)
        },
    ensures
        step_ok(src, start, number_end(src, start, i, float)),
        !(number_end(src, start, i, float) is End),
    decreases left(src, i),
{
    lemma_between(src, start, i);
    match char_at(src, i) {
        Some(c) => {
            if c == '.' {
                lemma_step(src, i);
                lemma_between(src, start, i + 1);
                if !float {
                    assert(fraction(src, start, i + 1)) by {
                        assert(char_at(src, i) == Some('.'));
                        assert(digits(src, i + 1, i + 1));
                    }
                    lemma_number_end_ok(src, start, i + 1, true);
                }
            } else if is_digit(c) {
                lemma_step(src, i);
                if float {
                    let k = choose|k: int|
                        start <= k < i && #[trigger] char_at(src, k) == Some('.') && digits(
                            src,
                            start,
                            k,
                        ) && digits(src, k + 1, i);
                    assert(digits(src, k + 1, i + 1));
                }
                lemma_number_end_ok(src, start, i + 1, float);
            }
        },
        None => {},
    }
}

proof fn lemma_string_end_ok(src: Seq<u8>, start: int, i: int)
    requires
        cursor_ok(src, start),
        cursor_ok(src, i),
        start < i,
        char_at(src, start) == Some('"'),
    ensures
        step_ok(src, start, string_end(src, start, i)),
        !(string_end(src, start, i) is End),
    decreases left(src, i),
{
    match char_at(src, i) {
        None => {},
        Some(c) => {
            lemma_step(src, i);
            if c == '\\' {
                lemma_between(src, i, i + 1);
                match char_at(src, i + 1) {
                    None => {},
                    Some(e) => {
                        lemma_step(src, i + 1);
                        if e == '"' || e == '\\' || e == 'n' || e == 't' || e == 'r' {
                            lemma_string_end_ok(src, start, i + 2);
                        } else if e == 'x' {
                            lemma_hex_escape_ok(src, i);
                            if hex_escape_error(src, i) is None {
                                lemma_string_end_ok(src, start, i + 4);
                            }
                        }
                    },
                }
            } else if c == '"' {
                lemma_between(src, start, i + 1);
            } else {
                lemma_string_end_ok(src, start, i + utf8_len(c));
            }
        },
    }
}

/// The two digits of an escape `\\x`, or the error in them.
proof fn lemma_hex_escape_ok(src: Seq<u8>, i: int)
    requires
        cursor_ok(src, i),
        cursor_ok(src, i + 2),
    ensures
        match hex_escape_error(src, i) {
            Some((err, at)) => step_ok(src, i, LexStep::Error(err, at)),
            None => cursor_ok(src, i + 4),
        },
{
    match char_at(src, i + 2) {
        None => {},
        Some(h) => {
            lemma_step(src, i + 2);
            let j = i + 2 + utf8_len(h);
            lemma_between(src, i, j);
            if is_hex_digit(h) {
                match char_at(src, j) {
                    None => {},
                    Some(l) => {
                        lemma_step(src, j);
                        lemma_between(src, i, j + utf8_len(l));
                    },
                }
            }
        },
    }
}

proof fn lemma_dot_at_ok(src: Seq<u8>, p: int)
    requires
        cursor_ok(src, p),
        char_at(src, p) == Some('.'),
    ensures
        step_ok(src, p, dot_at(src, p)),
        !(dot_at(src, p) is End),
{
    lemma_step(src, p);
    lemma_between(src, p, p + 1);
    match char_at(src, p + 1) {
        Some(d) => {
            lemma_step(src, p + 1);
            if d == '.' {
                lemma_between(src, p, p + 2);
                if char_at(src, p + 2) == Some('.') {
                    lemma_step(src, p + 2);
                    lemma_between(src, p, p + 3);
                }
            } else if is_digit(d) {
                assert(fraction(src, p, p + 1)) by {
                    assert(char_at(src, p) == Some('.'));
                    assert(digits(src, p, p));
                    assert(digits(src, p + 1, p + 1));
                }
                lemma_number_end_ok(src, p, p + 1, true);
            }
        },
        None => {},
    }
}

proof fn lemma_token_at_ok(src: Seq<u8>, p: int, c: char)
    requires
        cursor_ok(src, p),
        char_at(src, p) == Some(c),
    ensures
        step_ok(src, p, token_at(src, p, c)),
        !(token_at(src, p, c) is End),
{
    reveal(token_at);
    lemma_step(src, p);
    let q = p + utf8_len(c);
    lemma_between(src, p, q);
    if punct_kind(c) is Some {
    } else if op_kind(c, char_at(src, q)) is Some {
        if op_kind(c, char_at(src, q)).unwrap().1 {
            lemma_step(src, q);
            lemma_between(src, p, q + 1);
        }
    } else if c == '.' {
        lemma_dot_at_ok(src, p);
    } else if is_digit(c) {
        assert(digits(src, p, q));
        lemma_number_end_ok(src, p, q, false);
    } else if c == '"' {
        lemma_string_end_ok(src, p, q);
    } else if is_word_start(c) {
        lemma_word_end_ok(src, q);
        lemma_between(src, p, word_end(src, q));
    }
}

/// Round trip of spans: wherever the tokenizer stands, the token that it
/// reads next has a span that denotes text of the buffer, from the token's
/// first byte to the cursor behind it; the text of a literal has the shape
/// of its kind, quotes included; and the span of a lexical error denotes
/// the text that was read for it.
pub proof fn lemma_token_span(src: Seq<u8>, i: int)
    requires
        cursor_ok(src, i),
    ensures
        step_ok(src, i, lex_at(src, i)),
        cursor_ok(src, rest_of(lex_at(src, i))),
    decreases left(src, i),
{
    let p = space_end(src, i);
    lemma_space_end_ok(src, i);
    match char_at(src, p) {
        None => {},
        Some(c) => {
            if comment_at(src, p) {
                lemma_step(src, p);
                lemma_step(src, p + 1);
                lemma_line_end_ok(src, p + 2);
                lemma_token_span(src, line_end(src, p + 2));
            } else {
                lemma_token_at_ok(src, p, c);
            }
        },
    }
}

/// Every token of a stream has a span that denotes text of the buffer, and
/// so has the lexical error that ends the stream.
pub proof fn lemma_stream_spans(src: Seq<u8>, i: int)
    requires
        cursor_ok(src, i),
    ensures
        forall|k: int|
            0 <= k < tokens_from(src, i).toks.len() ==> spans_text(
                src,
                #[trigger] tokens_from(src, i).toks[k].slice,
            ),
        tokens_from(src, i).past_end().span() matches Some(s) ==> spans_text(src, s),
    decreases left(src, i),
{
    lemma_token_span(src, i);
    lemma_lex_at_advances(src, i);
    match lex_at(src, i) {
        LexStep::Token(t, e) => {
            lemma_stream_spans(src, e);
            let rest = tokens_from(src, e);
            assert forall|k: int| 0 <= k < tokens_from(src, i).toks.len() implies spans_text(
                src,
                #[trigger] tokens_from(src, i).toks[k].slice,
            ) by {
                if k > 0 {
                    assert(tokens_from(src, i).toks[k] == rest.toks[k - 1]);
                }
            }
        },
        _ => {},
    }
}

/// Whether the tokens `toks` lie in the buffer at or behind offset `i`, in
/// their order, none of them empty and no two of them overlapping.
pub open spec fn in_order(toks: Seq<Token>, i: int) -> bool {
    &&& forall|k: int|
        0 <= k < toks.len() ==> i <= (#[trigger] toks[k]).slice.start() < toks[k].slice.end()
    &&& forall|j: int, k: int|
        0 <= j < k < toks.len() ==> (#[trigger] toks[j]).slice.end() <= (
        #[trigger] toks[k]).slice.start()
}

/// The tokens of a stream lie in the buffer in the order of the stream,
/// none of them empty and no two of them overlapping.
pub proof fn lemma_stream_order(src: Seq<u8>, i: int)
    requires
        cursor_ok(src, i),
    ensures
        in_order(tokens_from(src, i).toks, i),
    decreases left(src, i),
{
    lemma_token_span(src, i);
    lemma_lex_at_advances(src, i);
    match lex_at(src, i) {
        LexStep::Token(t, e) => {
            lemma_stream_order(src, e);
            let all = tokens_from(src, i).toks;
            let rest = tokens_from(src, e).toks;
            assert(all =~= seq![t] + rest);
            assert forall|k: int| 0 <= k < all.len() implies i <= (#[trigger] all[k]).slice.start()
                < all[k].slice.end() by {
                if k > 0 {
                    assert(all[k] == rest[k - 1]);
                }
            }
            assert forall|j: int, k: int| 0 <= j < k < all.len() implies (#[trigger] all[j]).slice.end()
                <= (#[trigger] all[k]).slice.start() by {
                assert(all[k] == rest[k - 1]);
                if j > 0 {
                    assert(all[j] == rest[j - 1]);
                }
            }
        },
        _ => {},
    }
}

} // verus!

//! Laws of the parser: what holds of it on every input, proved from the
//! grammar and from what the tokenizer yields.

use vstd::prelude::*;
use vstd::string::StringSliceAdditionalSpecFns;
use vstd::utf8::{encode_utf8, is_ascii_chars, is_ascii_chars_encode_utf8};
use crate::error::Error;
use crate::hir::grammar::{
    access, binary, binary_of, called, expr, items, look, module_decl, reached, top, unary,
    Parsed, Root,
};
use crate::hir::parser::{parsed, Parser};
use crate::hir::tree::{Expr, Module, Tree};
use crate::scan::{
    keyword, lemma_skip_none, lemma_skip_skip, lex_at, space_end, token_at, tokens_from,
    word_end, LexStep, Stream,
};
use crate::span::Str;
use crate::text::{char_at, is_word_part, is_word_start, lemma_ascii};
use crate::token::{Token, TokenType};

verus! {

/// What parsing the source `src` from its start with a fresh parser gives.
pub open spec fn parse_of(src: Seq<u8>) -> Parsed<Root> {
    items(tokens_from(src, 0), Root { tree: Tree::empty(), notes: Seq::empty() })
}

/// The names that the tokenizer reads as one identifier: a letter or `_`,
/// then letters, digits and `_`, and no keyword.
pub open spec fn is_identifier(name: Seq<char>) -> bool {
    &&& name.len() > 0
    &&& is_word_start(name[0])
    &&& forall|i: int| 0 <= i < name.len() ==> is_word_part(#[trigger] name[i])
    &&& keyword(encode_utf8(name)) is None
}

/// A run of identifier characters from `i` to `e`, with none at `e`, is
/// what `word_end` passes over.
proof fn lemma_word_run(src: Seq<u8>, i: int, e: int)
    requires
        i <= e,
        forall|j: int|
            i <= j < e ==> (#[trigger] char_at(src, j) matches Some(c) && is_word_part(c)),
        !(char_at(src, e) matches Some(c) && is_word_part(c)),
    ensures
        word_end(src, i) == e,
    decreases e - i,
{
    if i < e {
        assert(char_at(src, i) matches Some(c) && is_word_part(c));
        lemma_word_run(src, i + 1, e);
    }
}

/// The bytes of an ASCII text are its characters, one byte each.
proof fn lemma_ascii_text(text: Seq<char>)
    requires
        is_ascii_chars(text),
    ensures
        encode_utf8(text).len() == text.len(),
        forall|i: int|
            0 <= i < text.len() ==> #[trigger] encode_utf8(text)[i] == text[i] as u8 && char_at(
                encode_utf8(text),
                i,
            ) == Some(text[i]),
        forall|i: int| i >= text.len() ==> #[trigger] char_at(encode_utf8(text), i) is None,
{
    is_ascii_chars_encode_utf8(text);
    let src = encode_utf8(text);
    assert forall|i: int| 0 <= i < src.len() implies src[i] < 0x80 by {
        assert(src[i] == text[i] as u8);
    }
    lemma_ascii(src);
    assert forall|i: int| 0 <= i < text.len() implies #[trigger] src[i] == text[i] as u8
        && char_at(src, i) == Some(text[i]) by {
        assert(src[i] == text[i] as u8);
        assert(char_at(src, i) == Some(src[i] as char));
    }
}

/// The source `module name;`.
pub open spec fn module_source(name: Seq<char>) -> Seq<u8> {
    encode_utf8("module "@ + name + ";"@)
}

/// The characters of `module name;`, byte by byte.
proof fn lemma_module_source(name: Seq<char>)
    requires
        is_identifier(name),
    ensures
        module_source(name).len() == name.len() + 8,
        char_at(module_source(name), 0) == Some('m'),
        forall|j: int|
            1 <= j < 6 ==> (#[trigger] char_at(module_source(name), j) matches Some(c)
                && is_word_part(c)),
        char_at(module_source(name), 6) == Some(' '),
        char_at(module_source(name), 7) == Some(name[0]),
        forall|j: int|
            8 <= j < 7 + name.len() as int ==> (#[trigger] char_at(
                module_source(name),
                j,
            ) matches Some(c) && is_word_part(c)),
        char_at(module_source(name), 7 + name.len() as int) == Some(';'),
        char_at(module_source(name), 8 + name.len() as int) is None,
        module_source(name).subrange(0, 6) == "module".spec_bytes(),
        module_source(name).subrange(7, 7 + name.len() as int) == encode_utf8(name),
{
    reveal_strlit("module ");
    reveal_strlit("module");
    reveal_strlit(";");
    let n = name.len() as int;
    let text = "module "@ + name + ";"@;
    let src = encode_utf8(text);
    assert(text.len() == n + 8);
    assert forall|i: int| 0 <= i < text.len() implies '\0' <= #[trigger] text[i] <= '\u{7f}' by {
        if 7 <= i < 7 + n {
            assert(text[i] == name[i - 7]);
            assert(is_word_part(name[i - 7]));
        }
    }
    lemma_ascii_text(text);
    assert forall|i: int| 0 <= i < n implies '\0' <= #[trigger] name[i] <= '\u{7f}' by {
        assert(is_word_part(name[i]));
    }
    lemma_ascii_text(name);
    lemma_ascii_text("module"@);
    assert(text[0] == 'm' && text[1] == 'o' && text[2] == 'd' && text[3] == 'u' && text[4] == 'l'
        && text[5] == 'e' && text[6] == ' ');
    assert(text[7] == name[0]);
    assert(text[7 + n] == ';');
    assert forall|j: int| 1 <= j < 6 implies (#[trigger] char_at(src, j) matches Some(c)
        && is_word_part(c)) by {
        assert(src[j] == text[j] as u8);
        assert(char_at(src, j) == Some(text[j]));
    }
    assert forall|j: int| 8 <= j < 7 + n implies (#[trigger] char_at(src, j) matches Some(c)
        && is_word_part(c)) by {
        assert(src[j] == text[j] as u8);
        assert(char_at(src, j) == Some(text[j]));
        assert(text[j] == name[j - 7]);
    }
    assert(src[0] == text[0] as u8);
    assert(src[6] == text[6] as u8);
    assert(src[7] == text[7] as u8);
    assert(src[7 + n] == text[7 + n] as u8);
    assert(src.subrange(0, 6) =~= "module".spec_bytes());
    assert(src.subrange(7, 7 + n) =~= encode_utf8(name)) by {
        assert forall|j: int| 0 <= j < n implies src.subrange(7, 7 + n)[j] == encode_utf8(
            name,
        )[j] by {
            assert(src[7 + j] == text[7 + j] as u8);
            assert(text[7 + j] == name[j]);
        }
    }
}

/// The tokens of `module name;`.
pub open spec fn module_tokens(name: Seq<char>) -> Seq<Token> {
    seq![
        Token { kind: TokenType::KwModule, slice: Str(0, 6) },
        Token { kind: TokenType::Identifier, slice: Str(7, name.len() as u32) },
        Token { kind: TokenType::Semicolon, slice: Str((7 + name.len() as int) as u32, 1) },
    ]
}

proof fn lemma_module_keyword(name: Seq<char>)
    requires
        is_identifier(name),
    ensures
        lex_at(module_source(name), 0) == LexStep::Token(module_tokens(name)[0], 6),
{
    let src = module_source(name);
    lemma_module_source(name);
    reveal(token_at);
    lemma_word_run(src, 1, 6);
}

proof fn lemma_module_name(name: Seq<char>)
    requires
        is_identifier(name),
    ensures
        lex_at(module_source(name), 6) == LexStep::Token(
            module_tokens(name)[1],
            7 + name.len() as int,
        ),
{
    let src = module_source(name);
    lemma_module_source(name);
    reveal(token_at);
    assert(space_end(src, 7) == 7);
    assert(space_end(src, 6) == 7);
    lemma_word_run(src, 8, 7 + name.len() as int);
}

proof fn lemma_module_semicolon(name: Seq<char>)
    requires
        is_identifier(name),
    ensures
        lex_at(module_source(name), 7 + name.len() as int) == LexStep::Token(
            module_tokens(name)[2],
            8 + name.len() as int,
        ),
        lex_at(module_source(name), 8 + name.len() as int) is End,
{
    lemma_module_source(name);
    reveal(token_at);
}

/// For every identifier `name`, the tokenizer reads `module name;` as the
/// keyword, the name and the semicolon.
pub proof fn lemma_module_stream(name: Seq<char>)
    requires
        is_identifier(name),
    ensures
        tokens_from(module_source(name), 0) == (Stream { toks: module_tokens(name), fail: None }),
{
    let src = module_source(name);
    let n = name.len() as int;
    lemma_module_keyword(name);
    lemma_module_name(name);
    lemma_module_semicolon(name);
    let s3 = tokens_from(src, 8 + n);
    let s2 = tokens_from(src, 7 + n);
    let s1 = tokens_from(src, 6);
    let s0 = tokens_from(src, 0);
    assert(s3 == Stream { toks: Seq::empty(), fail: None });
    assert(s2 == Stream::cons(module_tokens(name)[2], s3));
    assert(s1 == Stream::cons(module_tokens(name)[1], s2));
    assert(s0 == Stream::cons(module_tokens(name)[0], s1));
    assert(s0.toks =~= module_tokens(name));
}

/// A stream of `module`, a name and `;` parses to the tree that `root` holds
/// and one more module, named by the name's span and not public; nothing is
/// passed over.
pub proof fn lemma_module_item(s: Stream, root: Root)
    requires
        s.toks.len() == 3,
        s.toks[0].kind == TokenType::KwModule,
        s.toks[1].kind == TokenType::Identifier,
        s.toks[2].kind == TokenType::Semicolon,
        s.fail is None,
    ensures
        items(s, root) == Parsed::Done(
            Root {
                tree: root.tree.with_module(Module { name: s.toks[1].slice, public: false }),
                notes: root.notes,
            },
            3,
        ),
{
    reveal(top);
    let m = Module { name: s.toks[1].slice, public: false };
    let next = Root { tree: root.tree.with_module(m), notes: root.notes };
    assert(s.skip(1).toks[0] == s.toks[1]);
    assert(s.skip(1).skip(1).toks[0] == s.toks[2]);
    assert(module_decl(s.skip(1), false) == Parsed::Done(m, 2));
    assert(s.skip(3).toks.len() == 0);
    assert(items(s.skip(3), next) == Parsed::Done(next, 0));
    assert(top(s.skip(1), s.toks[0], root) == Parsed::Done(next, 2));
}

/// For every identifier `name`, the source `module name;` parses to a tree
/// that holds one module, named by the span of `name` and not public, and
/// nothing else; no token is passed over.
pub proof fn lemma_module_alone(name: Seq<char>)
    requires
        is_identifier(name),
    ensures
        parse_of(module_source(name)) == Parsed::Done(
            Root {
                tree: Tree::empty().with_module(
                    Module { name: Str(7, name.len() as u32), public: false },
                ),
                notes: Seq::empty(),
            },
            3,
        ),
        module_source(name).subrange(7, 7 + name.len() as int) == encode_utf8(name),
{
    lemma_module_source(name);
    lemma_module_stream(name);
    lemma_module_item(
        tokens_from(module_source(name), 0),
        Root { tree: Tree::empty(), notes: Seq::empty() },
    );
}

/// Whether a token of kind `kind` ends an operand that is a mere name: it
/// opens neither an argument list nor an access.
pub open spec fn ends_name(kind: TokenType) -> bool {
    kind != TokenType::LeftParen && kind != TokenType::Dot && kind != TokenType::LeftBracket
}

/// The tree of the name that the token `t` spells.
pub open spec fn name_of(t: Token) -> Expr {
    Expr::Access { name: t.slice }
}

/// Whether the stream begins with an identifier that is an operand by
/// itself.
pub open spec fn starts_with_name(s: Stream) -> bool {
    &&& s.toks.len() >= 2
    &&& s.toks[0].kind == TokenType::Identifier
    &&& ends_name(s.toks[1].kind)
}

/// An identifier that neither `(`, `.` nor `[` follows is an operand by
/// itself.
pub proof fn lemma_name_operand(s: Stream)
    requires
        starts_with_name(s),
    ensures
        unary(s) == Parsed::Done(name_of(s.toks[0]), 1),
{
    let t = s.toks[0];
    assert(s.skip(1).toks[0] == s.toks[1]);
    assert(access(s.skip(1), name_of(t)) == Parsed::Done(name_of(t), 0));
    assert(called(s.skip(1), name_of(t)) == Parsed::Done(name_of(t), 0));
}

/// Whether the stream begins with `k` binary operators, each with a name
/// behind it, and then a token that ends the expression.
pub open spec fn run(s: Stream, k: nat) -> bool
    decreases k,
{
    if k == 0 {
        s.toks.len() >= 1 && ends_name(s.toks[0].kind) && !s.toks[0].kind.binary()
    } else {
        &&& s.toks.len() >= 2
        &&& s.toks[0].kind.binary()
        &&& s.toks[1].kind == TokenType::Identifier
        &&& run(s.skip(2), (k - 1) as nat)
    }
}

/// The names behind the first `m` operators of a run, in source order.
pub open spec fn run_names(s: Stream, m: nat) -> Seq<Expr>
    decreases m,
{
    if m == 0 {
        Seq::empty()
    } else {
        seq![name_of(s.toks[1])] + run_names(s.skip(2), (m - 1) as nat)
    }
}

/// How tight the expression `e` holds together: the binding strength of
/// its operator, if it is a binary operation; more than any operator's,
/// if it is an operand.
pub open spec fn strength(e: Expr) -> nat {
    match e {
        Expr::BinaryOp { op, .. } => op.kind.level(),
        _ => 11,
    }
}

/// Whether the binary operations of `e` are nested by binding strength and
/// from the left: the left operand of each holds together at least as
/// tight as the operation, the right operand tighter. So no product has a
/// sum as an operand, and `a - b - c` is `(a - b) - c`.
pub open spec fn nested(e: Expr) -> bool
    decreases e,
{
    match e {
        Expr::BinaryOp { op, left, right } => {
            &&& nested(*left)
            &&& nested(*right)
            &&& strength(*left) >= op.kind.level()
            &&& strength(*right) > op.kind.level()
        },
        _ => true,
    }
}

/// The operands of the binary operations of `e`, from left to right.
pub open spec fn operands(e: Expr) -> Seq<Expr>
    decreases e,
{
    match e {
        Expr::BinaryOp { left, right, .. } => operands(*left) + operands(*right),
        _ => seq![e],
    }
}

proof fn lemma_run_names_split(s: Stream, a: nat, b: nat)
    ensures
        run_names(s, a + b) == run_names(s, a) + run_names(s.skip(2 * a), b),
    decreases a,
{
    if a == 0 {
        lemma_skip_none(s);
        assert(run_names(s, b) =~= run_names(s, 0) + run_names(s, b));
    } else {
        lemma_run_names_split(s.skip(2), (a - 1) as nat, b);
        lemma_skip_skip(s, 2, (2 * (a - 1)) as nat);
        assert(run_names(s, a + b) =~= run_names(s, a) + run_names(s.skip(2 * a), b));
    }
}

/// The first token of a run is a binary operator, or ends the expression;
/// either way it ends a name.
proof fn lemma_run_head(s: Stream, k: nat)
    requires
        run(s, k),
    ensures
        s.toks.len() >= 1,
        ends_name(s.toks[0].kind),
        k > 0 <==> s.toks[0].kind.binary(),
{
}

/// The operators of a run that bind tighter than `floor`, up to the first
/// that does not, fold onto `left` to a tree that is nested by binding
/// strength and from the left and has the operands in source order.
///
/// `left` must itself be nested and hold together tighter than `floor`,
/// and at least as tight as the first operator of the run binds.
pub proof fn lemma_run_nests(s: Stream, left: Expr, floor: nat, k: nat)
    requires
        run(s, k),
        nested(left),
        strength(left) > floor,
        k > 0 ==> s.toks[0].kind.level() <= strength(left),
    ensures
        binary(s, left, floor) matches Parsed::Done(e, n) && ({
            let m = n / 2;
            &&& n == 2 * m
            &&& m <= k
            &&& nested(e)
            &&& strength(e) > floor
            &&& operands(e) == operands(left) + run_names(s, m)
            &&& run(s.skip(n), (k - m) as nat)
            &&& m < k ==> s.skip(n).toks[0].kind.level() <= floor
        }),
    decreases k,
{
    lemma_skip_none(s);
    lemma_run_head(s, k);
    let op = s.toks[0];
    if k == 0 || op.kind.level() <= floor {
        assert(binary(s, left, floor) == Parsed::Done(left, 0));
        assert(operands(left) + run_names(s, 0) =~= operands(left));
    } else {
        let name = name_of(s.toks[1]);
        let level = op.kind.level();
        let k1 = (k - 1) as nat;
        lemma_run_head(s.skip(2), k1);
        lemma_skip_skip(s, 1, 1);
        assert(s.skip(1).toks[0] == s.toks[1]);
        assert(s.skip(1).toks[1] == s.skip(2).toks[0]);
        lemma_name_operand(s.skip(1));
        assert(unary(s.skip(1)) == Parsed::Done(name, 1));
        // The operators that bind tighter than `op` go to its right operand.
        lemma_run_nests(s.skip(2), name, level, k1);
        let right = binary(s.skip(2), name, level)->Done_0;
        let n1 = binary(s.skip(2), name, level)->Done_1;
        let m1 = n1 / 2;
        lemma_skip_skip(s, 2, n1);
        let s2 = s.skip(2 + n1);
        let folded = binary_of(op, left, right);
        assert(nested(folded));
        // What follows binds no tighter than `op` and goes on from the fold.
        let k2 = (k1 - m1) as nat;
        lemma_run_nests(s2, folded, floor, k2);
        let e = binary(s2, folded, floor)->Done_0;
        let n2 = binary(s2, folded, floor)->Done_1;
        let m2 = n2 / 2;
        lemma_skip_skip(s, 2 + n1, n2);
        assert(binary(s, left, floor) == Parsed::Done(e, 2 + n1 + n2));
        assert(operands(e) == operands(left) + run_names(s, 1 + m1 + m2)) by {
            lemma_run_names_split(s.skip(2), m1, m2);
            lemma_skip_skip(s, 2, 2 * m1);
            assert(operands(name) =~= seq![name]);
            assert(operands(folded) == operands(left) + operands(right));
            assert(run_names(s, 1 + m1 + m2) == seq![name] + run_names(s.skip(2), m1 + m2));
            assert(operands(left) + (seq![name] + run_names(s.skip(2), m1)) + run_names(s2, m2)
                =~= operands(left) + (seq![name] + (run_names(s.skip(2), m1) + run_names(
                s2,
                m2,
            ))));
        }
    }
}

/// An expression of names and binary operators is read as a tree that is
/// nested by binding strength and from the left, with the names as its
/// operands in source order, whatever the number of operators. So in
/// `a + b * c - d` the product is an operand of the first sum, which is an
/// operand of the difference.
pub proof fn lemma_operators_nest(s: Stream, k: nat)
    requires
        s.toks.len() >= 1,
        s.toks[0].kind == TokenType::Identifier,
        run(s.skip(1), k),
    ensures
        expr(s) matches Parsed::Done(e, n) && n == 2 * k + 1 && nested(e) && operands(e)
            == seq![name_of(s.toks[0])] + run_names(s.skip(1), k),
{
    let name = name_of(s.toks[0]);
    lemma_run_head(s.skip(1), k);
    assert(s.skip(1).toks[0] == s.toks[1]);
    lemma_name_operand(s);
    lemma_run_nests(s.skip(1), name, 0, k);
    let n = binary(s.skip(1), name, 0)->Done_1;
    lemma_run_head(s.skip(1).skip(n), (k - n / 2) as nat);
    assert(operands(name) =~= seq![name]);
}

/// Whether `e` is a sum.
pub open spec fn is_sum(e: Expr) -> bool {
    e matches Expr::BinaryOp { op, .. } && op.kind == TokenType::Plus
}

/// Whether no product among the binary operations of `e` has a sum as an
/// operand.
pub open spec fn products_hold_no_sums(e: Expr) -> bool
    decreases e,
{
    match e {
        Expr::BinaryOp { op, left, right } => {
            &&& products_hold_no_sums(*left)
            &&& products_hold_no_sums(*right)
            &&& op.kind == TokenType::Star ==> !is_sum(*left) && !is_sum(*right)
        },
        _ => true,
    }
}

/// In a tree that is nested by binding strength no product has a sum as
/// an operand. With `lemma_operators_nest` this holds of every expression
/// of names, `+` and `*`, however long.
pub proof fn lemma_products_hold_no_sums(e: Expr)
    requires
        nested(e),
    ensures
        products_hold_no_sums(e),
    decreases e,
{
    match e {
        Expr::BinaryOp { op, left, right } => {
            lemma_products_hold_no_sums(*left);
            lemma_products_hold_no_sums(*right);
        },
        _ => {},
    }
}

/// The name at `j` of `s`, with a token behind it that ends a name, is an
/// operand by itself.
proof fn lemma_operand_at(s: Stream, j: nat)
    requires
        j + 1 < s.toks.len(),
        s.toks[j as int].kind == TokenType::Identifier,
        ends_name(s.toks[j as int + 1].kind),
    ensures
        unary(s.skip(j)) == Parsed::Done(name_of(s.toks[j as int]), 1),
        look(s.skip(j + 1)) == Parsed::Done(s.toks[j as int + 1], 0),
{
    assert(s.skip(j).toks[0] == s.toks[j as int]);
    assert(s.skip(j).toks[1] == s.toks[j as int + 1]);
    assert(s.skip(j + 1).toks[0] == s.toks[j as int + 1]);
    lemma_name_operand(s.skip(j));
}

/// Whether the stream is `a p b q c` and a token that ends the expression,
/// where `a`, `b` and `c` are names and `p` and `q` binary operators.
pub open spec fn two_operators(s: Stream) -> bool {
    &&& s.toks.len() >= 6
    &&& s.toks[0].kind == TokenType::Identifier
    &&& s.toks[1].kind.binary()
    &&& s.toks[2].kind == TokenType::Identifier
    &&& s.toks[3].kind.binary()
    &&& s.toks[4].kind == TokenType::Identifier
    &&& ends_name(s.toks[5].kind)
    &&& !s.toks[5].kind.binary()
}

/// Whether the stream is `a p b q c r d` and a token that ends the
/// expression, where `a` to `d` are names and `p`, `q` and `r` binary
/// operators.
pub open spec fn three_operators(s: Stream) -> bool {
    &&& s.toks.len() >= 8
    &&& s.toks[0].kind == TokenType::Identifier
    &&& s.toks[1].kind.binary()
    &&& s.toks[2].kind == TokenType::Identifier
    &&& s.toks[3].kind.binary()
    &&& s.toks[4].kind == TokenType::Identifier
    &&& s.toks[5].kind.binary()
    &&& s.toks[6].kind == TokenType::Identifier
    &&& ends_name(s.toks[7].kind)
    &&& !s.toks[7].kind.binary()
}

/// In `a p b q c`, an operator `q` that binds tighter than `p` takes `b`:
/// the tree is `a p (b q c)`. So `a + b * c` is the sum of `a` and the
/// product.
pub proof fn lemma_tighter_operator_binds_first(s: Stream)
    requires
        two_operators(s),
        s.toks[1].kind.level() < s.toks[3].kind.level(),
    ensures
        expr(s) == Parsed::Done(
            binary_of(
                s.toks[1],
                name_of(s.toks[0]),
                binary_of(s.toks[3], name_of(s.toks[2]), name_of(s.toks[4])),
            ),
            5,
        ),
{
    lemma_operand_at(s, 0);
    lemma_operand_at(s, 2);
    lemma_operand_at(s, 4);
    lemma_skip_none(s);
    lemma_skip_skip(s, 1, 1);
    lemma_skip_skip(s, 1, 2);
    lemma_skip_skip(s, 3, 1);
    lemma_skip_skip(s, 3, 2);
    lemma_skip_skip(s, 1, 4);
    let p = s.toks[1];
    let q = s.toks[3];
    let a = name_of(s.toks[0]);
    let b = name_of(s.toks[2]);
    let c = name_of(s.toks[4]);
    let bc = binary_of(q, b, c);
    assert(binary(s.skip(5), c, q.kind.level()) == Parsed::Done(c, 0));
    assert(binary(s.skip(5), bc, p.kind.level()) == Parsed::Done(bc, 0));
    assert(binary(s.skip(3), b, p.kind.level()) == Parsed::Done(bc, 2));
    assert(binary(s.skip(5), binary_of(p, a, bc), 0) == Parsed::Done(binary_of(p, a, bc), 0));
    assert(binary(s.skip(1), a, 0) == Parsed::Done(binary_of(p, a, bc), 4));
}

/// In `a p b q c`, an operator `q` that binds no tighter than `p` leaves
/// `b` to `p`: the tree is `(a p b) q c`. So `a * b + c` is the sum of the
/// product and `c`, and `a - b - c` is `(a - b) - c`.
pub proof fn lemma_looser_operator_binds_last(s: Stream)
    requires
        two_operators(s),
        s.toks[1].kind.level() >= s.toks[3].kind.level(),
    ensures
        expr(s) == Parsed::Done(
            binary_of(
                s.toks[3],
                binary_of(s.toks[1], name_of(s.toks[0]), name_of(s.toks[2])),
                name_of(s.toks[4]),
            ),
            5,
        ),
{
    lemma_operand_at(s, 0);
    lemma_operand_at(s, 2);
    lemma_operand_at(s, 4);
    lemma_skip_none(s);
    lemma_skip_skip(s, 1, 1);
    lemma_skip_skip(s, 1, 2);
    lemma_skip_skip(s, 3, 1);
    lemma_skip_skip(s, 3, 2);
    lemma_skip_skip(s, 1, 4);
    let p = s.toks[1];
    let q = s.toks[3];
    let a = name_of(s.toks[0]);
    let b = name_of(s.toks[2]);
    let c = name_of(s.toks[4]);
    let ab = binary_of(p, a, b);
    let abc = binary_of(q, ab, c);
    assert(binary(s.skip(3), b, p.kind.level()) == Parsed::Done(b, 0));
    assert(binary(s.skip(5), c, q.kind.level()) == Parsed::Done(c, 0));
    assert(binary(s.skip(5), abc, 0) == Parsed::Done(abc, 0));
    assert(binary(s.skip(3), ab, 0) == Parsed::Done(abc, 2));
    assert(binary(s.skip(1), a, 0) == Parsed::Done(abc, 4));
}

/// In `a p b q c r d`, where `q` binds tighter than `p` and `r` no tighter
/// than `p`, the operator `q` takes `b` and `c` and nothing more: the tree
/// is `(a p (b q c)) r d`. So `a - b * c - d` is the difference of
/// `a - b * c` and `d`.
pub proof fn lemma_tighter_operator_ends_at_looser(s: Stream)
    requires
        three_operators(s),
        s.toks[1].kind.level() < s.toks[3].kind.level(),
        s.toks[5].kind.level() <= s.toks[1].kind.level(),
    ensures
        expr(s) == Parsed::Done(
            binary_of(
                s.toks[5],
                binary_of(
                    s.toks[1],
                    name_of(s.toks[0]),
                    binary_of(s.toks[3], name_of(s.toks[2]), name_of(s.toks[4])),
                ),
                name_of(s.toks[6]),
            ),
            7,
        ),
{
    lemma_operand_at(s, 0);
    lemma_operand_at(s, 2);
    lemma_operand_at(s, 4);
    lemma_operand_at(s, 6);
    lemma_skip_none(s);
    lemma_skip_skip(s, 1, 1);
    lemma_skip_skip(s, 1, 2);
    lemma_skip_skip(s, 3, 1);
    lemma_skip_skip(s, 3, 2);
    lemma_skip_skip(s, 1, 4);
    lemma_skip_skip(s, 5, 1);
    lemma_skip_skip(s, 5, 2);
    lemma_skip_skip(s, 1, 6);
    let p = s.toks[1];
    let q = s.toks[3];
    let r = s.toks[5];
    let a = name_of(s.toks[0]);
    let b = name_of(s.toks[2]);
    let c = name_of(s.toks[4]);
    let d = name_of(s.toks[6]);
    let bc = binary_of(q, b, c);
    let abc = binary_of(p, a, bc);
    let all = binary_of(r, abc, d);
    assert(binary(s.skip(5), c, q.kind.level()) == Parsed::Done(c, 0));
    assert(binary(s.skip(5), bc, p.kind.level()) == Parsed::Done(bc, 0));
    assert(binary(s.skip(3), b, p.kind.level()) == Parsed::Done(bc, 2));
    assert(binary(s.skip(7), d, r.kind.level()) == Parsed::Done(d, 0));
    assert(binary(s.skip(7), all, 0) == Parsed::Done(all, 0));
    assert(binary(s.skip(5), abc, 0) == Parsed::Done(all, 2));
    assert(binary(s.skip(1), a, 0) == Parsed::Done(all, 6));
}

/// Two parsers that start with the same tokens before them and the same
/// tree and notes end with the same outcome, and with the same tree and
/// the same notes, whether the parse succeeds or fails: `parse` has no
/// state but the parser's own. In particular two fresh parsers over one
/// buffer return the same and build the same tree.
pub proof fn lemma_reparse(
    a: Parser,
    a_end: Parser,
    ra: Result<(), Error>,
    b: Parser,
    b_end: Parser,
    rb: Result<(), Error>,
)
    requires
        a.stream() == b.stream(),
        a.root() == b.root(),
        parsed(a, a_end, ra),
        parsed(b, b_end, rb),
    ensures
        ra == rb,
        a_end.ast@ == b_end.ast@,
        a_end.errors@ == b_end.errors@,
{
    match ra {
        Ok(u) => {
            assert(rb is Ok);
            assert(rb->Ok_0 == u);
        },
        Err(e) => {
            assert(rb == Err::<(), Error>(e));
        },
    }
}

/// What a parse of the source `src` from its start with a fresh parser
/// leaves behind: the whole tree, or what was gathered before the item in
/// which the parse failed.
pub open spec fn left_of(src: Seq<u8>) -> Root {
    reached(tokens_from(src, 0), Root { tree: Tree::empty(), notes: Seq::empty() })
}

/// A fresh parser over the source `src` returns what `parse_of(src)` says
/// and is left with the tree and the notes of `left_of(src)`, which on
/// success are those that `parse_of(src)` yields.
pub proof fn lemma_parse_fresh(p: Parser, p_end: Parser, r: Result<(), Error>, src: Seq<u8>)
    requires
        p.stream() == tokens_from(src, 0),
        p.ast@ == Tree::empty(),
        p.errors@ == Seq::<Error>::empty(),
        parsed(p, p_end, r),
    ensures
        p_end.ast@ == left_of(src).tree,
        p_end.errors@ == left_of(src).notes,
        match parse_of(src) {
            Parsed::Done(root, _) => r is Ok && left_of(src) == root,
            Parsed::Fail(e) => r == Err::<(), Error>(e),
        },
{
}

} // verus!

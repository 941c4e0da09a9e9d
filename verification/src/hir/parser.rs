//! The parser: recursive descent over the tokens of one source, with one
//! token of lookahead.

use std::rc::Rc;
use vstd::prelude::*;
use vstd::string::StringSliceAdditionalSpecFns;
use crate::error::Error;
use crate::hir::grammar::{
    access, added, args, args_rest, assign_rest, bare, binary, binary_of, block, block_rest,
    body, call_of, called, const_decl, decl_head, else_chain, enum_decl, enum_rest, expr,
    expr_statement, field, fields_rest, for_rest, fun_item, function, funs_rest, group_rest,
    guarded, if_rest, impl_decl, import, import_decl, import_group, item, items,
    lemma_reached, lemma_statement_reads, look, module_decl, opt, opt_expr, opt_ty, params,
    params_rest, path_rest, pointee, reached, return_rest, self_opt, starts_operand,
    statement, struct_decl, struct_rest, take, top, trait_decl, tuple_rest, ty, unary,
    var_decl, variant, want, Parsed, Root,
};
use crate::hir::tree::{
    lemma_spans_join, lemma_spans_push, lemma_views_empty, lemma_views_join, lemma_views_push,
    view_opt, views, Const, Decl, Expr, Func, Impl, Module, Spans, Tree, Ty,
};
use crate::hir::{
    Hir, HirBlock, HirConst, HirEnumVariant, HirExpression, HirFunction, HirFunctionParam,
    HirImpl, HirImport, HirModule, HirPath, HirStatement, HirStructField, HirType, HirTypeDecl,
};
use crate::lexer::Lexer;
use crate::scan::{
    lemma_cons_head, lemma_cons_skip, lemma_lex_at_end, lemma_skip_none, lemma_skip_skip,
    lex_at, rest_of, spans_text, tokens_from, Stream,
};
use crate::span::Str;
use crate::token::{Token, TokenType};

verus! {

/// The parser's state: the tokenizer, the tree under construction, and the
/// token that was looked at but not yet read.
pub struct Parser {
    /// Notes on the tokens that were passed over at the top level: an
    /// `UnexpectedToken` for each, in source order.
    pub errors: Vec<Error>,
    /// The tokenizer, which holds the source.
    pub lex: Lexer,
    /// The tree built so far.
    pub ast: Hir,
    /// The token that was looked at and is read next, if there is one.
    pub peek_buf: Option<Token>,
}

/// Whether the span that `e` carries, if it carries one, denotes text of
/// `src`.
pub open spec fn error_in(src: Seq<u8>, e: Error) -> bool {
    e.span() matches Some(s) ==> spans_text(src, s)
}

/// The source and the notes are those of `pre`, and `post` is well formed
/// if `pre` is.
pub open spec fn kept(pre: Parser, post: Parser) -> bool {
    &&& post.lex.src() == pre.lex.src()
    &&& post.errors@ == pre.errors@
    &&& pre.wf() ==> post.wf()
}

/// An error that a well-formed parser returns carries no span but one that
/// denotes text of the source.
pub open spec fn sound<T>(pre: Parser, r: Result<T, Error>) -> bool {
    pre.wf() ==> match r {
        Ok(_) => true,
        Err(e) => error_in(pre.lex.src(), e),
    }
}

/// A token that a well-formed parser returns has a span that denotes text
/// of the source.
pub open spec fn sound_token(pre: Parser, r: Result<Token, Error>) -> bool {
    pre.wf() ==> match r {
        Ok(t) => spans_text(pre.lex.src(), t.slice),
        Err(_) => true,
    }
}

/// `post` is `pre` behind `n` more tokens, with the same tree.
pub open spec fn moved(pre: Parser, post: Parser, n: nat) -> bool {
    &&& kept(pre, post)
    &&& post.ast == pre.ast
    &&& post.stream() == pre.stream().skip(n)
}

/// The call that led from `pre` to `post` found the input at its end, and
/// left it there: no token lay before `pre`, no lexical error ended the
/// stream, and `post` stands where `pre` stood.
pub open spec fn at_end(pre: Parser, post: Parser) -> bool {
    pre.stream().toks.len() == 0 && pre.stream().fail is None ==> post.stream() == pre.stream()
        && post.ast == pre.ast
}

/// The call that led from `pre` to `post` ran into the lexical error
/// that ends the stream, and left the tokenizer where it stopped for the
/// error: no token lay before `pre`, and `post` has looked at none.
pub open spec fn at_error(pre: Parser, post: Parser) -> bool {
    pre.stream().toks.len() == 0 && pre.stream().fail is Some ==> post.peek_buf is None
        && post.lex.pos() == rest_of(lex_at(pre.lex.src(), pre.lex.pos())) && post.ast == pre.ast
}

/// The call that led from `pre` to `post` and returned `r` read what the
/// production `p` reads, and returned what `p` yields; or it failed with
/// the error of `p` and left the tree as it was.
pub open spec fn read<T>(pre: Parser, post: Parser, r: Result<T, Error>, p: Parsed<T>) -> bool {
    match p {
        Parsed::Done(v, n) => r == Ok::<T, Error>(v) && moved(pre, post, n),
        Parsed::Fail(e) => r == Err::<T, Error>(e) && post.ast == pre.ast,
    }
}

/// The call that led from `pre` to `post` and returned `r` read what the
/// production `p` reads, and built the tree that `p` yields. If `pre` is
/// well formed and `given` holds, which says as much of the trees that were
/// handed in, every span of the tree denotes text of the source.
pub open spec fn built_on<T: View>(
    pre: Parser,
    post: Parser,
    r: Result<T, Error>,
    p: Parsed<T::V>,
    given: bool,
) -> bool where T::V: Spans {
    match p {
        Parsed::Done(v, n) => {
            &&& r is Ok
            &&& r->Ok_0@ == v
            &&& moved(pre, post, n)
            &&& pre.wf() && given ==> v.spans_in(pre.lex.src())
        },
        Parsed::Fail(e) => r is Err && r->Err_0 == e && post.ast == pre.ast,
    }
}

/// The call that led from `pre` to `post` and returned `r` read what the
/// production `p` reads, and built the tree that `p` yields. If `pre` is
/// well formed, every span of the tree denotes text of the source.
pub open spec fn built<T: View>(
    pre: Parser,
    post: Parser,
    r: Result<T, Error>,
    p: Parsed<T::V>,
) -> bool where T::V: Spans {
    built_on(pre, post, r, p, true)
}

/// The call that led from `pre` to `post` and returned `r` read what the
/// production `p` reads, and built the trees that `p` yields.
pub open spec fn built_all<T: View>(
    pre: Parser,
    post: Parser,
    r: Result<Vec<T>, Error>,
    p: Parsed<Seq<T::V>>,
) -> bool where T::V: Spans {
    match p {
        Parsed::Done(v, n) => {
            &&& r is Ok
            &&& views(r->Ok_0@) == v
            &&& moved(pre, post, n)
            &&& pre.wf() ==> v.spans_in(pre.lex.src())
        },
        Parsed::Fail(e) => r is Err && r->Err_0 == e && post.ast == pre.ast,
    }
}

/// The call that led from `pre` to `post` and returned `r` read what the
/// production `p` reads, and built the tree that `p` yields, if it yields
/// one.
pub open spec fn built_opt<T: View>(
    pre: Parser,
    post: Parser,
    r: Result<Option<T>, Error>,
    p: Parsed<Option<T::V>>,
) -> bool where T::V: Spans {
    match p {
        Parsed::Done(v, n) => {
            &&& r is Ok
            &&& view_opt(r->Ok_0) == v
            &&& moved(pre, post, n)
            &&& pre.wf() ==> v.spans_in(pre.lex.src())
        },
        Parsed::Fail(e) => r is Err && r->Err_0 == e && post.ast == pre.ast,
    }
}

/// The call that led from `pre` to `post` and returned `r` read what the
/// production `p` reads, and left the tree that `p` yields.
pub open spec fn grown(pre: Parser, post: Parser, r: Result<(), Error>, p: Parsed<Tree>) -> bool {
    match p {
        Parsed::Done(t, n) => {
            &&& r is Ok
            &&& post.ast@ == t
            &&& post.stream() == pre.stream().skip(n)
            &&& pre.wf() && pre.ast@.spans_in(pre.lex.src()) ==> t.spans_in(pre.lex.src())
        },
        Parsed::Fail(e) => r is Err && r->Err_0 == e && post.ast == pre.ast,
    }
}

/// The call of `parse` that led from `pre` to `post` and returned `r` read
/// the whole stream that lay before `pre`, and added to the tree and to the
/// notes of `pre` what the grammar says; or it stopped with the grammar's
/// error, and left the tree and the notes as they were before the item in
/// which it failed.
pub open spec fn parsed(pre: Parser, post: Parser, r: Result<(), Error>) -> bool {
    &&& post.lex.src() == pre.lex.src()
    &&& post.root() == reached(pre.stream(), pre.root())
    &&& match items(pre.stream(), pre.root()) {
        Parsed::Done(root, n) => r is Ok && post.root() == root && post.stream()
            == pre.stream().skip(n),
        Parsed::Fail(e) => r is Err && r->Err_0 == e,
    }
}

/// The models of a list with one element more, and their spans.
proof fn lemma_push_spans<T: View>(list: Seq<T>, x: T, src: Seq<u8>) where T::V: Spans
    ensures
        views(list.push(x)) == views(list).push(x@),
        views(list).spans_in(src) && x@.spans_in(src) ==> views(list.push(x)).spans_in(src),
{
    lemma_views_push(list, x);
    if views(list).spans_in(src) && x@.spans_in(src) {
        lemma_spans_push(views(list), x@, src);
    }
}

/// A copy of `names`.
fn copy_names(names: &Vec<Str>) -> (r: Vec<Str>)
    ensures
        r@ == names@,
{
    let mut r: Vec<Str> = Vec::with_capacity(names.len());
    let mut i: usize = 0;
    while i < names.len()
        invariant
            i <= names@.len(),
            r@ == names@.subrange(0, i as int),
        decreases names@.len() - i,
    {
        r.push(names[i]);
        proof {
            assert(names@.subrange(0, i as int).push(names@[i as int]) =~= names@.subrange(
                0,
                i + 1,
            ));
        }
        i += 1;
    }
    proof {
        assert(names@.subrange(0, names@.len() as int) =~= names@);
    }
    r
}

/// A block is the trees of its statements.
pub proof fn lemma_block_view(statements: Vec<HirStatement>)
    ensures
        (HirBlock { statements })@ == views(statements@),
{
    assert((HirBlock { statements })@ =~= views(statements@));
}

/// Builds the block of `statements`.
fn block_of(statements: Vec<HirStatement>) -> (r: HirBlock)
    ensures
        r@ == views(statements@),
{
    proof {
        lemma_block_view(statements);
    }
    HirBlock { statements }
}

/// A call is the tree of its callee and the trees of its arguments.
pub proof fn lemma_call_view(callee: HirExpression, list: Vec<HirExpression>)
    ensures
        (HirExpression::Call { expr: Box::new(callee), args: list })@ == call_of(
            callee@,
            views(list@),
        ),
{
    let e = HirExpression::Call { expr: Box::new(callee), args: list };
    assert(e@ matches Expr::Call { args, .. } && args =~= views(list@));
}

/// Builds the call of `callee` on `list`.
fn apply_call(callee: HirExpression, list: Vec<HirExpression>) -> (r: HirExpression)
    ensures
        r@ == call_of(callee@, views(list@)),
{
    proof {
        lemma_call_view(callee, list);
    }
    HirExpression::Call { expr: Box::new(callee), args: list }
}

/// Builds `op arg`.
pub fn apply_unary(op: Token, arg: HirExpression) -> (r: HirExpression)
    ensures
        r@ == (Expr::UnaryOp { op, arg: Box::new(arg@) }),
{
    HirExpression::UnaryOp { op, arg: Box::new(arg) }
}

/// Builds `lhs op rhs`.
pub fn apply_binary(op: Token, lhs: HirExpression, rhs: HirExpression) -> (r: HirExpression)
    ensures
        r@ == binary_of(op, lhs@, rhs@),
{
    HirExpression::BinaryOp { op, args: Box::new((lhs, rhs)) }
}

impl Parser {
    /// The tokens that lie before the parser: the token looked at, if there
    /// is one, and then what the tokenizer yields.
    pub open spec fn stream(&self) -> Stream {
        let rest = tokens_from(self.lex.src(), self.lex.pos());
        match self.peek_buf {
            Some(t) => Stream::cons(t, rest),
            None => rest,
        }
    }

    /// The token looked at, if there is one, has a span that denotes text of
    /// the source. A parser is well formed unless a token of another source
    /// is put into `peek_buf`.
    pub open spec fn wf(&self) -> bool {
        self.peek_buf matches Some(t) ==> self.lex.holds(t.slice)
    }

    /// The notes carry no spans but ones that denote text of the source.
    pub open spec fn notes_ok(&self) -> bool {
        forall|i: int|
            0 <= i < self.errors@.len() ==> error_in(self.lex.src(), #[trigger] self.errors@[i])
    }

    /// What the parser has gathered so far.
    pub open spec fn root(&self) -> Root {
        Root { tree: self.ast@, notes: self.errors@ }
    }

    /// A parser at the start of `source`, with an empty tree. The buffer is
    /// shared, not copied; it must not be longer than a span can address.
    pub fn new(source: Rc<str>) -> (r: Self)
        requires
            source.spec_bytes().len() <= u32::MAX,
        ensures
            r.peek_buf is None,
            r.lex.pos() == 0,
            r.stream() == tokens_from(source.spec_bytes(), 0),
            r.lex.src() == source.spec_bytes(),
            r.ast@ == Tree::empty(),
            r.errors@ == Seq::<Error>::empty(),
            r.wf(),
            r.notes_ok(),
            r.ast@.spans_in(r.lex.src()),
    {
        Self {
            errors: Vec::with_capacity(0),
            lex: Lexer::new(source),
            ast: Hir::default(),
            peek_buf: None,
        }
    }

    /// Reads the next token, if the stream has one.
    fn advance(&mut self) -> (r: Result<Option<Token>, Error>)
        ensures
            kept(*old(self), *final(self)),
            sound(*old(self), r),
            final(self).ast == old(self).ast,
            final(self).peek_buf is None,
            at_error(*old(self), *final(self)),
            old(self).wf() ==> (r matches Ok(Some(t)) ==> old(self).lex.holds(t.slice)),
            match r {
                Ok(Some(t)) => take(old(self).stream()) == Parsed::Done(t, 1)
                    && final(self).stream() == old(self).stream().skip(1),
                Ok(None) => old(self).stream() == (Stream { toks: Seq::empty(), fail: None })
                    && final(self).stream() == old(self).stream(),
                Err(e) => old(self).stream() == (Stream { toks: Seq::empty(), fail: Some(e) }),
            },
    {
        let buf = self.peek_buf;
        match buf {
            Some(tok) => {
                self.peek_buf = None;
                proof {
                    lemma_cons_skip(tok, self.stream());
                }
                Ok(Some(tok))
            },
            None => {
                let r = self.lex.next_token();
                proof {
                    match r {
                        Ok(Some(tok)) => {
                            lemma_cons_skip(tok, self.stream());
                        },
                        Ok(None) => {
                            lemma_lex_at_end(old(self).lex.src(), old(self).lex.pos());
                        },
                        Err(_) => {},
                    }
                }
                r
            },
        }
    }

    /// Reads the next token and requires it to be of kind `token_type`.
    pub fn expect(&mut self, token_type: TokenType) -> (r: Result<Token, Error>)
        ensures
            kept(*old(self), *final(self)),
            sound(*old(self), r),
            sound_token(*old(self), r),
            read(*old(self), *final(self), r, want(old(self).stream(), token_type)),
            at_end(*old(self), *final(self)),
            at_error(*old(self), *final(self)),
            final(self).peek_buf is None,
            old(self).stream().toks.len() > 0 ==> final(self).stream() == old(self).stream().skip(1)
                && final(self).ast == old(self).ast,
    {
        let tok = self.expect_one()?;
        if tok.kind != token_type {
            return Err(Error::UnexpectedToken(tok.slice));
        }
        Ok(tok)
    }

    /// Reads the next token.
    pub fn expect_one(&mut self) -> (r: Result<Token, Error>)
        ensures
            kept(*old(self), *final(self)),
            sound(*old(self), r),
            sound_token(*old(self), r),
            read(*old(self), *final(self), r, take(old(self).stream())),
            at_end(*old(self), *final(self)),
            at_error(*old(self), *final(self)),
            final(self).peek_buf is None,
    {
        match self.advance()? {
            Some(tok) => Ok(tok),
            None => Err(Error::UnexpectedEof),
        }
    }

    /// Looks at the next token without reading it.
    pub fn peek(&mut self) -> (r: Result<Token, Error>)
        ensures
            kept(*old(self), *final(self)),
            sound(*old(self), r),
            sound_token(*old(self), r),
            read(*old(self), *final(self), r, look(old(self).stream())),
            at_end(*old(self), *final(self)),
            at_error(*old(self), *final(self)),
            r matches Ok(t) ==> final(self).peek_buf == Some(t),
    {
        if let Some(tok) = self.peek_buf {
            proof {
                lemma_cons_skip(tok, tokens_from(self.lex.src(), self.lex.pos()));
            }
            return Ok(tok);
        }
        match self.advance()? {
            Some(tok) => {
                self.peek_buf = Some(tok);
                proof {
                    lemma_cons_head(old(self).stream());
                    lemma_skip_none(old(self).stream());
                }
                Ok(tok)
            },
            None => Err(Error::UnexpectedEof),
        }
    }

    /// Reads the next token if it is of kind `token_type`.
    pub fn maybe(&mut self, token_type: TokenType) -> (r: Result<Option<Token>, Error>)
        ensures
            kept(*old(self), *final(self)),
            sound(*old(self), r),
            read(*old(self), *final(self), r, opt(old(self).stream(), token_type)),
            at_end(*old(self), *final(self)),
            at_error(*old(self), *final(self)),
            old(self).wf() ==> (r matches Ok(Some(t)) ==> old(self).lex.holds(t.slice)),
            r matches Ok(Some(_)) ==> final(self).peek_buf is None,
            r matches Ok(None) ==> final(self).peek_buf == Some(old(self).stream().toks[0]),
    {
        let tok = self.peek()?;
        proof {
            lemma_skip_none(old(self).stream());
        }
        if tok.kind == token_type {
            self.expect_one()?;
            Ok(Some(tok))
        } else {
            Ok(None)
        }
    }

    /// Reads `self` where a reference may wrap it.
    #[verifier::rlimit(60)]
    fn parse_self_opt(&mut self, depth: usize) -> (r: Result<bool, Error>)
        ensures
            kept(*old(self), *final(self)),
            sound(*old(self), r),
            read(*old(self), *final(self), r, self_opt(old(self).stream(), depth == 0)),
    {
        if depth == 0 {
            Ok(self.maybe(TokenType::KwSelf)?.is_some())
        } else {
            proof {
                lemma_skip_none(self.stream());
            }
            Ok(false)
        }
    }

    /// Reads what follows the `*` of a reference.
    #[verifier::rlimit(60)]
    fn parse_pointee(&mut self, depth: usize) -> (r: Result<HirType, Error>)
        ensures
            kept(*old(self), *final(self)),
            sound(*old(self), r),
            built(*old(self), *final(self), r, pointee(old(self).stream(), depth == 0)),
        decreases old(self).stream().toks.len(), 1nat,
    {
        let ghost s0 = self.stream();
        let deeper: usize = if depth < usize::MAX {
            depth + 1
        } else {
            depth
        };
        let target = HirType::SelfType;
        assert(target@ == Ty::SelfType);
        assert(target@.within(self.lex.src()));
        if self.parse_self_opt(depth)? {
            return Ok(HirType::Reference { ty: Box::new(target) });
        }
        proof {
            lemma_skip_none(s0);
        }
        if self.maybe(TokenType::KwConst)?.is_some() {
            if self.parse_self_opt(depth)? {
                proof {
                    lemma_skip_skip(s0, 1, 1);
                }
                return Ok(HirType::ConstReference { ty: Box::new(target) });
            }
            proof {
                lemma_skip_none(s0.skip(1));
            }
            let inner = self.parse_type(deeper)?;
            proof {
                lemma_skip_skip(s0, 1, ty(s0.skip(1), false)->Done_1);
            }
            return Ok(HirType::ConstReference { ty: Box::new(inner) });
        }
        proof {
            lemma_skip_none(s0);
        }
        let inner = self.parse_type(deeper)?;
        Ok(HirType::Reference { ty: Box::new(inner) })
    }

    /// Reads the rest of a dotted path that began with `base`.
    #[verifier::rlimit(60)]
    fn parse_path_rest(&mut self, base: Str) -> (r: Result<HirPath, Error>)
        ensures
            kept(*old(self), *final(self)),
            sound(*old(self), r),
            built_on(
                *old(self),
                *final(self),
                r,
                path_rest(old(self).stream(), seq![base]),
                spans_text(old(self).lex.src(), base),
            ),
    {
        let ghost s0 = self.stream();
        let mut parts: Vec<Str> = Vec::new();
        parts.push(base);
        let ghost mut k: nat = 0;
        proof {
            assert(parts@ =~= seq![base]);
            lemma_skip_none(s0);
        }
        loop
            invariant
                kept(*old(self), *self),
                moved(*old(self), *self, k),
                s0 == old(self).stream(),
                path_rest(s0, seq![base]) == path_rest(self.stream(), parts@).after(k),
                old(self).wf() && spans_text(self.lex.src(), base) ==> parts@.spans_in(
                    self.lex.src(),
                ),
            decreases self.stream().toks.len(),
        {
            let ghost cur = self.stream();
            if self.maybe(TokenType::Dot)?.is_none() {
                proof {
                    lemma_skip_none(cur);
                }
                return Ok(HirPath { parts });
            }
            let name = self.expect(TokenType::Identifier)?.slice;
            proof {
                if old(self).wf() && spans_text(self.lex.src(), base) {
                    lemma_spans_push(parts@, name, self.lex.src());
                }
            }
            parts.push(name);
            proof {
                lemma_skip_skip(cur, 1, 1);
                lemma_skip_skip(s0, k, 2);
                k = k + 2;
            }
        }
    }

    #[verifier::rlimit(60)]
    fn parse_type(&mut self, depth: usize) -> (r: Result<HirType, Error>)
        ensures
            kept(*old(self), *final(self)),
            sound(*old(self), r),
            built(*old(self), *final(self), r, ty(old(self).stream(), depth == 0)),
        decreases old(self).stream().toks.len(), 0nat,
    {
        let ghost s0 = self.stream();
        if self.maybe(TokenType::Star)?.is_some() {
            let r = self.parse_pointee(depth)?;
            proof {
                lemma_skip_skip(s0, 1, pointee(s0.skip(1), depth == 0)->Done_1);
            }
            return Ok(r);
        }
        proof {
            lemma_skip_none(s0);
        }
        let base = self.expect(TokenType::Identifier)?.slice;
        let path = self.parse_path_rest(base)?;
        proof {
            lemma_skip_skip(s0, 1, path_rest(s0.skip(1), seq![base])->Done_1);
        }
        Ok(HirType::Direct { path })
    }

    #[verifier::rlimit(60)]
    fn parse_expression(&mut self) -> (r: Result<HirExpression, Error>)
        ensures
            kept(*old(self), *final(self)),
            sound(*old(self), r),
            built(*old(self), *final(self), r, expr(old(self).stream())),
        decreases old(self).stream().toks.len(), 3nat,
    {
        let ghost s0 = self.stream();
        let next = self.peek()?;
        proof {
            lemma_skip_none(s0);
        }
        let left = self.parse_unary_expression(next)?;
        let ghost n = unary(s0)->Done_1;
        let ghost m = binary(s0.skip(n), left@, 0)->Done_1;
        let r = self.parse_binary_expression(left, 0)?;
        proof {
            lemma_skip_skip(s0, n, m);
        }
        Ok(r)
    }

    #[verifier::rlimit(60)]
    fn parse_unary_expression(&mut self, left: Token) -> (r: Result<HirExpression, Error>)
        requires
            old(self).peek_buf == Some(left),
        ensures
            kept(*old(self), *final(self)),
            sound(*old(self), r),
            built(*old(self), *final(self), r, unary(old(self).stream())),
            !starts_operand(left.kind) ==> r == Err::<HirExpression, Error>(
                Error::InvalidUnaryExpression(left.slice),
            ) && final(self).peek_buf == Some(left) && final(self).stream() == old(self).stream()
                && final(self).ast == old(self).ast,
        decreases old(self).stream().toks.len(), 2nat,
    {
        let ghost s0 = self.stream();
        proof {
            lemma_cons_skip(left, tokens_from(self.lex.src(), self.lex.pos()));
        }
        if left.kind.is_unary_op() {
            self.expect_one()?;
            let next = self.peek()?;
            proof {
                lemma_skip_none(s0.skip(1));
            }
            let arg = self.parse_unary_expression(next)?;
            proof {
                lemma_skip_skip(s0, 1, unary(s0.skip(1))->Done_1);
            }
            return Ok(apply_unary(left, arg));
        }
        match left.kind {
            TokenType::LeftParen => {
                self.expect_one()?;
                let inner = self.parse_expression()?;
                let ghost n = expr(s0.skip(1))->Done_1;
                proof {
                    lemma_skip_skip(s0, 1, n);
                }
                self.expect(TokenType::RightParen)?;
                proof {
                    lemma_skip_skip(s0, 1 + n, 1);
                }
                let ghost m = access(s0.skip(2 + n), inner@)->Done_1;
                let r = self.parse_access_expression(inner)?;
                proof {
                    lemma_skip_skip(s0, 2 + n, m);
                }
                Ok(r)
            },
            TokenType::Integer => {
                self.expect_one()?;
                Ok(HirExpression::Int { slice: left.slice })
            },
            TokenType::Float => {
                self.expect_one()?;
                Ok(HirExpression::Float { slice: left.slice })
            },
            TokenType::String => {
                self.expect_one()?;
                let lit = HirExpression::String { slice: left.slice };
                let ghost m = access(s0.skip(1), lit@)->Done_1;
                let r = self.parse_access_expression(lit)?;
                proof {
                    lemma_skip_skip(s0, 1, m);
                }
                Ok(r)
            },
            TokenType::Identifier => {
                self.expect_one()?;
                let name = HirExpression::Access { name: left.slice };
                let ghost m = called(s0.skip(1), name@)->Done_1;
                let r = self.parse_called(name)?;
                proof {
                    lemma_skip_skip(s0, 1, m);
                }
                Ok(r)
            },
            _ => Err(Error::InvalidUnaryExpression(left.slice)),
        }
    }

    /// Reads the argument list that may follow `callee`, and the accesses
    /// behind it.
    #[verifier::rlimit(60)]
    fn parse_called(&mut self, callee: HirExpression) -> (r: Result<HirExpression, Error>)
        ensures
            kept(*old(self), *final(self)),
            sound(*old(self), r),
            built_on(
                *old(self),
                *final(self),
                r,
                called(old(self).stream(), callee@),
                callee@.spans_in(old(self).lex.src()),
            ),
        decreases old(self).stream().toks.len(), 6nat,
    {
        let ghost s0 = self.stream();
        let t = self.peek()?;
        proof {
            lemma_skip_none(s0);
        }
        if t.kind == TokenType::LeftParen {
            let list = self.parse_function_call_args()?;
            let ghost n = args(s0)->Done_1;
            let call = apply_call(callee, list);
            let ghost m = access(s0.skip(n), call@)->Done_1;
            let r = self.parse_access_expression(call)?;
            proof {
                lemma_skip_skip(s0, n, m);
            }
            Ok(r)
        } else {
            self.parse_access_expression(callee)
        }
    }

    /// Reads the binary operators behind `left` that bind tighter than
    /// `floor`, with their operands, and folds them onto `left`.
    #[verifier::rlimit(60)]
    fn parse_binary_expression(&mut self, left: HirExpression, floor: usize) -> (r: Result<
        HirExpression,
        Error,
    >)
        ensures
            kept(*old(self), *final(self)),
            sound(*old(self), r),
            built_on(
                *old(self),
                *final(self),
                r,
                binary(old(self).stream(), left@, floor as nat),
                left@.spans_in(old(self).lex.src()),
            ),
        decreases old(self).stream().toks.len(), 1nat,
    {
        let ghost s0 = self.stream();
        let op = self.peek()?;
        proof {
            lemma_skip_none(s0);
        }
        if !op.kind.is_binary_op() {
            return Ok(left);
        }
        let level = op.kind.precedence();
        if level <= floor {
            return Ok(left);
        }
        self.expect_one()?;
        let next = self.peek()?;
        proof {
            lemma_skip_none(s0.skip(1));
        }
        let operand = self.parse_unary_expression(next)?;
        let ghost n = unary(s0.skip(1))->Done_1;
        proof {
            lemma_skip_skip(s0, 1, n);
        }
        let ghost m = binary(s0.skip(1 + n), operand@, level as nat)->Done_1;
        let right = self.parse_binary_expression(operand, level)?;
        proof {
            lemma_skip_skip(s0, 1 + n, m);
        }
        let folded = apply_binary(op, left, right);
        let ghost k = binary(s0.skip(1 + n + m), folded@, floor as nat)->Done_1;
        let r = self.parse_binary_expression(folded, floor)?;
        proof {
            lemma_skip_skip(s0, 1 + n + m, k);
        }
        Ok(r)
    }

    #[verifier::rlimit(60)]
    fn parse_access_expression(&mut self, left: HirExpression) -> (r: Result<HirExpression, Error>)
        ensures
            kept(*old(self), *final(self)),
            sound(*old(self), r),
            built_on(
                *old(self),
                *final(self),
                r,
                access(old(self).stream(), left@),
                left@.spans_in(old(self).lex.src()),
            ),
        decreases old(self).stream().toks.len(), 4nat,
    {
        let ghost s0 = self.stream();
        let t = self.peek()?;
        proof {
            lemma_skip_none(s0);
        }
        match t.kind {
            TokenType::Dot => {
                self.expect_one()?;
                let name = self.expect(TokenType::Identifier)?.slice;
                proof {
                    lemma_skip_skip(s0, 1, 1);
                }
                let right = HirExpression::DotAccess { expr: Box::new(left), name };
                let ghost m = called(s0.skip(2), right@)->Done_1;
                let r = self.parse_called(right)?;
                proof {
                    lemma_skip_skip(s0, 2, m);
                }
                Ok(r)
            },
            TokenType::LeftBracket => {
                self.expect_one()?;
                let index = self.parse_expression()?;
                let ghost n = expr(s0.skip(1))->Done_1;
                proof {
                    lemma_skip_skip(s0, 1, n);
                }
                self.expect(TokenType::RightBracket)?;
                proof {
                    lemma_skip_skip(s0, 1 + n, 1);
                }
                let right = HirExpression::IndexAccess {
                    expr: Box::new(left),
                    index: Box::new(index),
                };
                let ghost m = called(s0.skip(2 + n), right@)->Done_1;
                let r = self.parse_called(right)?;
                proof {
                    lemma_skip_skip(s0, 2 + n, m);
                }
                Ok(r)
            },
            _ => Ok(left),
        }
    }

    #[verifier::rlimit(60)]
    fn parse_function_call_args(&mut self) -> (r: Result<Vec<HirExpression>, Error>)
        ensures
            kept(*old(self), *final(self)),
            sound(*old(self), r),
            built_all(*old(self), *final(self), r, args(old(self).stream())),
        decreases old(self).stream().toks.len(), 5nat,
    {
        let ghost s0 = self.stream();
        self.expect(TokenType::LeftParen)?;
        let mut expressions: Vec<HirExpression> = Vec::with_capacity(0);
        let ghost mut k: nat = 1;
        proof {
            lemma_views_empty::<HirExpression>();
        }
        loop
            invariant
                kept(*old(self), *self),
                moved(*old(self), *self, k),
                s0 == old(self).stream(),
                s0.toks.len() > 0,
                k >= 1,
                args(s0) == args_rest(self.stream(), views(expressions@)).after(k),
                old(self).wf() ==> views(expressions@).spans_in(self.lex.src()),
            decreases self.stream().toks.len(),
        {
            let ghost cur = self.stream();
            let t = self.peek()?;
            proof {
                lemma_skip_none(cur);
            }
            if t.kind == TokenType::RightParen {
                self.expect_one()?;
                proof {
                    lemma_skip_skip(s0, k, 1);
                }
                return Ok(expressions);
            }
            let arg = self.parse_expression()?;
            let ghost n = expr(cur)->Done_1;
            proof {
                lemma_push_spans(expressions@, arg, self.lex.src());
                lemma_skip_skip(s0, k, n);
            }
            expressions.push(arg);
            if self.maybe(TokenType::Comma)?.is_none() {
                proof {
                    lemma_skip_none(cur.skip(n));
                }
                self.expect(TokenType::RightParen)?;
                proof {
                    lemma_skip_skip(s0, k + n, 1);
                }
                return Ok(expressions);
            }
            proof {
                lemma_skip_skip(cur, n, 1);
                lemma_skip_skip(s0, k + n, 1);
                k = k + n + 1;
            }
        }
    }

    /// Reads a type behind `lead`, if `lead` comes next.
    #[verifier::rlimit(60)]
    fn parse_opt_type(&mut self, lead: TokenType) -> (r: Result<Option<HirType>, Error>)
        ensures
            kept(*old(self), *final(self)),
            sound(*old(self), r),
            built_opt(*old(self), *final(self), r, opt_ty(old(self).stream(), lead)),
    {
        let ghost s0 = self.stream();
        if self.maybe(lead)?.is_some() {
            let t = self.parse_type(0)?;
            proof {
                lemma_skip_skip(s0, 1, ty(s0.skip(1), true)->Done_1);
            }
            Ok(Some(t))
        } else {
            Ok(None)
        }
    }

    /// Reads an expression behind `lead`, if `lead` comes next.
    #[verifier::rlimit(60)]
    fn parse_opt_expression(&mut self, lead: TokenType) -> (r: Result<
        Option<HirExpression>,
        Error,
    >)
        ensures
            kept(*old(self), *final(self)),
            sound(*old(self), r),
            built_opt(*old(self), *final(self), r, opt_expr(old(self).stream(), lead)),
    {
        let ghost s0 = self.stream();
        if self.maybe(lead)?.is_some() {
            let x = self.parse_expression()?;
            proof {
                lemma_skip_skip(s0, 1, expr(s0.skip(1))->Done_1);
            }
            Ok(Some(x))
        } else {
            Ok(None)
        }
    }

    #[verifier::rlimit(60)]
    fn parse_var_decl(&mut self) -> (r: Result<
        (Str, Option<HirType>, Option<HirExpression>),
        Error,
    >)
        ensures
            kept(*old(self), *final(self)),
            sound(*old(self), r),
            match var_decl(old(self).stream()) {
                Parsed::Done((name, t, x), n) => {
                    &&& r is Ok
                    &&& r->Ok_0.0 == name
                    &&& view_opt(r->Ok_0.1) == t
                    &&& view_opt(r->Ok_0.2) == x
                    &&& moved(*old(self), *final(self), n)
                    &&& old(self).wf() ==> spans_text(old(self).lex.src(), name) && t.spans_in(
                        old(self).lex.src(),
                    ) && x.spans_in(old(self).lex.src())
                },
                Parsed::Fail(e) => r is Err && r->Err_0 == e && final(self).ast == old(self).ast,
            },
    {
        let ghost s0 = self.stream();
        let name = self.expect(TokenType::Identifier)?.slice;
        let t = self.parse_opt_type(TokenType::Colon)?;
        let ghost a = opt_ty(s0.skip(1), TokenType::Colon)->Done_1;
        proof {
            lemma_skip_skip(s0, 1, a);
        }
        let x = self.parse_opt_expression(TokenType::Equal)?;
        let ghost b = opt_expr(s0.skip(1 + a), TokenType::Equal)->Done_1;
        proof {
            lemma_skip_skip(s0, 1 + a, b);
        }
        self.expect(TokenType::Semicolon)?;
        proof {
            lemma_skip_skip(s0, 1 + a + b, 1);
        }
        Ok((name, t, x))
    }

    #[verifier::rlimit(60)]
    fn parse_block(&mut self) -> (r: Result<HirBlock, Error>)
        ensures
            kept(*old(self), *final(self)),
            sound(*old(self), r),
            built(*old(self), *final(self), r, block(old(self).stream())),
        decreases old(self).stream().toks.len(), 2nat,
    {
        let ghost s0 = self.stream();
        self.expect(TokenType::LeftBrace)?;
        let mut statements: Vec<HirStatement> = Vec::with_capacity(0);
        let ghost mut k: nat = 1;
        proof {
            lemma_views_empty::<HirStatement>();
        }
        loop
            invariant
                kept(*old(self), *self),
                moved(*old(self), *self, k),
                s0 == old(self).stream(),
                s0.toks.len() > 0,
                k >= 1,
                block(s0) == block_rest(self.stream(), views(statements@)).after(k),
                old(self).wf() ==> views(statements@).spans_in(self.lex.src()),
            decreases self.stream().toks.len(),
        {
            let ghost cur = self.stream();
            if self.maybe(TokenType::RightBrace)?.is_some() {
                proof {
                    lemma_skip_skip(s0, k, 1);
                }
                return Ok(block_of(statements));
            }
            proof {
                lemma_skip_none(cur);
                lemma_statement_reads(cur);
            }
            let st = self.parse_statement()?;
            let ghost n = statement(cur)->Done_1;
            proof {
                lemma_push_spans(statements@, st, self.lex.src());
                lemma_skip_skip(s0, k, n);
                k = k + n;
            }
            statements.push(st);
        }
    }

    /// Reads a condition and the block that it guards.
    #[verifier::rlimit(60)]
    fn parse_guarded(&mut self) -> (r: Result<(HirExpression, HirBlock), Error>)
        ensures
            kept(*old(self), *final(self)),
            sound(*old(self), r),
            match guarded(old(self).stream()) {
                Parsed::Done((cond, body), n) => {
                    &&& r is Ok
                    &&& r->Ok_0.0@ == cond
                    &&& r->Ok_0.1@ == body
                    &&& moved(*old(self), *final(self), n)
                    &&& old(self).wf() ==> cond.spans_in(old(self).lex.src()) && body.spans_in(
                        old(self).lex.src(),
                    )
                },
                Parsed::Fail(e) => r is Err && r->Err_0 == e && final(self).ast == old(self).ast,
            },
        decreases old(self).stream().toks.len(), 3nat,
    {
        let ghost s0 = self.stream();
        let cond = self.parse_expression()?;
        let ghost a = expr(s0)->Done_1;
        let body = self.parse_block()?;
        proof {
            lemma_skip_skip(s0, a, block(s0.skip(a))->Done_1);
        }
        Ok((cond, body))
    }

    /// Reads what follows `if` or `elseif`.
    #[verifier::rlimit(60)]
    fn parse_if_rest(&mut self) -> (r: Result<HirStatement, Error>)
        ensures
            kept(*old(self), *final(self)),
            sound(*old(self), r),
            built(*old(self), *final(self), r, if_rest(old(self).stream())),
        decreases old(self).stream().toks.len(), 4nat,
    {
        let ghost s0 = self.stream();
        let (cond, body) = self.parse_guarded()?;
        let ghost a = guarded(s0)->Done_1;
        let else_block = self.parse_else()?;
        proof {
            lemma_skip_skip(s0, a, else_chain(s0.skip(a))->Done_1);
        }
        Ok(HirStatement::If { cond, block: body, else_block })
    }

    #[verifier::rlimit(60)]
    fn parse_else(&mut self) -> (r: Result<Option<HirBlock>, Error>)
        ensures
            kept(*old(self), *final(self)),
            sound(*old(self), r),
            built_opt(*old(self), *final(self), r, else_chain(old(self).stream())),
        decreases old(self).stream().toks.len(), 3nat,
    {
        let ghost s0 = self.stream();
        let t = self.peek()?;
        proof {
            lemma_skip_none(s0);
        }
        match t.kind {
            TokenType::KwElseif => {
                self.expect_one()?;
                let nested = self.parse_if_rest()?;
                proof {
                    lemma_skip_skip(s0, 1, if_rest(s0.skip(1))->Done_1);
                }
                let mut statements: Vec<HirStatement> = Vec::with_capacity(1);
                proof {
                    lemma_views_empty::<HirStatement>();
                    lemma_push_spans(statements@, nested, self.lex.src());
                }
                statements.push(nested);
                assert(views(statements@) =~= seq![nested@]);
                Ok(Some(block_of(statements)))
            },
            TokenType::KwElse => {
                self.expect_one()?;
                let body = self.parse_block()?;
                proof {
                    lemma_skip_skip(s0, 1, block(s0.skip(1))->Done_1);
                }
                Ok(Some(body))
            },
            _ => Ok(None),
        }
    }

    /// Reads what follows `for`.
    #[verifier::rlimit(60)]
    fn parse_for_rest(&mut self) -> (r: Result<HirStatement, Error>)
        ensures
            kept(*old(self), *final(self)),
            sound(*old(self), r),
            built(*old(self), *final(self), r, for_rest(old(self).stream())),
        decreases old(self).stream().toks.len(), 4nat,
    {
        let ghost s0 = self.stream();
        let name = self.expect(TokenType::Identifier)?.slice;
        self.expect(TokenType::KwIn)?;
        proof {
            lemma_skip_skip(s0, 1, 1);
        }
        let (range, body) = self.parse_guarded()?;
        proof {
            lemma_skip_skip(s0, 2, guarded(s0.skip(2))->Done_1);
        }
        Ok(HirStatement::For { name, expr: range, block: body })
    }

    /// Reads what follows `return`.
    #[verifier::rlimit(60)]
    fn parse_return_rest(&mut self) -> (r: Result<HirStatement, Error>)
        ensures
            kept(*old(self), *final(self)),
            sound(*old(self), r),
            built(*old(self), *final(self), r, return_rest(old(self).stream())),
    {
        let ghost s0 = self.stream();
        let value = self.parse_expression()?;
        self.expect(TokenType::Semicolon)?;
        proof {
            lemma_skip_skip(s0, expr(s0)->Done_1, 1);
        }
        Ok(HirStatement::Return { expr: value })
    }

    /// Reads the `;` behind a keyword that is the statement `st` by itself.
    #[verifier::rlimit(60)]
    fn parse_bare(&mut self, st: HirStatement) -> (r: Result<HirStatement, Error>)
        ensures
            kept(*old(self), *final(self)),
            sound(*old(self), r),
            built_on(
                *old(self),
                *final(self),
                r,
                bare(old(self).stream(), st@),
                st@.spans_in(old(self).lex.src()),
            ),
    {
        self.expect(TokenType::Semicolon)?;
        Ok(st)
    }

    /// Reads `= value ;` behind the assignable expression `target`.
    #[verifier::rlimit(60)]
    fn parse_assign_rest(&mut self, target: HirExpression) -> (r: Result<HirStatement, Error>)
        ensures
            kept(*old(self), *final(self)),
            sound(*old(self), r),
            built_on(
                *old(self),
                *final(self),
                r,
                assign_rest(old(self).stream(), target@),
                target@.spans_in(old(self).lex.src()),
            ),
    {
        let ghost s0 = self.stream();
        self.expect(TokenType::Equal)?;
        let value = self.parse_expression()?;
        let ghost n = expr(s0.skip(1))->Done_1;
        proof {
            lemma_skip_skip(s0, 1, n);
        }
        self.expect(TokenType::Semicolon)?;
        proof {
            lemma_skip_skip(s0, 1 + n, 1);
        }
        Ok(HirStatement::Assign { expr: target, value })
    }

    /// Reads a statement that begins with an expression.
    #[verifier::rlimit(60)]
    fn parse_expression_statement(&mut self) -> (r: Result<HirStatement, Error>)
        ensures
            kept(*old(self), *final(self)),
            sound(*old(self), r),
            built(*old(self), *final(self), r, expr_statement(old(self).stream())),
    {
        let ghost s0 = self.stream();
        let x = self.parse_expression()?;
        let ghost n = expr(s0)->Done_1;
        match x {
            HirExpression::Call { expr: callee, args: list } => {
                proof {
                    lemma_call_view(*callee, list);
                }
                self.expect(TokenType::Semicolon)?;
                proof {
                    lemma_skip_skip(s0, n, 1);
                }
                Ok(HirStatement::Call { expr: *callee, args: list })
            },
            HirExpression::Access { .. }
            | HirExpression::DotAccess { .. }
            | HirExpression::IndexAccess { .. } => {
                let ghost m = assign_rest(s0.skip(n), x@)->Done_1;
                let r = self.parse_assign_rest(x)?;
                proof {
                    lemma_skip_skip(s0, n, m);
                }
                Ok(r)
            },
            _ => Err(Error::UnexpectedExpression),
        }
    }

    #[verifier::rlimit(60)]
    fn parse_statement(&mut self) -> (r: Result<HirStatement, Error>)
        ensures
            kept(*old(self), *final(self)),
            sound(*old(self), r),
            built(*old(self), *final(self), r, statement(old(self).stream())),
        decreases old(self).stream().toks.len(), 0nat,
    {
        let ghost s0 = self.stream();
        let tok = self.peek()?;
        proof {
            lemma_skip_none(s0);
        }
        match tok.kind {
            TokenType::KwVar => {
                self.expect_one()?;
                let (name, of, value) = self.parse_var_decl()?;
                proof {
                    lemma_skip_skip(s0, 1, var_decl(s0.skip(1))->Done_1);
                }
                Ok(HirStatement::VarDecl { name, ty: of, expr: value })
            },
            TokenType::KwConst => {
                self.expect_one()?;
                let (name, of, value) = self.parse_var_decl()?;
                proof {
                    lemma_skip_skip(s0, 1, var_decl(s0.skip(1))->Done_1);
                }
                Ok(HirStatement::ConstDecl { name, ty: of, expr: value })
            },
            TokenType::KwIf => {
                self.expect_one()?;
                let r = self.parse_if_rest()?;
                proof {
                    lemma_skip_skip(s0, 1, if_rest(s0.skip(1))->Done_1);
                }
                Ok(r)
            },
            TokenType::KwWhile => {
                self.expect_one()?;
                let (cond, body) = self.parse_guarded()?;
                proof {
                    lemma_skip_skip(s0, 1, guarded(s0.skip(1))->Done_1);
                }
                Ok(HirStatement::While { cond, block: body })
            },
            TokenType::KwFor => {
                self.expect_one()?;
                let r = self.parse_for_rest()?;
                proof {
                    lemma_skip_skip(s0, 1, for_rest(s0.skip(1))->Done_1);
                }
                Ok(r)
            },
            TokenType::KwReturn => {
                self.expect_one()?;
                let r = self.parse_return_rest()?;
                proof {
                    lemma_skip_skip(s0, 1, return_rest(s0.skip(1))->Done_1);
                }
                Ok(r)
            },
            TokenType::KwContinue => {
                self.expect_one()?;
                let r = self.parse_bare(HirStatement::Continue)?;
                proof {
                    lemma_skip_skip(s0, 1, 1);
                }
                Ok(r)
            },
            TokenType::KwBreak => {
                self.expect_one()?;
                let r = self.parse_bare(HirStatement::Break)?;
                proof {
                    lemma_skip_skip(s0, 1, 1);
                }
                Ok(r)
            },
            _ => self.parse_expression_statement(),
        }
    }

    #[verifier::rlimit(60)]
    fn parse_function_params(&mut self) -> (r: Result<Vec<HirFunctionParam>, Error>)
        ensures
            kept(*old(self), *final(self)),
            sound(*old(self), r),
            built_all(*old(self), *final(self), r, params(old(self).stream())),
    {
        let ghost s0 = self.stream();
        self.expect(TokenType::LeftParen)?;
        let mut list: Vec<HirFunctionParam> = Vec::with_capacity(0);
        let ghost mut k: nat = 1;
        proof {
            lemma_views_empty::<HirFunctionParam>();
        }
        loop
            invariant
                kept(*old(self), *self),
                moved(*old(self), *self, k),
                s0 == old(self).stream(),
                params(s0) == params_rest(self.stream(), views(list@)).after(k),
                old(self).wf() ==> views(list@).spans_in(self.lex.src()),
            decreases self.stream().toks.len(),
        {
            let ghost cur = self.stream();
            if self.maybe(TokenType::RightParen)?.is_some() {
                proof {
                    lemma_skip_skip(s0, k, 1);
                }
                return Ok(list);
            }
            proof {
                lemma_skip_none(cur);
            }
            let of = self.parse_type(0)?;
            let ghost a = ty(cur, true)->Done_1;
            let name = self.expect(TokenType::Identifier)?.slice;
            let param = HirFunctionParam { name, ty: of };
            proof {
                lemma_skip_skip(cur, a, 1);
                lemma_push_spans(list@, param, self.lex.src());
            }
            list.push(param);
            if self.maybe(TokenType::Comma)?.is_none() {
                proof {
                    lemma_skip_none(cur.skip(a + 1));
                }
                self.expect(TokenType::RightParen)?;
                proof {
                    lemma_skip_skip(cur, a + 1, 1);
                    lemma_skip_skip(s0, k, a + 2);
                }
                return Ok(list);
            }
            proof {
                lemma_skip_skip(cur, a + 1, 1);
                lemma_skip_skip(s0, k, a + 2);
                k = k + a + 2;
            }
        }
    }

    /// Reads the end of a function: `;` for a signature, a block for a
    /// definition.
    #[verifier::rlimit(60)]
    fn parse_body(&mut self) -> (r: Result<Option<HirBlock>, Error>)
        ensures
            kept(*old(self), *final(self)),
            sound(*old(self), r),
            built_opt(*old(self), *final(self), r, body(old(self).stream())),
    {
        let ghost s0 = self.stream();
        if self.maybe(TokenType::Semicolon)?.is_some() {
            Ok(None)
        } else {
            proof {
                lemma_skip_none(s0);
            }
            Ok(Some(self.parse_block()?))
        }
    }

    #[verifier::rlimit(60)]
    fn parse_function(&mut self, public: bool) -> (r: Result<HirFunction, Error>)
        ensures
            kept(*old(self), *final(self)),
            sound(*old(self), r),
            built(*old(self), *final(self), r, function(old(self).stream(), public)),
    {
        reveal(function);
        let ghost s0 = self.stream();
        let name = self.expect(TokenType::Identifier)?.slice;
        let list = self.parse_function_params()?;
        let ghost a = params(s0.skip(1))->Done_1;
        proof {
            lemma_skip_skip(s0, 1, a);
        }
        let return_type = self.parse_opt_type(TokenType::Arrow)?;
        let ghost b = opt_ty(s0.skip(1 + a), TokenType::Arrow)->Done_1;
        proof {
            lemma_skip_skip(s0, 1 + a, b);
        }
        let block = self.parse_body()?;
        proof {
            lemma_skip_skip(s0, 1 + a + b, body(s0.skip(1 + a + b))->Done_1);
        }
        Ok(HirFunction { name, public, params: list, return_type, body: block })
    }

    /// Reads `fun` and a function.
    #[verifier::rlimit(60)]
    fn parse_fun_item(&mut self, public: bool) -> (r: Result<HirFunction, Error>)
        ensures
            kept(*old(self), *final(self)),
            sound(*old(self), r),
            built(*old(self), *final(self), r, fun_item(old(self).stream(), public)),
    {
        let ghost s0 = self.stream();
        self.expect(TokenType::KwFun)?;
        let f = self.parse_function(public)?;
        proof {
            lemma_skip_skip(s0, 1, function(s0.skip(1), public)->Done_1);
        }
        Ok(f)
    }

    #[verifier::rlimit(60)]
    fn parse_struct_field(&mut self, public: bool) -> (r: Result<HirStructField, Error>)
        ensures
            kept(*old(self), *final(self)),
            sound(*old(self), r),
            built(*old(self), *final(self), r, field(old(self).stream(), public)),
    {
        let ghost s0 = self.stream();
        let of = self.parse_type(0)?;
        let ghost a = ty(s0, true)->Done_1;
        let name = self.expect(TokenType::Identifier)?.slice;
        proof {
            lemma_skip_skip(s0, a, 1);
        }
        self.expect(TokenType::Semicolon)?;
        proof {
            lemma_skip_skip(s0, a + 1, 1);
        }
        Ok(HirStructField { name, public, ty: of })
    }

    /// Reads the types of a tuple variant, behind its `(`.
    #[verifier::rlimit(60)]
    fn parse_tuple_types(&mut self) -> (r: Result<Vec<HirType>, Error>)
        ensures
            kept(*old(self), *final(self)),
            sound(*old(self), r),
            built_all(
                *old(self),
                *final(self),
                r,
                tuple_rest(old(self).stream(), Seq::<Ty>::empty()),
            ),
    {
        let ghost s0 = self.stream();
        let mut types: Vec<HirType> = Vec::with_capacity(0);
        let ghost mut k: nat = 0;
        proof {
            lemma_views_empty::<HirType>();
            lemma_skip_none(s0);
        }
        loop
            invariant
                kept(*old(self), *self),
                moved(*old(self), *self, k),
                s0 == old(self).stream(),
                tuple_rest(s0, Seq::<Ty>::empty()) == tuple_rest(
                    self.stream(),
                    views(types@),
                ).after(k),
                old(self).wf() ==> views(types@).spans_in(self.lex.src()),
            decreases self.stream().toks.len(),
        {
            let ghost cur = self.stream();
            if self.maybe(TokenType::RightParen)?.is_some() {
                proof {
                    lemma_skip_skip(s0, k, 1);
                }
                return Ok(types);
            }
            proof {
                lemma_skip_none(cur);
            }
            let of = self.parse_type(0)?;
            let ghost a = ty(cur, true)->Done_1;
            proof {
                lemma_push_spans(types@, of, self.lex.src());
            }
            types.push(of);
            if self.maybe(TokenType::Comma)?.is_none() {
                proof {
                    lemma_skip_none(cur.skip(a));
                }
                self.expect(TokenType::RightParen)?;
                proof {
                    lemma_skip_skip(cur, a, 1);
                    lemma_skip_skip(s0, k, a + 1);
                }
                return Ok(types);
            }
            proof {
                lemma_skip_skip(cur, a, 1);
                lemma_skip_skip(s0, k, a + 1);
                k = k + a + 1;
            }
        }
    }

    /// Reads the fields of a struct variant, behind its `{`.
    #[verifier::rlimit(60)]
    fn parse_variant_fields(&mut self) -> (r: Result<Vec<HirStructField>, Error>)
        ensures
            kept(*old(self), *final(self)),
            sound(*old(self), r),
            built_all(
                *old(self),
                *final(self),
                r,
                fields_rest(old(self).stream(), Seq::empty()),
            ),
    {
        let ghost s0 = self.stream();
        let mut fields: Vec<HirStructField> = Vec::with_capacity(0);
        let ghost mut k: nat = 0;
        proof {
            lemma_views_empty::<HirStructField>();
            lemma_skip_none(s0);
        }
        loop
            invariant
                kept(*old(self), *self),
                moved(*old(self), *self, k),
                s0 == old(self).stream(),
                fields_rest(s0, Seq::empty()) == fields_rest(self.stream(), views(fields@)).after(
                    k,
                ),
                old(self).wf() ==> views(fields@).spans_in(self.lex.src()),
            decreases self.stream().toks.len(),
        {
            let ghost cur = self.stream();
            if self.maybe(TokenType::RightBrace)?.is_some() {
                proof {
                    lemma_skip_skip(s0, k, 1);
                }
                return Ok(fields);
            }
            proof {
                lemma_skip_none(cur);
            }
            let f = self.parse_struct_field(true)?;
            let ghost n = field(cur, true)->Done_1;
            proof {
                lemma_push_spans(fields@, f, self.lex.src());
                lemma_skip_skip(s0, k, n);
                k = k + n;
            }
            fields.push(f);
        }
    }

    #[verifier::rlimit(60)]
    fn parse_enum_variant(&mut self) -> (r: Result<HirEnumVariant, Error>)
        ensures
            kept(*old(self), *final(self)),
            sound(*old(self), r),
            built(*old(self), *final(self), r, variant(old(self).stream())),
    {
        let ghost s0 = self.stream();
        let name = self.expect(TokenType::Identifier)?.slice;
        let t = self.expect_one()?;
        proof {
            lemma_skip_skip(s0, 1, 1);
        }
        match t.kind {
            TokenType::Semicolon => Ok(HirEnumVariant::Empty { name }),
            TokenType::LeftParen => {
                let types = self.parse_tuple_types()?;
                let ghost n = tuple_rest(s0.skip(2), Seq::<Ty>::empty())->Done_1;
                proof {
                    lemma_skip_skip(s0, 2, n);
                }
                self.expect(TokenType::Semicolon)?;
                proof {
                    lemma_skip_skip(s0, 2 + n, 1);
                }
                Ok(HirEnumVariant::Tuple { name, types })
            },
            TokenType::LeftBrace => {
                let fields = self.parse_variant_fields()?;
                proof {
                    lemma_skip_skip(s0, 2, fields_rest(s0.skip(2), Seq::empty())->Done_1);
                }
                Ok(HirEnumVariant::Struct { name, fields })
            },
            _ => Err(Error::UnexpectedToken(t.slice)),
        }
    }

    /// Reads the functions of a body up to its `}`; each may be marked
    /// public where `marks` says so.
    #[verifier::rlimit(60)]
    fn parse_functions(&mut self, marks: bool) -> (r: Result<Vec<HirFunction>, Error>)
        ensures
            kept(*old(self), *final(self)),
            sound(*old(self), r),
            built_all(
                *old(self),
                *final(self),
                r,
                funs_rest(old(self).stream(), Seq::empty(), marks),
            ),
    {
        let ghost s0 = self.stream();
        let mut functions: Vec<HirFunction> = Vec::with_capacity(0);
        let ghost mut k: nat = 0;
        proof {
            lemma_views_empty::<HirFunction>();
            lemma_skip_none(s0);
        }
        loop
            invariant
                kept(*old(self), *self),
                moved(*old(self), *self, k),
                s0 == old(self).stream(),
                funs_rest(s0, Seq::empty(), marks) == funs_rest(
                    self.stream(),
                    views(functions@),
                    marks,
                ).after(k),
                old(self).wf() ==> views(functions@).spans_in(self.lex.src()),
            decreases self.stream().toks.len(),
        {
            let ghost cur = self.stream();
            if self.maybe(TokenType::RightBrace)?.is_some() {
                proof {
                    lemma_skip_skip(s0, k, 1);
                }
                return Ok(functions);
            }
            proof {
                lemma_skip_none(cur);
            }
            let public = if marks {
                self.maybe(TokenType::KwPub)?.is_some()
            } else {
                false
            };
            let ghost a: nat = if public {
                1
            } else {
                0
            };
            let f = self.parse_fun_item(public)?;
            let ghost n = fun_item(cur.skip(a), public)->Done_1;
            proof {
                lemma_push_spans(functions@, f, self.lex.src());
                lemma_skip_skip(cur, a, n);
                lemma_skip_skip(s0, k, a + n);
                k = k + a + n;
            }
            functions.push(f);
        }
    }

    /// Reads the name and the `{` of a declaration.
    #[verifier::rlimit(60)]
    fn parse_decl_head(&mut self) -> (r: Result<Str, Error>)
        ensures
            kept(*old(self), *final(self)),
            sound(*old(self), r),
            read(*old(self), *final(self), r, decl_head(old(self).stream())),
            old(self).wf() ==> (r matches Ok(name) ==> spans_text(old(self).lex.src(), name)),
    {
        let ghost s0 = self.stream();
        let name = self.expect(TokenType::Identifier)?.slice;
        self.expect(TokenType::LeftBrace)?;
        proof {
            lemma_skip_skip(s0, 1, 1);
        }
        Ok(name)
    }

    /// Reads the fields and functions of a struct up to its `}`.
    #[verifier::rlimit(60)]
    fn parse_struct_body(&mut self) -> (r: Result<(Vec<HirStructField>, Vec<HirFunction>), Error>)
        ensures
            kept(*old(self), *final(self)),
            sound(*old(self), r),
            match struct_rest(old(self).stream(), Seq::empty(), Seq::empty()) {
                Parsed::Done((fields, funs), n) => {
                    &&& r is Ok
                    &&& views(r->Ok_0.0@) == fields
                    &&& views(r->Ok_0.1@) == funs
                    &&& moved(*old(self), *final(self), n)
                    &&& old(self).wf() ==> fields.spans_in(old(self).lex.src()) && funs.spans_in(
                        old(self).lex.src(),
                    )
                },
                Parsed::Fail(e) => r is Err && r->Err_0 == e && final(self).ast == old(self).ast,
            },
    {
        let ghost s0 = self.stream();
        let mut fields: Vec<HirStructField> = Vec::with_capacity(0);
        let mut functions: Vec<HirFunction> = Vec::with_capacity(0);
        let ghost mut k: nat = 0;
        proof {
            lemma_views_empty::<HirStructField>();
            lemma_views_empty::<HirFunction>();
            lemma_skip_none(s0);
        }
        loop
            invariant
                kept(*old(self), *self),
                moved(*old(self), *self, k),
                s0 == old(self).stream(),
                struct_rest(s0, Seq::empty(), Seq::empty()) == struct_rest(
                    self.stream(),
                    views(fields@),
                    views(functions@),
                ).after(k),
                old(self).wf() ==> views(fields@).spans_in(self.lex.src()),
                old(self).wf() ==> views(functions@).spans_in(self.lex.src()),
            decreases self.stream().toks.len(),
        {
            let ghost cur = self.stream();
            if self.maybe(TokenType::RightBrace)?.is_some() {
                proof {
                    lemma_skip_skip(s0, k, 1);
                }
                return Ok((fields, functions));
            }
            proof {
                lemma_skip_none(cur);
            }
            let public = self.maybe(TokenType::KwPub)?.is_some();
            let ghost a: nat = if public {
                1
            } else {
                0
            };
            if self.maybe(TokenType::KwFun)?.is_some() {
                proof {
                    lemma_skip_skip(cur, a, 1);
                }
                let f = self.parse_function(public)?;
                let ghost n = function(cur.skip(a + 1), public)->Done_1;
                proof {
                    lemma_push_spans(functions@, f, self.lex.src());
                    lemma_skip_skip(cur, a + 1, n);
                    lemma_skip_skip(s0, k, a + 1 + n);
                    k = k + a + 1 + n;
                }
                functions.push(f);
            } else {
                proof {
                    lemma_skip_none(cur.skip(a));
                }
                let f = self.parse_struct_field(public)?;
                let ghost n = field(cur.skip(a), public)->Done_1;
                proof {
                    lemma_push_spans(fields@, f, self.lex.src());
                    lemma_skip_skip(cur, a, n);
                    lemma_skip_skip(s0, k, a + n);
                    k = k + a + n;
                }
                fields.push(f);
            }
        }
    }

    /// Reads the variants and functions of an enum up to its `}`.
    #[verifier::rlimit(60)]
    fn parse_enum_body(&mut self) -> (r: Result<(Vec<HirEnumVariant>, Vec<HirFunction>), Error>)
        ensures
            kept(*old(self), *final(self)),
            sound(*old(self), r),
            match enum_rest(old(self).stream(), Seq::empty(), Seq::empty()) {
                Parsed::Done((variants, funs), n) => {
                    &&& r is Ok
                    &&& views(r->Ok_0.0@) == variants
                    &&& views(r->Ok_0.1@) == funs
                    &&& moved(*old(self), *final(self), n)
                    &&& old(self).wf() ==> variants.spans_in(old(self).lex.src())
                        && funs.spans_in(old(self).lex.src())
                },
                Parsed::Fail(e) => r is Err && r->Err_0 == e && final(self).ast == old(self).ast,
            },
    {
        let ghost s0 = self.stream();
        let mut variants: Vec<HirEnumVariant> = Vec::with_capacity(0);
        let mut functions: Vec<HirFunction> = Vec::with_capacity(0);
        let ghost mut k: nat = 0;
        proof {
            lemma_views_empty::<HirEnumVariant>();
            lemma_views_empty::<HirFunction>();
            lemma_skip_none(s0);
        }
        loop
            invariant
                kept(*old(self), *self),
                moved(*old(self), *self, k),
                s0 == old(self).stream(),
                enum_rest(s0, Seq::empty(), Seq::empty()) == enum_rest(
                    self.stream(),
                    views(variants@),
                    views(functions@),
                ).after(k),
                old(self).wf() ==> views(variants@).spans_in(self.lex.src()),
                old(self).wf() ==> views(functions@).spans_in(self.lex.src()),
            decreases self.stream().toks.len(),
        {
            let ghost cur = self.stream();
            if self.maybe(TokenType::RightBrace)?.is_some() {
                proof {
                    lemma_skip_skip(s0, k, 1);
                }
                return Ok((variants, functions));
            }
            proof {
                lemma_skip_none(cur);
            }
            let t = self.peek()?;
            match t.kind {
                TokenType::KwPub => {
                    self.expect_one()?;
                    let f = self.parse_fun_item(true)?;
                    let ghost n = fun_item(cur.skip(1), true)->Done_1;
                    proof {
                        lemma_push_spans(functions@, f, self.lex.src());
                        lemma_skip_skip(cur, 1, n);
                        lemma_skip_skip(s0, k, 1 + n);
                        k = k + 1 + n;
                    }
                    functions.push(f);
                },
                TokenType::KwFun => {
                    self.expect_one()?;
                    let f = self.parse_function(false)?;
                    let ghost n = function(cur.skip(1), false)->Done_1;
                    proof {
                        lemma_push_spans(functions@, f, self.lex.src());
                        lemma_skip_skip(cur, 1, n);
                        lemma_skip_skip(s0, k, 1 + n);
                        k = k + 1 + n;
                    }
                    functions.push(f);
                },
                _ => {
                    let v = self.parse_enum_variant()?;
                    let ghost n = variant(cur)->Done_1;
                    proof {
                        lemma_push_spans(variants@, v, self.lex.src());
                        lemma_skip_skip(s0, k, n);
                        k = k + n;
                    }
                    variants.push(v);
                },
            }
        }
    }

    #[verifier::rlimit(60)]
    fn parse_root_module(&mut self, public: bool) -> (r: Result<(), Error>)
        ensures
            kept(*old(self), *final(self)),
            sound(*old(self), r),
            grown(
                *old(self),
                *final(self),
                r,
                added(
                    module_decl(old(self).stream(), public),
                    old(self).ast@,
                    |t: Tree, m: Module| t.with_module(m),
                ),
            ),
    {
        let ghost s0 = self.stream();
        let name = self.expect(TokenType::Identifier)?.slice;
        self.expect(TokenType::Semicolon)?;
        let m = HirModule { name, public };
        proof {
            lemma_skip_skip(s0, 1, 1);
            lemma_push_spans(self.ast.modules@, m, self.lex.src());
        }
        self.ast.modules.push(m);
        Ok(())
    }

    /// Reads one import behind the names in `buf` and adds the leaf paths
    /// that it expands to to `out`.
    #[verifier::rlimit(60)]
    fn parse_root_import(&mut self, buf: &mut Vec<Str>, out: &mut Vec<HirImport>) -> (r: Result<
        (),
        Error,
    >)
        ensures
            kept(*old(self), *final(self)),
            sound(*old(self), r),
            final(self).ast == old(self).ast,
            match import(old(self).stream(), old(buf)@) {
                Parsed::Done(paths, n) => {
                    &&& r is Ok
                    &&& final(buf)@ == old(buf)@
                    &&& views(final(out)@) == views(old(out)@) + paths
                    &&& final(self).stream() == old(self).stream().skip(n)
                    &&& old(self).wf() && old(buf)@.spans_in(old(self).lex.src())
                        ==> paths.spans_in(old(self).lex.src())
                },
                Parsed::Fail(e) => r is Err && r->Err_0 == e,
            },
        decreases old(self).stream().toks.len(), 0nat,
    {
        let ghost s0 = self.stream();
        let root = self.expect(TokenType::Identifier)?;
        buf.push(root.slice);
        let next = self.peek()?;
        proof {
            lemma_skip_none(s0.skip(1));
        }
        match next.kind {
            TokenType::Dot => {
                self.expect_one()?;
                proof {
                    lemma_skip_skip(s0, 1, 1);
                }
                self.parse_root_import(buf, out)?;
                proof {
                    lemma_skip_skip(s0, 2, import(s0.skip(2), old(buf)@.push(root.slice))->Done_1);
                }
            },
            TokenType::Colon => {
                self.expect_one()?;
                proof {
                    lemma_skip_skip(s0, 1, 1);
                }
                self.parse_import_group(buf, out)?;
                proof {
                    lemma_skip_skip(
                        s0,
                        2,
                        import_group(s0.skip(2), old(buf)@.push(root.slice))->Done_1,
                    );
                }
            },
            _ => {
                let leaf = HirImport { path: HirPath { parts: copy_names(buf) } };
                proof {
                    if old(self).wf() && old(buf)@.spans_in(self.lex.src()) {
                        lemma_spans_push(old(buf)@, root.slice, self.lex.src());
                    }
                    lemma_views_push(out@, leaf);
                    assert(views(out@).push(leaf@) =~= views(out@) + seq![leaf@]);
                }
                out.push(leaf);
            },
        }
        let _ = buf.pop();
        proof {
            assert(buf@ =~= old(buf)@);
        }
        Ok(())
    }

    /// Reads a group of imports behind the names in `buf` and adds the
    /// leaf paths that they expand to to `out`.
    #[verifier::rlimit(60)]
    fn parse_import_group(&mut self, buf: &mut Vec<Str>, out: &mut Vec<HirImport>) -> (r: Result<
        (),
        Error,
    >)
        ensures
            kept(*old(self), *final(self)),
            sound(*old(self), r),
            final(self).ast == old(self).ast,
            match import_group(old(self).stream(), old(buf)@) {
                Parsed::Done(paths, n) => {
                    &&& r is Ok
                    &&& final(buf)@ == old(buf)@
                    &&& views(final(out)@) == views(old(out)@) + paths
                    &&& final(self).stream() == old(self).stream().skip(n)
                    &&& old(self).wf() && old(buf)@.spans_in(old(self).lex.src())
                        ==> paths.spans_in(old(self).lex.src())
                },
                Parsed::Fail(e) => r is Err && r->Err_0 == e,
            },
        decreases old(self).stream().toks.len(), 0nat,
    {
        let ghost s0 = self.stream();
        self.expect(TokenType::LeftBrace)?;
        let ghost mut k: nat = 1;
        let ghost mut acc: Seq<Seq<Str>> = Seq::empty();
        proof {
            assert(views(out@) + acc =~= views(out@));
        }
        loop
            invariant
                kept(*old(self), *self),
                self.ast == old(self).ast,
                s0 == old(self).stream(),
                s0.toks.len() > 0,
                k >= 1,
                buf@ == old(buf)@,
                self.stream() == s0.skip(k),
                views(out@) == views(old(out)@) + acc,
                import_group(s0, buf@) == group_rest(self.stream(), buf@, acc).after(k),
                old(self).wf() && buf@.spans_in(self.lex.src()) ==> acc.spans_in(self.lex.src()),
            decreases self.stream().toks.len(),
        {
            let ghost cur = self.stream();
            self.parse_root_import(buf, out)?;
            let ghost paths = import(cur, buf@)->Done_0;
            let ghost n = import(cur, buf@)->Done_1;
            let next = self.expect_one()?;
            proof {
                lemma_skip_skip(cur, n, 1);
                lemma_skip_skip(s0, k, n + 1);
                assert((views(old(out)@) + acc) + paths =~= views(old(out)@) + (acc + paths));
                if old(self).wf() && buf@.spans_in(self.lex.src()) {
                    lemma_spans_join(acc, paths, self.lex.src());
                }
                acc = acc + paths;
                k = k + n + 1;
            }
            match next.kind {
                TokenType::RightBrace => {
                    return Ok(());
                },
                TokenType::Comma => {},
                _ => {
                    return Err(Error::UnexpectedToken(next.slice));
                },
            }
        }
    }

    #[verifier::rlimit(60)]
    fn parse_root_const(&mut self, public: bool) -> (r: Result<(), Error>)
        ensures
            kept(*old(self), *final(self)),
            sound(*old(self), r),
            grown(
                *old(self),
                *final(self),
                r,
                added(
                    const_decl(old(self).stream(), public),
                    old(self).ast@,
                    |t: Tree, c: Const| t.with_const(c),
                ),
            ),
    {
        let (name, of, value) = self.parse_var_decl()?;
        let c = HirConst { name, public, ty: of, expr: value };
        proof {
            lemma_push_spans(self.ast.constants@, c, self.lex.src());
        }
        self.ast.constants.push(c);
        Ok(())
    }

    #[verifier::rlimit(60)]
    fn parse_root_trait(&mut self, public: bool) -> (r: Result<(), Error>)
        ensures
            kept(*old(self), *final(self)),
            sound(*old(self), r),
            grown(
                *old(self),
                *final(self),
                r,
                added(
                    trait_decl(old(self).stream(), public),
                    old(self).ast@,
                    |t: Tree, d: Decl| t.with_type(d),
                ),
            ),
    {
        let ghost s0 = self.stream();
        let name = self.parse_decl_head()?;
        let functions = self.parse_functions(false)?;
        let d = HirTypeDecl::Trait { name, public, functions };
        proof {
            lemma_skip_skip(s0, 2, funs_rest(s0.skip(2), Seq::empty(), false)->Done_1);
            lemma_push_spans(self.ast.types@, d, self.lex.src());
        }
        self.ast.types.push(d);
        Ok(())
    }

    #[verifier::rlimit(60)]
    fn parse_root_struct(&mut self, public: bool) -> (r: Result<(), Error>)
        ensures
            kept(*old(self), *final(self)),
            sound(*old(self), r),
            grown(
                *old(self),
                *final(self),
                r,
                added(
                    struct_decl(old(self).stream(), public),
                    old(self).ast@,
                    |t: Tree, d: Decl| t.with_type(d),
                ),
            ),
    {
        let ghost s0 = self.stream();
        let name = self.parse_decl_head()?;
        let (fields, functions) = self.parse_struct_body()?;
        let d = HirTypeDecl::Struct { name, public, fields, functions };
        proof {
            lemma_skip_skip(
                s0,
                2,
                struct_rest(s0.skip(2), Seq::empty(), Seq::empty())->Done_1,
            );
            lemma_push_spans(self.ast.types@, d, self.lex.src());
        }
        self.ast.types.push(d);
        Ok(())
    }

    #[verifier::rlimit(60)]
    fn parse_root_enum(&mut self, public: bool) -> (r: Result<(), Error>)
        ensures
            kept(*old(self), *final(self)),
            sound(*old(self), r),
            grown(
                *old(self),
                *final(self),
                r,
                added(
                    enum_decl(old(self).stream(), public),
                    old(self).ast@,
                    |t: Tree, d: Decl| t.with_type(d),
                ),
            ),
    {
        let ghost s0 = self.stream();
        let name = self.parse_decl_head()?;
        let (variants, functions) = self.parse_enum_body()?;
        let d = HirTypeDecl::Enum { name, public, variants, functions };
        proof {
            lemma_skip_skip(s0, 2, enum_rest(s0.skip(2), Seq::empty(), Seq::empty())->Done_1);
            lemma_push_spans(self.ast.types@, d, self.lex.src());
        }
        self.ast.types.push(d);
        Ok(())
    }

    #[verifier::rlimit(60)]
    fn parse_root_impl(&mut self) -> (r: Result<(), Error>)
        ensures
            kept(*old(self), *final(self)),
            sound(*old(self), r),
            grown(
                *old(self),
                *final(self),
                r,
                added(
                    impl_decl(old(self).stream()),
                    old(self).ast@,
                    |t: Tree, i: Impl| t.with_impl(i),
                ),
            ),
    {
        let ghost s0 = self.stream();
        let target = self.parse_type(0)?;
        let ghost a = ty(s0, true)->Done_1;
        self.expect(TokenType::Colon)?;
        proof {
            lemma_skip_skip(s0, a, 1);
        }
        let trait_ty = self.parse_type(0)?;
        let ghost b = ty(s0.skip(a + 1), true)->Done_1;
        proof {
            lemma_skip_skip(s0, a + 1, b);
        }
        self.expect(TokenType::LeftBrace)?;
        proof {
            lemma_skip_skip(s0, a + 1 + b, 1);
        }
        let functions = self.parse_functions(true)?;
        let i = HirImpl { target, trait_ty, functions };
        proof {
            lemma_skip_skip(
                s0,
                a + b + 2,
                funs_rest(s0.skip(a + b + 2), Seq::empty(), true)->Done_1,
            );
            lemma_push_spans(self.ast.impls@, i, self.lex.src());
        }
        self.ast.impls.push(i);
        Ok(())
    }

    #[verifier::rlimit(60)]
    fn parse_root_function(&mut self, public: bool) -> (r: Result<(), Error>)
        ensures
            kept(*old(self), *final(self)),
            sound(*old(self), r),
            grown(
                *old(self),
                *final(self),
                r,
                added(
                    function(old(self).stream(), public),
                    old(self).ast@,
                    |t: Tree, f: Func| t.with_function(f),
                ),
            ),
    {
        let function = self.parse_function(public)?;
        proof {
            lemma_push_spans(self.ast.functions@, function, self.lex.src());
        }
        self.ast.functions.push(function);
        Ok(())
    }

    /// Reads what follows `import` at the top level.
    #[verifier::rlimit(60)]
    fn parse_import_decl(&mut self) -> (r: Result<(), Error>)
        ensures
            kept(*old(self), *final(self)),
            sound(*old(self), r),
            grown(
                *old(self),
                *final(self),
                r,
                added(
                    import_decl(old(self).stream()),
                    old(self).ast@,
                    |t: Tree, p: Seq<Seq<Str>>| t.with_imports(p),
                ),
            ),
    {
        let ghost s0 = self.stream();
        let mut buf: Vec<Str> = Vec::with_capacity(1);
        let mut leaves: Vec<HirImport> = Vec::with_capacity(1);
        self.parse_root_import(&mut buf, &mut leaves)?;
        self.expect(TokenType::Semicolon)?;
        proof {
            let paths = import(s0, Seq::empty())->Done_0;
            lemma_skip_skip(s0, import(s0, Seq::empty())->Done_1, 1);
            lemma_views_empty::<HirImport>();
            assert(views(leaves@) =~= paths);
            lemma_views_join(self.ast.imports@, leaves@);
            if old(self).wf() && old(self).ast@.spans_in(self.lex.src()) {
                lemma_spans_join(old(self).ast@.imports, paths, self.lex.src());
            }
        }
        self.ast.imports.append(&mut leaves);
        Ok(())
    }

    /// Reads the item that the keyword `lead`, already read, opens. `false`
    /// where it opens none that may carry the visibility `public`; nothing
    /// is read then.
    #[verifier::rlimit(60)]
    fn parse_item(&mut self, lead: TokenType, public: bool) -> (r: Result<bool, Error>)
        ensures
            kept(*old(self), *final(self)),
            sound(*old(self), r),
            match item(old(self).stream(), lead, public, old(self).ast@) {
                Some(p) => grown(
                    *old(self),
                    *final(self),
                    match r {
                        Ok(_) => Ok(()),
                        Err(e) => Err(e),
                    },
                    p,
                ) && r != Ok::<bool, Error>(false),
                None => r == Ok::<bool, Error>(false) && final(self).ast@ == old(self).ast@
                    && final(self).stream() == old(self).stream(),
            },
    {
        match lead {
            TokenType::KwModule => {
                self.parse_root_module(public)?;
                Ok(true)
            },
            TokenType::KwConst => {
                self.parse_root_const(public)?;
                Ok(true)
            },
            TokenType::KwTrait => {
                self.parse_root_trait(public)?;
                Ok(true)
            },
            TokenType::KwStruct => {
                self.parse_root_struct(public)?;
                Ok(true)
            },
            TokenType::KwEnum => {
                self.parse_root_enum(public)?;
                Ok(true)
            },
            TokenType::KwFun => {
                self.parse_root_function(public)?;
                Ok(true)
            },
            TokenType::KwImport => {
                if public {
                    return Ok(false);
                }
                self.parse_import_decl()?;
                Ok(true)
            },
            TokenType::KwImpl => {
                if public {
                    return Ok(false);
                }
                self.parse_root_impl()?;
                Ok(true)
            },
            _ => Ok(false),
        }
    }

    /// Reads one item behind its first token `lead`, already read.
    #[verifier::rlimit(60)]
    fn parse_top(&mut self, lead: Token) -> (r: Result<(), Error>)
        ensures
            final(self).lex.src() == old(self).lex.src(),
            old(self).wf() && old(self).lex.holds(lead.slice) ==> final(self).wf() && sound(
                *old(self),
                r,
            ),
            old(self).lex.holds(lead.slice) && old(self).notes_ok() ==> final(self).notes_ok(),
            old(self).wf() && old(self).ast@.spans_in(old(self).lex.src()) && r is Ok
                ==> final(self).ast@.spans_in(old(self).lex.src()),
            match top(old(self).stream(), lead, old(self).root()) {
                Parsed::Done(root, n) => r is Ok && final(self).root() == root
                    && final(self).stream() == old(self).stream().skip(n),
                Parsed::Fail(e) => r is Err && r->Err_0 == e && final(self).root()
                    == old(self).root(),
            },
    {
        reveal(top);
        let ghost s0 = self.stream();
        if lead.kind == TokenType::KwPub {
            let next = self.expect_one()?;
            if !self.parse_item(next.kind, true)? {
                return Err(Error::UnexpectedToken(next.slice));
            }
            proof {
                lemma_skip_skip(
                    s0,
                    1,
                    item(s0.skip(1), next.kind, true, old(self).ast@)->0->Done_1,
                );
            }
        } else {
            if !self.parse_item(lead.kind, false)? {
                self.errors.push(Error::UnexpectedToken(lead.slice));
                proof {
                    lemma_skip_none(s0);
                }
            }
        }
        Ok(())
    }

    /// Parses the whole source into `ast`.
    ///
    /// A token at the top level that opens no item is passed over; an
    /// `UnexpectedToken` with its span is added to `errors` for it. The first
    /// error of the tokenizer or the grammar ends the parse and is returned;
    /// `ast` and `errors` then hold what was gathered before the item in
    /// which the error lay.
    #[verifier::rlimit(60)]
    pub fn parse(&mut self) -> (r: Result<(), Error>)
        ensures
            parsed(*old(self), *final(self), r),
            old(self).wf() ==> final(self).wf(),
            sound(*old(self), r),
            old(self).wf() && old(self).notes_ok() ==> final(self).notes_ok(),
            old(self).wf() && old(self).ast@.spans_in(old(self).lex.src()) && r is Ok
                ==> final(self).ast@.spans_in(old(self).lex.src()),
    {
        let ghost s0 = self.stream();
        let ghost mut k: nat = 0;
        proof {
            lemma_skip_none(s0);
        }
        loop
            invariant
                self.lex.src() == old(self).lex.src(),
                old(self).wf() ==> self.wf(),
                old(self).wf() && old(self).notes_ok() ==> self.notes_ok(),
                old(self).wf() && old(self).ast@.spans_in(self.lex.src()) ==> self.ast@.spans_in(
                    self.lex.src(),
                ),
                s0 == old(self).stream(),
                self.stream() == s0.skip(k),
                items(s0, old(self).root()) == items(self.stream(), self.root()).after(k),
                reached(s0, old(self).root()) == reached(self.stream(), self.root()),
            decreases self.stream().toks.len(),
        {
            let ghost cur = self.stream();
            let ghost root = self.root();
            proof {
                lemma_reached(cur, root);
            }
            let tok = match self.advance()? {
                Some(tok) => tok,
                None => {
                    return Ok(());
                },
            };
            self.parse_top(tok)?;
            proof {
                let n = top(cur.skip(1), tok, root)->Done_1;
                lemma_skip_skip(cur, 1, n);
                lemma_skip_skip(s0, k, 1 + n);
                k = k + 1 + n;
            }
        }
    }
}

} // verus!

//! The grammar, as functions from a token stream to what the parser makes
//! of it.
//!
//! Each production takes the stream that lies before the parser and says
//! either which tree it builds and how many tokens it reads for that, or
//! with which error it stops. Reading past the last token of a stream gives
//! the lexical error that ended the stream, or `UnexpectedEof`.

use vstd::prelude::*;
use crate::error::Error;
use crate::hir::tree::{
    Const, Decl, Expr, Field, Func, Impl, Module, Param, Stmt, Tree, Ty, Variant,
};
use crate::scan::Stream;
use crate::span::Str;
use crate::token::{Token, TokenType};

verus! {

/// The outcome of a production.
pub enum Parsed<T> {
    /// What was built, and how many tokens were read for it.
    Done(T, nat),
    /// The error that stopped the production.
    Fail(Error),
}

impl<T> Parsed<T> {
    /// The same outcome for a production that has read `k` tokens before.
    pub open spec fn after(self, k: nat) -> Parsed<T> {
        match self {
            Parsed::Done(v, n) => Parsed::Done(v, k + n),
            Parsed::Fail(e) => Parsed::Fail(e),
        }
    }
}

/// Reads one token.
pub open spec fn take(s: Stream) -> Parsed<Token> {
    if s.toks.len() > 0 {
        Parsed::Done(s.toks[0], 1)
    } else {
        Parsed::Fail(s.past_end())
    }
}

/// Looks at the next token without reading it.
pub open spec fn look(s: Stream) -> Parsed<Token> {
    if s.toks.len() > 0 {
        Parsed::Done(s.toks[0], 0)
    } else {
        Parsed::Fail(s.past_end())
    }
}

/// Reads one token, which must be of kind `kind`.
pub open spec fn want(s: Stream, kind: TokenType) -> Parsed<Token> {
    match take(s) {
        Parsed::Done(t, n) => if t.kind == kind {
            Parsed::Done(t, n)
        } else {
            Parsed::Fail(Error::UnexpectedToken(t.slice))
        },
        Parsed::Fail(e) => Parsed::Fail(e),
    }
}

/// Reads the next token if it is of kind `kind`.
pub open spec fn opt(s: Stream, kind: TokenType) -> Parsed<Option<Token>> {
    match look(s) {
        Parsed::Done(t, _) => if t.kind == kind {
            Parsed::Done(Some(t), 1)
        } else {
            Parsed::Done(None, 0)
        },
        Parsed::Fail(e) => Parsed::Fail(e),
    }
}

/// `(. name)*`: the rest of a dotted path whose first names are `acc`.
pub open spec fn path_rest(s: Stream, acc: Seq<Str>) -> Parsed<Seq<Str>>
    decreases s.toks.len(),
{
    match opt(s, TokenType::Dot) {
        Parsed::Fail(e) => Parsed::Fail(e),
        Parsed::Done(None, _) => Parsed::Done(acc, 0),
        Parsed::Done(Some(_), _) => match want(s.skip(1), TokenType::Identifier) {
            Parsed::Fail(e) => Parsed::Fail(e),
            Parsed::Done(t, _) => path_rest(s.skip(2), acc.push(t.slice)).after(2),
        },
    }
}

/// `self`, where it is special: directly behind the sigils of a reference
/// that is not itself wrapped in one (`outer`).
pub open spec fn self_opt(s: Stream, outer: bool) -> Parsed<bool> {
    if outer {
        match opt(s, TokenType::KwSelf) {
            Parsed::Fail(e) => Parsed::Fail(e),
            Parsed::Done(t, n) => Parsed::Done(t is Some, n),
        }
    } else {
        Parsed::Done(false, 0)
    }
}

/// The type that a dotted path names.
pub open spec fn direct(p: Parsed<Seq<Str>>) -> Parsed<Ty> {
    match p {
        Parsed::Fail(e) => Parsed::Fail(e),
        Parsed::Done(path, n) => Parsed::Done(Ty::Direct { path }, n),
    }
}

/// A type expression: `*` and `*const` wrap the type that follows in a
/// reference; anything else is a dotted path. `outer` says that no
/// reference is wrapped around this expression.
pub open spec fn ty(s: Stream, outer: bool) -> Parsed<Ty>
    decreases s.toks.len(), 0nat,
{
    match opt(s, TokenType::Star) {
        Parsed::Fail(e) => Parsed::Fail(e),
        Parsed::Done(Some(_), _) => pointee(s.skip(1), outer).after(1),
        Parsed::Done(None, _) => match want(s, TokenType::Identifier) {
            Parsed::Fail(e) => Parsed::Fail(e),
            Parsed::Done(base, _) => direct(path_rest(s.skip(1), seq![base.slice])).after(1),
        },
    }
}

/// What follows the `*` of a reference.
pub open spec fn pointee(s: Stream, outer: bool) -> Parsed<Ty>
    decreases s.toks.len(), 1nat,
{
    match self_opt(s, outer) {
        Parsed::Fail(e) => Parsed::Fail(e),
        Parsed::Done(true, n) => Parsed::Done(Ty::Reference { ty: Box::new(Ty::SelfType) }, n),
        Parsed::Done(false, _) => match opt(s, TokenType::KwConst) {
            Parsed::Fail(e) => Parsed::Fail(e),
            Parsed::Done(None, _) => match ty(s, false) {
                Parsed::Fail(e) => Parsed::Fail(e),
                Parsed::Done(t, n) => Parsed::Done(Ty::Reference { ty: Box::new(t) }, n),
            },
            Parsed::Done(Some(_), _) => match self_opt(s.skip(1), outer) {
                Parsed::Fail(e) => Parsed::Fail(e),
                Parsed::Done(true, n) => Parsed::Done(
                    Ty::ConstReference { ty: Box::new(Ty::SelfType) },
                    1 + n,
                ),
                Parsed::Done(false, _) => match ty(s.skip(1), false) {
                    Parsed::Fail(e) => Parsed::Fail(e),
                    Parsed::Done(t, n) => Parsed::Done(
                        Ty::ConstReference { ty: Box::new(t) },
                        1 + n,
                    ),
                },
            },
        },
    }
}

/// `(lead type)?`
pub open spec fn opt_ty(s: Stream, lead: TokenType) -> Parsed<Option<Ty>> {
    match opt(s, lead) {
        Parsed::Fail(e) => Parsed::Fail(e),
        Parsed::Done(None, _) => Parsed::Done(None, 0),
        Parsed::Done(Some(_), _) => match ty(s.skip(1), true) {
            Parsed::Fail(e) => Parsed::Fail(e),
            Parsed::Done(t, n) => Parsed::Done(Some(t), 1 + n),
        },
    }
}

/// The tree of `op left right`.
pub open spec fn binary_of(op: Token, left: Expr, right: Expr) -> Expr {
    Expr::BinaryOp { op, left: Box::new(left), right: Box::new(right) }
}

/// The tree of `callee(args)`.
pub open spec fn call_of(callee: Expr, args: Seq<Expr>) -> Expr {
    Expr::Call { expr: Box::new(callee), args }
}

/// An expression: an operand, and the binary operators and operands that
/// follow it.
pub open spec fn expr(s: Stream) -> Parsed<Expr>
    decreases s.toks.len(), 3nat,
{
    match unary(s) {
        Parsed::Fail(e) => Parsed::Fail(e),
        Parsed::Done(left, n) => binary(s.skip(n), left, 0).after(n),
    }
}

/// The kinds of tokens with which an operand may begin.
pub open spec fn starts_operand(kind: TokenType) -> bool {
    kind.unary() || kind == TokenType::LeftParen || kind == TokenType::Integer || kind
        == TokenType::Float || kind == TokenType::String || kind == TokenType::Identifier
}

/// An operand: prefix operators, then a parenthesized expression, a literal
/// or a name, then the accesses and calls that follow it.
pub open spec fn unary(s: Stream) -> Parsed<Expr>
    decreases s.toks.len(), 2nat,
{
    match take(s) {
        Parsed::Fail(e) => Parsed::Fail(e),
        Parsed::Done(t, _) => if t.kind.unary() {
            match unary(s.skip(1)) {
                Parsed::Fail(e) => Parsed::Fail(e),
                Parsed::Done(arg, n) => Parsed::Done(
                    Expr::UnaryOp { op: t, arg: Box::new(arg) },
                    1 + n,
                ),
            }
        } else {
            match t.kind {
                TokenType::LeftParen => match expr(s.skip(1)) {
                    Parsed::Fail(e) => Parsed::Fail(e),
                    Parsed::Done(inner, n) => match want(s.skip(1 + n), TokenType::RightParen) {
                        Parsed::Fail(e) => Parsed::Fail(e),
                        Parsed::Done(_, _) => access(s.skip(2 + n), inner).after(2 + n),
                    },
                },
                TokenType::Integer => Parsed::Done(Expr::Int { slice: t.slice }, 1),
                TokenType::Float => Parsed::Done(Expr::Float { slice: t.slice }, 1),
                TokenType::String => access(s.skip(1), Expr::String { slice: t.slice }).after(1),
                TokenType::Identifier => called(s.skip(1), Expr::Access { name: t.slice }).after(1),
                _ => Parsed::Fail(Error::InvalidUnaryExpression(t.slice)),
            }
        },
    }
}

/// What follows a name or an access `callee`: an argument list, if `(`
/// comes next, and then further accesses.
pub open spec fn called(s: Stream, callee: Expr) -> Parsed<Expr>
    decreases s.toks.len(), 6nat,
{
    match look(s) {
        Parsed::Fail(e) => Parsed::Fail(e),
        Parsed::Done(t, _) => if t.kind == TokenType::LeftParen {
            match args(s) {
                Parsed::Fail(e) => Parsed::Fail(e),
                Parsed::Done(list, n) => access(s.skip(n), call_of(callee, list)).after(n),
            }
        } else {
            access(s, callee)
        },
    }
}

/// The chain of `.name` and `[index]` behind the expression `left`, each
/// with the argument list that may follow it.
pub open spec fn access(s: Stream, left: Expr) -> Parsed<Expr>
    decreases s.toks.len(), 4nat,
{
    match look(s) {
        Parsed::Fail(e) => Parsed::Fail(e),
        Parsed::Done(t, _) => if t.kind == TokenType::Dot {
            match want(s.skip(1), TokenType::Identifier) {
                Parsed::Fail(e) => Parsed::Fail(e),
                Parsed::Done(name, _) => called(
                    s.skip(2),
                    Expr::DotAccess { expr: Box::new(left), name: name.slice },
                ).after(2),
            }
        } else if t.kind == TokenType::LeftBracket {
            match expr(s.skip(1)) {
                Parsed::Fail(e) => Parsed::Fail(e),
                Parsed::Done(index, n) => match want(s.skip(1 + n), TokenType::RightBracket) {
                    Parsed::Fail(e) => Parsed::Fail(e),
                    Parsed::Done(_, _) => called(
                        s.skip(2 + n),
                        Expr::IndexAccess { expr: Box::new(left), index: Box::new(index) },
                    ).after(2 + n),
                },
            }
        } else {
            Parsed::Done(left, 0)
        },
    }
}

/// The binary operators behind the operand `left` that bind tighter than
/// `floor`, with their operands, folded onto `left`.
///
/// An operator that binds no tighter than `floor` ends the run, and so does
/// a token that is no binary operator. Otherwise the operator takes as its
/// right operand the operand behind it together with the run of operators
/// that bind tighter than itself; it is folded with `left`, and the fold is
/// the left operand of what follows. So a tighter operator is nested in the
/// right operand, and operators of one strength group from the left.
pub open spec fn binary(s: Stream, left: Expr, floor: nat) -> Parsed<Expr>
    decreases s.toks.len(), 1nat,
{
    match look(s) {
        Parsed::Fail(e) => Parsed::Fail(e),
        Parsed::Done(op, _) => if !op.kind.binary() || op.kind.level() <= floor {
            Parsed::Done(left, 0)
        } else {
            match unary(s.skip(1)) {
                Parsed::Fail(e) => Parsed::Fail(e),
                Parsed::Done(operand, n) => match binary(s.skip(1 + n), operand, op.kind.level()) {
                    Parsed::Fail(e) => Parsed::Fail(e),
                    Parsed::Done(right, m) => binary(
                        s.skip(1 + n + m),
                        binary_of(op, left, right),
                        floor,
                    ).after(1 + n + m),
                },
            }
        },
    }
}

/// `( (expr ,)* expr? )`
pub open spec fn args(s: Stream) -> Parsed<Seq<Expr>>
    decreases s.toks.len(), 5nat,
{
    match want(s, TokenType::LeftParen) {
        Parsed::Fail(e) => Parsed::Fail(e),
        Parsed::Done(_, _) => args_rest(s.skip(1), Seq::empty()).after(1),
    }
}

/// The rest of an argument list whose first arguments are `acc`.
pub open spec fn args_rest(s: Stream, acc: Seq<Expr>) -> Parsed<Seq<Expr>>
    decreases s.toks.len(), 4nat,
{
    match look(s) {
        Parsed::Fail(e) => Parsed::Fail(e),
        Parsed::Done(t, _) => if t.kind == TokenType::RightParen {
            Parsed::Done(acc, 1)
        } else {
            match expr(s) {
                Parsed::Fail(e) => Parsed::Fail(e),
                Parsed::Done(arg, n) => match opt(s.skip(n), TokenType::Comma) {
                    Parsed::Fail(e) => Parsed::Fail(e),
                    Parsed::Done(Some(_), _) => args_rest(s.skip(n + 1), acc.push(arg)).after(
                        n + 1,
                    ),
                    Parsed::Done(None, _) => match want(s.skip(n), TokenType::RightParen) {
                        Parsed::Fail(e) => Parsed::Fail(e),
                        Parsed::Done(_, _) => Parsed::Done(acc.push(arg), n + 1),
                    },
                },
            }
        },
    }
}

/// `(lead expr)?`
pub open spec fn opt_expr(s: Stream, lead: TokenType) -> Parsed<Option<Expr>> {
    match opt(s, lead) {
        Parsed::Fail(e) => Parsed::Fail(e),
        Parsed::Done(None, _) => Parsed::Done(None, 0),
        Parsed::Done(Some(_), _) => match expr(s.skip(1)) {
            Parsed::Fail(e) => Parsed::Fail(e),
            Parsed::Done(x, n) => Parsed::Done(Some(x), 1 + n),
        },
    }
}

/// `name (: type)? (= expr)? ;`: what follows `var` or `const`.
pub open spec fn var_decl(s: Stream) -> Parsed<(Str, Option<Ty>, Option<Expr>)> {
    match want(s, TokenType::Identifier) {
        Parsed::Fail(e) => Parsed::Fail(e),
        Parsed::Done(name, _) => match opt_ty(s.skip(1), TokenType::Colon) {
            Parsed::Fail(e) => Parsed::Fail(e),
            Parsed::Done(t, a) => match opt_expr(s.skip(1 + a), TokenType::Equal) {
                Parsed::Fail(e) => Parsed::Fail(e),
                Parsed::Done(x, b) => match want(s.skip(1 + a + b), TokenType::Semicolon) {
                    Parsed::Fail(e) => Parsed::Fail(e),
                    Parsed::Done(_, _) => Parsed::Done((name.slice, t, x), 2 + a + b),
                },
            },
        },
    }
}

/// Whether an expression may stand on the left of `=`.
pub open spec fn assignable(x: Expr) -> bool {
    x is Access || x is DotAccess || x is IndexAccess
}

/// `{ statement* }`
pub open spec fn block(s: Stream) -> Parsed<Seq<Stmt>>
    decreases s.toks.len(), 2nat,
{
    match want(s, TokenType::LeftBrace) {
        Parsed::Fail(e) => Parsed::Fail(e),
        Parsed::Done(_, _) => block_rest(s.skip(1), Seq::empty()).after(1),
    }
}

/// The rest of a block whose first statements are `acc`.
///
/// The test `n > 0` is there for the definition's sake: every statement
/// reads a token, as `lemma_statement_reads` shows.
pub open spec fn block_rest(s: Stream, acc: Seq<Stmt>) -> Parsed<Seq<Stmt>>
    decreases s.toks.len(), 1nat,
{
    match opt(s, TokenType::RightBrace) {
        Parsed::Fail(e) => Parsed::Fail(e),
        Parsed::Done(Some(_), _) => Parsed::Done(acc, 1),
        Parsed::Done(None, _) => match statement(s) {
            Parsed::Fail(e) => Parsed::Fail(e),
            Parsed::Done(st, n) => if n > 0 {
                block_rest(s.skip(n), acc.push(st)).after(n)
            } else {
                Parsed::Fail(Error::UnexpectedExpression)
            },
        },
    }
}

/// `expr block`
pub open spec fn guarded(s: Stream) -> Parsed<(Expr, Seq<Stmt>)>
    decreases s.toks.len(), 3nat,
{
    match expr(s) {
        Parsed::Fail(e) => Parsed::Fail(e),
        Parsed::Done(cond, a) => match block(s.skip(a)) {
            Parsed::Fail(e) => Parsed::Fail(e),
            Parsed::Done(body, b) => Parsed::Done((cond, body), a + b),
        },
    }
}

/// `cond block (elseif cond block)* (else block)?`: what follows `if` or
/// `elseif`.
pub open spec fn if_rest(s: Stream) -> Parsed<Stmt>
    decreases s.toks.len(), 4nat,
{
    match guarded(s) {
        Parsed::Fail(e) => Parsed::Fail(e),
        Parsed::Done((cond, body), a) => match else_chain(s.skip(a)) {
            Parsed::Fail(e) => Parsed::Fail(e),
            Parsed::Done(else_block, b) => Parsed::Done(
                Stmt::If { cond, block: body, else_block },
                a + b,
            ),
        },
    }
}

/// What follows the block of an `if`: an `elseif` is an `else` whose block
/// is one nested `if`.
pub open spec fn else_chain(s: Stream) -> Parsed<Option<Seq<Stmt>>>
    decreases s.toks.len(), 3nat,
{
    match look(s) {
        Parsed::Fail(e) => Parsed::Fail(e),
        Parsed::Done(t, _) => if t.kind == TokenType::KwElseif {
            match if_rest(s.skip(1)) {
                Parsed::Fail(e) => Parsed::Fail(e),
                Parsed::Done(nested, n) => Parsed::Done(Some(seq![nested]), 1 + n),
            }
        } else if t.kind == TokenType::KwElse {
            match block(s.skip(1)) {
                Parsed::Fail(e) => Parsed::Fail(e),
                Parsed::Done(body, n) => Parsed::Done(Some(body), 1 + n),
            }
        } else {
            Parsed::Done(None, 0)
        },
    }
}

/// `= expr ;` behind the assignable expression `target`.
pub open spec fn assign_rest(s: Stream, target: Expr) -> Parsed<Stmt> {
    match want(s, TokenType::Equal) {
        Parsed::Fail(e) => Parsed::Fail(e),
        Parsed::Done(_, _) => match expr(s.skip(1)) {
            Parsed::Fail(e) => Parsed::Fail(e),
            Parsed::Done(value, n) => match want(s.skip(1 + n), TokenType::Semicolon) {
                Parsed::Fail(e) => Parsed::Fail(e),
                Parsed::Done(_, _) => Parsed::Done(Stmt::Assign { expr: target, value }, 2 + n),
            },
        },
    }
}

/// A statement that begins with an expression: a call, or an assignment to
/// a name, a field or an element.
pub open spec fn expr_statement(s: Stream) -> Parsed<Stmt> {
    match expr(s) {
        Parsed::Fail(e) => Parsed::Fail(e),
        Parsed::Done(x, n) => match x {
            Expr::Call { expr: callee, args: list } => match want(s.skip(n), TokenType::Semicolon) {
                Parsed::Fail(e) => Parsed::Fail(e),
                Parsed::Done(_, _) => Parsed::Done(Stmt::Call { expr: *callee, args: list }, n + 1),
            },
            _ => if assignable(x) {
                assign_rest(s.skip(n), x).after(n)
            } else {
                Parsed::Fail(Error::UnexpectedExpression)
            },
        },
    }
}

/// `name in expr block`: what follows `for`.
pub open spec fn for_rest(s: Stream) -> Parsed<Stmt>
    decreases s.toks.len(), 4nat,
{
    match want(s, TokenType::Identifier) {
        Parsed::Fail(e) => Parsed::Fail(e),
        Parsed::Done(name, _) => match want(s.skip(1), TokenType::KwIn) {
            Parsed::Fail(e) => Parsed::Fail(e),
            Parsed::Done(_, _) => match guarded(s.skip(2)) {
                Parsed::Fail(e) => Parsed::Fail(e),
                Parsed::Done((x, body), n) => Parsed::Done(
                    Stmt::For { name: name.slice, expr: x, block: body },
                    2 + n,
                ),
            },
        },
    }
}

/// `expr ;`: what follows `return`.
pub open spec fn return_rest(s: Stream) -> Parsed<Stmt> {
    match expr(s) {
        Parsed::Fail(e) => Parsed::Fail(e),
        Parsed::Done(x, n) => match want(s.skip(n), TokenType::Semicolon) {
            Parsed::Fail(e) => Parsed::Fail(e),
            Parsed::Done(_, _) => Parsed::Done(Stmt::Return { expr: x }, n + 1),
        },
    }
}

/// `;` behind a keyword that is a statement by itself.
pub open spec fn bare(s: Stream, st: Stmt) -> Parsed<Stmt> {
    match want(s, TokenType::Semicolon) {
        Parsed::Fail(e) => Parsed::Fail(e),
        Parsed::Done(_, _) => Parsed::Done(st, 1),
    }
}

/// One statement.
pub open spec fn statement(s: Stream) -> Parsed<Stmt>
    decreases s.toks.len(), 0nat,
{
    match look(s) {
        Parsed::Fail(e) => Parsed::Fail(e),
        Parsed::Done(t, _) => match t.kind {
            TokenType::KwVar => match var_decl(s.skip(1)) {
                Parsed::Fail(e) => Parsed::Fail(e),
                Parsed::Done((name, ty, expr), n) => Parsed::Done(
                    Stmt::VarDecl { name, ty, expr },
                    1 + n,
                ),
            },
            TokenType::KwConst => match var_decl(s.skip(1)) {
                Parsed::Fail(e) => Parsed::Fail(e),
                Parsed::Done((name, ty, expr), n) => Parsed::Done(
                    Stmt::ConstDecl { name, ty, expr },
                    1 + n,
                ),
            },
            TokenType::KwIf => if_rest(s.skip(1)).after(1),
            TokenType::KwWhile => match guarded(s.skip(1)) {
                Parsed::Fail(e) => Parsed::Fail(e),
                Parsed::Done((cond, body), n) => Parsed::Done(
                    Stmt::While { cond, block: body },
                    1 + n,
                ),
            },
            TokenType::KwFor => for_rest(s.skip(1)).after(1),
            TokenType::KwReturn => return_rest(s.skip(1)).after(1),
            TokenType::KwContinue => bare(s.skip(1), Stmt::Continue).after(1),
            TokenType::KwBreak => bare(s.skip(1), Stmt::Break).after(1),
            _ => expr_statement(s),
        },
    }
}

/// Every statement reads at least one token.
pub proof fn lemma_statement_reads(s: Stream)
    ensures
        statement(s) matches Parsed::Done(_, n) ==> n > 0,
{
}

/// `( (type name ,)* (type name)? )`
pub open spec fn params(s: Stream) -> Parsed<Seq<Param>> {
    match want(s, TokenType::LeftParen) {
        Parsed::Fail(e) => Parsed::Fail(e),
        Parsed::Done(_, _) => params_rest(s.skip(1), Seq::empty()).after(1),
    }
}

/// The rest of a parameter list whose first parameters are `acc`.
pub open spec fn params_rest(s: Stream, acc: Seq<Param>) -> Parsed<Seq<Param>>
    decreases s.toks.len(),
{
    match opt(s, TokenType::RightParen) {
        Parsed::Fail(e) => Parsed::Fail(e),
        Parsed::Done(Some(_), _) => Parsed::Done(acc, 1),
        Parsed::Done(None, _) => match ty(s, true) {
            Parsed::Fail(e) => Parsed::Fail(e),
            Parsed::Done(t, a) => match want(s.skip(a), TokenType::Identifier) {
                Parsed::Fail(e) => Parsed::Fail(e),
                Parsed::Done(name, _) => {
                    let more = acc.push(Param { name: name.slice, ty: t });
                    match opt(s.skip(a + 1), TokenType::Comma) {
                        Parsed::Fail(e) => Parsed::Fail(e),
                        Parsed::Done(Some(_), _) => params_rest(s.skip(a + 2), more).after(a + 2),
                        Parsed::Done(None, _) => match want(s.skip(a + 1), TokenType::RightParen) {
                            Parsed::Fail(e) => Parsed::Fail(e),
                            Parsed::Done(_, _) => Parsed::Done(more, a + 2),
                        },
                    }
                },
            },
        },
    }
}

/// `; | block`: a signature ends with `;`, a definition with its body.
pub open spec fn body(s: Stream) -> Parsed<Option<Seq<Stmt>>> {
    match opt(s, TokenType::Semicolon) {
        Parsed::Fail(e) => Parsed::Fail(e),
        Parsed::Done(Some(_), _) => Parsed::Done(None, 1),
        Parsed::Done(None, _) => match block(s) {
            Parsed::Fail(e) => Parsed::Fail(e),
            Parsed::Done(b, n) => Parsed::Done(Some(b), n),
        },
    }
}

/// `name params (-> type)? (; | block)`: what follows `fun`.
#[verifier::opaque]
pub open spec fn function(s: Stream, public: bool) -> Parsed<Func> {
    match want(s, TokenType::Identifier) {
        Parsed::Fail(e) => Parsed::Fail(e),
        Parsed::Done(name, _) => match params(s.skip(1)) {
            Parsed::Fail(e) => Parsed::Fail(e),
            Parsed::Done(ps, a) => match opt_ty(s.skip(1 + a), TokenType::Arrow) {
                Parsed::Fail(e) => Parsed::Fail(e),
                Parsed::Done(ret, b) => match body(s.skip(1 + a + b)) {
                    Parsed::Fail(e) => Parsed::Fail(e),
                    Parsed::Done(bd, c) => Parsed::Done(
                        Func {
                            name: name.slice,
                            public,
                            params: ps,
                            return_type: ret,
                            body: bd,
                        },
                        1 + a + b + c,
                    ),
                },
            },
        },
    }
}

/// `fun` and a function: what a body that holds only functions holds.
pub open spec fn fun_item(s: Stream, public: bool) -> Parsed<Func> {
    match want(s, TokenType::KwFun) {
        Parsed::Fail(e) => Parsed::Fail(e),
        Parsed::Done(_, _) => function(s.skip(1), public).after(1),
    }
}

/// `type name ;`
pub open spec fn field(s: Stream, public: bool) -> Parsed<Field> {
    match ty(s, true) {
        Parsed::Fail(e) => Parsed::Fail(e),
        Parsed::Done(t, a) => match want(s.skip(a), TokenType::Identifier) {
            Parsed::Fail(e) => Parsed::Fail(e),
            Parsed::Done(name, _) => match want(s.skip(a + 1), TokenType::Semicolon) {
                Parsed::Fail(e) => Parsed::Fail(e),
                Parsed::Done(_, _) => Parsed::Done(
                    Field { name: name.slice, public, ty: t },
                    a + 2,
                ),
            },
        },
    }
}

/// The rest of the type list of a tuple variant whose first types are
/// `acc`.
pub open spec fn tuple_rest(s: Stream, acc: Seq<Ty>) -> Parsed<Seq<Ty>>
    decreases s.toks.len(),
{
    match opt(s, TokenType::RightParen) {
        Parsed::Fail(e) => Parsed::Fail(e),
        Parsed::Done(Some(_), _) => Parsed::Done(acc, 1),
        Parsed::Done(None, _) => match ty(s, true) {
            Parsed::Fail(e) => Parsed::Fail(e),
            Parsed::Done(t, a) => match opt(s.skip(a), TokenType::Comma) {
                Parsed::Fail(e) => Parsed::Fail(e),
                Parsed::Done(Some(_), _) => tuple_rest(s.skip(a + 1), acc.push(t)).after(a + 1),
                Parsed::Done(None, _) => match want(s.skip(a), TokenType::RightParen) {
                    Parsed::Fail(e) => Parsed::Fail(e),
                    Parsed::Done(_, _) => Parsed::Done(acc.push(t), a + 1),
                },
            },
        },
    }
}

/// The rest of the field list of a struct variant whose first fields are
/// `acc`.
pub open spec fn fields_rest(s: Stream, acc: Seq<Field>) -> Parsed<Seq<Field>>
    decreases s.toks.len(),
{
    match opt(s, TokenType::RightBrace) {
        Parsed::Fail(e) => Parsed::Fail(e),
        Parsed::Done(Some(_), _) => Parsed::Done(acc, 1),
        Parsed::Done(None, _) => match field(s, true) {
            Parsed::Fail(e) => Parsed::Fail(e),
            Parsed::Done(f, n) => fields_rest(s.skip(n), acc.push(f)).after(n),
        },
    }
}

/// A variant of an enum: `name ;`, `name ( types ) ;` or `name { fields }`.
pub open spec fn variant(s: Stream) -> Parsed<Variant> {
    match want(s, TokenType::Identifier) {
        Parsed::Fail(e) => Parsed::Fail(e),
        Parsed::Done(name, _) => match take(s.skip(1)) {
            Parsed::Fail(e) => Parsed::Fail(e),
            Parsed::Done(t, _) => if t.kind == TokenType::Semicolon {
                Parsed::Done(Variant::Empty { name: name.slice }, 2)
            } else if t.kind == TokenType::LeftParen {
                match tuple_rest(s.skip(2), Seq::empty()) {
                    Parsed::Fail(e) => Parsed::Fail(e),
                    Parsed::Done(types, n) => match want(s.skip(2 + n), TokenType::Semicolon) {
                        Parsed::Fail(e) => Parsed::Fail(e),
                        Parsed::Done(_, _) => Parsed::Done(
                            Variant::Tuple { name: name.slice, types },
                            3 + n,
                        ),
                    },
                }
            } else if t.kind == TokenType::LeftBrace {
                match fields_rest(s.skip(2), Seq::empty()) {
                    Parsed::Fail(e) => Parsed::Fail(e),
                    Parsed::Done(fields, n) => Parsed::Done(
                        Variant::Struct { name: name.slice, fields },
                        2 + n,
                    ),
                }
            } else {
                Parsed::Fail(Error::UnexpectedToken(t.slice))
            },
        },
    }
}

/// The rest of a body of functions whose first functions are `acc`; each
/// may be marked public where `marks` says so.
pub open spec fn funs_rest(s: Stream, acc: Seq<Func>, marks: bool) -> Parsed<Seq<Func>>
    decreases s.toks.len(),
{
    match opt(s, TokenType::RightBrace) {
        Parsed::Fail(e) => Parsed::Fail(e),
        Parsed::Done(Some(_), _) => Parsed::Done(acc, 1),
        Parsed::Done(None, _) => match (if marks {
            opt(s, TokenType::KwPub)
        } else {
            Parsed::<Option<Token>>::Done(None, 0)
        }) {
            Parsed::Fail(e) => Parsed::Fail(e),
            Parsed::Done(mark, a) => match fun_item(s.skip(a), mark is Some) {
                Parsed::Fail(e) => Parsed::Fail(e),
                Parsed::Done(f, n) => funs_rest(s.skip(a + n), acc.push(f), marks).after(a + n),
            },
        },
    }
}

/// The rest of a struct's body whose first fields and functions are
/// `fields` and `funs`.
pub open spec fn struct_rest(s: Stream, fields: Seq<Field>, funs: Seq<Func>) -> Parsed<
    (Seq<Field>, Seq<Func>),
>
    decreases s.toks.len(),
{
    match opt(s, TokenType::RightBrace) {
        Parsed::Fail(e) => Parsed::Fail(e),
        Parsed::Done(Some(_), _) => Parsed::Done((fields, funs), 1),
        Parsed::Done(None, _) => match opt(s, TokenType::KwPub) {
            Parsed::Fail(e) => Parsed::Fail(e),
            Parsed::Done(mark, a) => match opt(s.skip(a), TokenType::KwFun) {
                Parsed::Fail(e) => Parsed::Fail(e),
                Parsed::Done(Some(_), _) => match function(s.skip(a + 1), mark is Some) {
                    Parsed::Fail(e) => Parsed::Fail(e),
                    Parsed::Done(f, n) => struct_rest(
                        s.skip(a + 1 + n),
                        fields,
                        funs.push(f),
                    ).after(a + 1 + n),
                },
                Parsed::Done(None, _) => match field(s.skip(a), mark is Some) {
                    Parsed::Fail(e) => Parsed::Fail(e),
                    Parsed::Done(f, n) => struct_rest(s.skip(a + n), fields.push(f), funs).after(
                        a + n,
                    ),
                },
            },
        },
    }
}

/// The rest of an enum's body whose first variants and functions are
/// `variants` and `funs`.
pub open spec fn enum_rest(s: Stream, variants: Seq<Variant>, funs: Seq<Func>) -> Parsed<
    (Seq<Variant>, Seq<Func>),
>
    decreases s.toks.len(),
{
    match opt(s, TokenType::RightBrace) {
        Parsed::Fail(e) => Parsed::Fail(e),
        Parsed::Done(Some(_), _) => Parsed::Done((variants, funs), 1),
        Parsed::Done(None, _) => match look(s) {
            Parsed::Fail(e) => Parsed::Fail(e),
            Parsed::Done(t, _) => if t.kind == TokenType::KwPub {
                match fun_item(s.skip(1), true) {
                    Parsed::Fail(e) => Parsed::Fail(e),
                    Parsed::Done(f, n) => enum_rest(s.skip(1 + n), variants, funs.push(f)).after(
                        1 + n,
                    ),
                }
            } else if t.kind == TokenType::KwFun {
                match function(s.skip(1), false) {
                    Parsed::Fail(e) => Parsed::Fail(e),
                    Parsed::Done(f, n) => enum_rest(s.skip(1 + n), variants, funs.push(f)).after(
                        1 + n,
                    ),
                }
            } else {
                match variant(s) {
                    Parsed::Fail(e) => Parsed::Fail(e),
                    Parsed::Done(v, n) => enum_rest(s.skip(n), variants.push(v), funs).after(n),
                }
            },
        },
    }
}

/// `name {`: the head of a trait, struct or enum declaration.
pub open spec fn decl_head(s: Stream) -> Parsed<Str> {
    match want(s, TokenType::Identifier) {
        Parsed::Fail(e) => Parsed::Fail(e),
        Parsed::Done(name, _) => match want(s.skip(1), TokenType::LeftBrace) {
            Parsed::Fail(e) => Parsed::Fail(e),
            Parsed::Done(_, _) => Parsed::Done(name.slice, 2),
        },
    }
}

/// `name ;`: what follows `module`.
pub open spec fn module_decl(s: Stream, public: bool) -> Parsed<Module> {
    match want(s, TokenType::Identifier) {
        Parsed::Fail(e) => Parsed::Fail(e),
        Parsed::Done(name, _) => match want(s.skip(1), TokenType::Semicolon) {
            Parsed::Fail(e) => Parsed::Fail(e),
            Parsed::Done(_, _) => Parsed::Done(Module { name: name.slice, public }, 2),
        },
    }
}

/// What follows `const` at the top level.
pub open spec fn const_decl(s: Stream, public: bool) -> Parsed<Const> {
    match var_decl(s) {
        Parsed::Fail(e) => Parsed::Fail(e),
        Parsed::Done((name, ty, expr), n) => Parsed::Done(Const { name, public, ty, expr }, n),
    }
}

/// `name { (fun function)* }`: what follows `trait`.
pub open spec fn trait_decl(s: Stream, public: bool) -> Parsed<Decl> {
    match decl_head(s) {
        Parsed::Fail(e) => Parsed::Fail(e),
        Parsed::Done(name, _) => match funs_rest(s.skip(2), Seq::empty(), false) {
            Parsed::Fail(e) => Parsed::Fail(e),
            Parsed::Done(functions, n) => Parsed::Done(
                Decl::Trait { name, public, functions },
                2 + n,
            ),
        },
    }
}

/// `name { (pub? (fun function | field))* }`: what follows `struct`.
pub open spec fn struct_decl(s: Stream, public: bool) -> Parsed<Decl> {
    match decl_head(s) {
        Parsed::Fail(e) => Parsed::Fail(e),
        Parsed::Done(name, _) => match struct_rest(s.skip(2), Seq::empty(), Seq::empty()) {
            Parsed::Fail(e) => Parsed::Fail(e),
            Parsed::Done((fields, functions), n) => Parsed::Done(
                Decl::Struct { name, public, fields, functions },
                2 + n,
            ),
        },
    }
}

/// `name { (pub? fun function | variant)* }`: what follows `enum`.
pub open spec fn enum_decl(s: Stream, public: bool) -> Parsed<Decl> {
    match decl_head(s) {
        Parsed::Fail(e) => Parsed::Fail(e),
        Parsed::Done(name, _) => match enum_rest(s.skip(2), Seq::empty(), Seq::empty()) {
            Parsed::Fail(e) => Parsed::Fail(e),
            Parsed::Done((variants, functions), n) => Parsed::Done(
                Decl::Enum { name, public, variants, functions },
                2 + n,
            ),
        },
    }
}

/// `type : type { (pub? fun function)* }`: what follows `impl`.
pub open spec fn impl_decl(s: Stream) -> Parsed<Impl> {
    match ty(s, true) {
        Parsed::Fail(e) => Parsed::Fail(e),
        Parsed::Done(target, a) => match want(s.skip(a), TokenType::Colon) {
            Parsed::Fail(e) => Parsed::Fail(e),
            Parsed::Done(_, _) => match ty(s.skip(a + 1), true) {
                Parsed::Fail(e) => Parsed::Fail(e),
                Parsed::Done(trait_ty, b) => match want(s.skip(a + 1 + b), TokenType::LeftBrace) {
                    Parsed::Fail(e) => Parsed::Fail(e),
                    Parsed::Done(_, _) => match funs_rest(
                        s.skip(a + b + 2),
                        Seq::empty(),
                        true,
                    ) {
                        Parsed::Fail(e) => Parsed::Fail(e),
                        Parsed::Done(functions, n) => Parsed::Done(
                            Impl { target, trait_ty, functions },
                            a + b + 2 + n,
                        ),
                    },
                },
            },
        },
    }
}

/// One import behind the names `prefix`: the leaf paths it expands to, in
/// source order. A name extends the prefix; `.` goes on with the extended
/// prefix, `:` opens a group whose members all start from it, and anything
/// else ends a leaf.
pub open spec fn import(s: Stream, prefix: Seq<Str>) -> Parsed<Seq<Seq<Str>>>
    decreases s.toks.len(), 0nat,
{
    match want(s, TokenType::Identifier) {
        Parsed::Fail(e) => Parsed::Fail(e),
        Parsed::Done(name, _) => {
            let path = prefix.push(name.slice);
            match look(s.skip(1)) {
                Parsed::Fail(e) => Parsed::Fail(e),
                Parsed::Done(t, _) => if t.kind == TokenType::Dot {
                    import(s.skip(2), path).after(2)
                } else if t.kind == TokenType::Colon {
                    import_group(s.skip(2), path).after(2)
                } else {
                    Parsed::Done(seq![path], 1)
                },
            }
        },
    }
}

/// `{ import (, import)* }` behind the names `prefix`.
pub open spec fn import_group(s: Stream, prefix: Seq<Str>) -> Parsed<Seq<Seq<Str>>>
    decreases s.toks.len(), 0nat,
{
    match want(s, TokenType::LeftBrace) {
        Parsed::Fail(e) => Parsed::Fail(e),
        Parsed::Done(_, _) => group_rest(s.skip(1), prefix, Seq::empty()).after(1),
    }
}

/// The rest of a group whose first members gave the paths `acc`.
pub open spec fn group_rest(s: Stream, prefix: Seq<Str>, acc: Seq<Seq<Str>>) -> Parsed<
    Seq<Seq<Str>>,
>
    decreases s.toks.len(), 1nat,
{
    match import(s, prefix) {
        Parsed::Fail(e) => Parsed::Fail(e),
        Parsed::Done(paths, n) => match take(s.skip(n)) {
            Parsed::Fail(e) => Parsed::Fail(e),
            Parsed::Done(t, _) => if t.kind == TokenType::RightBrace {
                Parsed::Done(acc + paths, n + 1)
            } else if t.kind == TokenType::Comma {
                group_rest(s.skip(n + 1), prefix, acc + paths).after(n + 1)
            } else {
                Parsed::Fail(Error::UnexpectedToken(t.slice))
            },
        },
    }
}

/// `import ;`: what follows `import` at the top level.
pub open spec fn import_decl(s: Stream) -> Parsed<Seq<Seq<Str>>> {
    match import(s, Seq::empty()) {
        Parsed::Fail(e) => Parsed::Fail(e),
        Parsed::Done(paths, n) => match want(s.skip(n), TokenType::Semicolon) {
            Parsed::Fail(e) => Parsed::Fail(e),
            Parsed::Done(_, _) => Parsed::Done(paths, n + 1),
        },
    }
}

/// What a parse has gathered: the tree, and the notes on the tokens that
/// it passed over at the top level.
pub struct Root {
    pub tree: Tree,
    pub notes: Seq<Error>,
}

/// The tree `tree` with what an item's production yields joined to it by
/// `join`.
pub open spec fn added<T>(p: Parsed<T>, tree: Tree, join: spec_fn(Tree, T) -> Tree) -> Parsed<
    Tree,
> {
    match p {
        Parsed::Fail(e) => Parsed::Fail(e),
        Parsed::Done(v, n) => Parsed::Done(join(tree, v), n),
    }
}

/// The item that the keyword `lead` opens, added to `tree`; `s` is the
/// stream behind `lead`. `None` where `lead` opens no item, or none that
/// may carry the visibility `public`.
pub open spec fn item(s: Stream, lead: TokenType, public: bool, tree: Tree) -> Option<
    Parsed<Tree>,
> {
    match lead {
        TokenType::KwModule => Some(
            added(module_decl(s, public), tree, |t: Tree, m: Module| t.with_module(m)),
        ),
        TokenType::KwConst => Some(
            added(const_decl(s, public), tree, |t: Tree, c: Const| t.with_const(c)),
        ),
        TokenType::KwTrait => Some(
            added(trait_decl(s, public), tree, |t: Tree, d: Decl| t.with_type(d)),
        ),
        TokenType::KwStruct => Some(
            added(struct_decl(s, public), tree, |t: Tree, d: Decl| t.with_type(d)),
        ),
        TokenType::KwEnum => Some(
            added(enum_decl(s, public), tree, |t: Tree, d: Decl| t.with_type(d)),
        ),
        TokenType::KwFun => Some(
            added(function(s, public), tree, |t: Tree, f: Func| t.with_function(f)),
        ),
        TokenType::KwImport => if public {
            None
        } else {
            Some(added(import_decl(s), tree, |t: Tree, p: Seq<Seq<Str>>| t.with_imports(p)))
        },
        TokenType::KwImpl => if public {
            None
        } else {
            Some(added(impl_decl(s), tree, |t: Tree, i: Impl| t.with_impl(i)))
        },
        _ => None,
    }
}

/// One step at the top level, behind the token `lead`: `pub` marks the item
/// that follows it as public and must be followed by one that can be; a
/// keyword opens its item; any other token is passed over, and an
/// `UnexpectedToken` with its span is added to the notes.
#[verifier::opaque]
pub open spec fn top(s: Stream, lead: Token, root: Root) -> Parsed<Root> {
    if lead.kind == TokenType::KwPub {
        match take(s) {
            Parsed::Fail(e) => Parsed::Fail(e),
            Parsed::Done(next, _) => match item(s.skip(1), next.kind, true, root.tree) {
                Some(Parsed::Done(tree, n)) => Parsed::Done(
                    Root { tree, notes: root.notes },
                    1 + n,
                ),
                Some(Parsed::Fail(e)) => Parsed::Fail(e),
                None => Parsed::Fail(Error::UnexpectedToken(next.slice)),
            },
        }
    } else {
        match item(s, lead.kind, false, root.tree) {
            Some(Parsed::Done(tree, n)) => Parsed::Done(Root { tree, notes: root.notes }, n),
            Some(Parsed::Fail(e)) => Parsed::Fail(e),
            None => Parsed::Done(
                Root {
                    tree: root.tree,
                    notes: root.notes.push(Error::UnexpectedToken(lead.slice)),
                },
                0,
            ),
        }
    }
}

/// The items of a whole stream, added to `root` one after the other. The
/// stream must end cleanly: a lexical error at its end is the outcome.
pub open spec fn items(s: Stream, root: Root) -> Parsed<Root>
    decreases s.toks.len(),
{
    if s.toks.len() == 0 {
        match s.fail {
            Some(e) => Parsed::Fail(e),
            None => Parsed::Done(root, 0),
        }
    } else {
        match top(s.skip(1), s.toks[0], root) {
            Parsed::Fail(e) => Parsed::Fail(e),
            Parsed::Done(next, n) => items(s.skip(1 + n), next).after(1 + n),
        }
    }
}

/// What a parse of the stream `s` leaves of `root`: all the items, where
/// it succeeds; the items that were complete before the one in which it
/// failed, and the notes up to there, where it fails.
pub open spec fn reached(s: Stream, root: Root) -> Root
    decreases s.toks.len(),
{
    if s.toks.len() == 0 {
        root
    } else {
        match top(s.skip(1), s.toks[0], root) {
            Parsed::Fail(_) => root,
            Parsed::Done(next, n) => reached(s.skip(1 + n), next),
        }
    }
}

/// Where the parse succeeds, what it leaves is what it yields.
pub proof fn lemma_reached(s: Stream, root: Root)
    ensures
        items(s, root) matches Parsed::Done(all, _) ==> reached(s, root) == all,
    decreases s.toks.len(),
{
    if s.toks.len() > 0 {
        match top(s.skip(1), s.toks[0], root) {
            Parsed::Fail(_) => {},
            Parsed::Done(next, n) => {
                lemma_reached(s.skip(1 + n), next);
            },
        }
    }
}

} // verus!

//! The mathematical model of the HIR: the same tree with `Seq` in place of
//! `Vec`. Each HIR type views as its model, and the grammar is stated over
//! the models.

use vstd::prelude::*;
use crate::scan::spans_text;
use crate::span::Str;
use crate::token::Token;

verus! {

/// Model of a type expression.
pub enum Ty {
    SelfType,
    Direct { path: Seq<Str> },
    Reference { ty: Box<Ty> },
    ConstReference { ty: Box<Ty> },
}

/// Model of an expression.
pub enum Expr {
    Int { slice: Str },
    Float { slice: Str },
    String { slice: Str },
    Access { name: Str },
    DotAccess { expr: Box<Expr>, name: Str },
    IndexAccess { expr: Box<Expr>, index: Box<Expr> },
    Call { expr: Box<Expr>, args: Seq<Expr> },
    UnaryOp { op: Token, arg: Box<Expr> },
    BinaryOp { op: Token, left: Box<Expr>, right: Box<Expr> },
}

/// Model of a statement.
#[allow(inconsistent_fields)]
pub enum Stmt {
    VarDecl { name: Str, ty: Option<Ty>, expr: Option<Expr> },
    ConstDecl { name: Str, ty: Option<Ty>, expr: Option<Expr> },
    Assign { expr: Expr, value: Expr },
    If { cond: Expr, block: Seq<Stmt>, else_block: Option<Seq<Stmt>> },
    While { cond: Expr, block: Seq<Stmt> },
    For { name: Str, expr: Expr, block: Seq<Stmt> },
    Call { expr: Expr, args: Seq<Expr> },
    Return { expr: Expr },
    Continue,
    Break,
}

/// Model of a function parameter.
pub struct Param {
    pub name: Str,
    pub ty: Ty,
}

/// Model of a struct field.
pub struct Field {
    pub name: Str,
    pub public: bool,
    pub ty: Ty,
}

/// Model of an enum variant.
pub enum Variant {
    Empty { name: Str },
    Tuple { name: Str, types: Seq<Ty> },
    Struct { name: Str, fields: Seq<Field> },
}

/// Model of a function.
pub struct Func {
    pub name: Str,
    pub public: bool,
    pub params: Seq<Param>,
    pub return_type: Option<Ty>,
    pub body: Option<Seq<Stmt>>,
}

/// Model of a constant.
pub struct Const {
    pub name: Str,
    pub public: bool,
    pub ty: Option<Ty>,
    pub expr: Option<Expr>,
}

/// Model of a type declaration.
pub enum Decl {
    Trait { name: Str, public: bool, functions: Seq<Func> },
    Struct { name: Str, public: bool, fields: Seq<Field>, functions: Seq<Func> },
    Enum { name: Str, public: bool, variants: Seq<Variant>, functions: Seq<Func> },
}

/// Model of a trait implementation.
pub struct Impl {
    pub target: Ty,
    pub trait_ty: Ty,
    pub functions: Seq<Func>,
}

/// Model of a module declaration.
pub struct Module {
    pub name: Str,
    pub public: bool,
}

/// Model of the whole tree.
pub struct Tree {
    pub modules: Seq<Module>,
    pub imports: Seq<Seq<Str>>,
    pub constants: Seq<Const>,
    pub types: Seq<Decl>,
    pub impls: Seq<Impl>,
    pub functions: Seq<Func>,
}

impl Tree {
    /// This tree and the module `m` behind its modules.
    pub open spec fn with_module(self, m: Module) -> Tree {
        Tree { modules: self.modules.push(m), ..self }
    }

    /// This tree and the imports `paths` behind its imports.
    pub open spec fn with_imports(self, paths: Seq<Seq<Str>>) -> Tree {
        Tree { imports: self.imports + paths, ..self }
    }

    /// This tree and the constant `c` behind its constants.
    pub open spec fn with_const(self, c: Const) -> Tree {
        Tree { constants: self.constants.push(c), ..self }
    }

    /// This tree and the declaration `d` behind its types.
    pub open spec fn with_type(self, d: Decl) -> Tree {
        Tree { types: self.types.push(d), ..self }
    }

    /// This tree and the implementation `i` behind its implementations.
    pub open spec fn with_impl(self, i: Impl) -> Tree {
        Tree { impls: self.impls.push(i), ..self }
    }

    /// This tree and the function `f` behind its functions.
    pub open spec fn with_function(self, f: Func) -> Tree {
        Tree { functions: self.functions.push(f), ..self }
    }

    /// The tree without any entry.
    pub open spec fn empty() -> Tree {
        Tree {
            modules: Seq::empty(),
            imports: Seq::empty(),
            constants: Seq::empty(),
            types: Seq::empty(),
            impls: Seq::empty(),
            functions: Seq::empty(),
        }
    }
}

/// Trees whose spans can be held against a source buffer.
pub trait Spans {
    /// Whether every span in `self` denotes text of `src`.
    spec fn spans_in(&self, src: Seq<u8>) -> bool;
}

impl Spans for Str {
    open spec fn spans_in(&self, src: Seq<u8>) -> bool {
        spans_text(src, *self)
    }
}

impl<T: Spans> Spans for Seq<T> {
    open spec fn spans_in(&self, src: Seq<u8>) -> bool {
        forall|i: int| 0 <= i < self.len() ==> (#[trigger] self[i]).spans_in(src)
    }
}

impl<T: Spans> Spans for Option<T> {
    open spec fn spans_in(&self, src: Seq<u8>) -> bool {
        match self {
            Some(x) => x.spans_in(src),
            None => true,
        }
    }
}

impl Ty {
    /// Whether every name of this type expression denotes text of `src`.
    pub open spec fn within(&self, src: Seq<u8>) -> bool
        decreases self,
    {
        match self {
            Ty::SelfType => true,
            Ty::Direct { path } => path.spans_in(src),
            Ty::Reference { ty } => ty.within(src),
            Ty::ConstReference { ty } => ty.within(src),
        }
    }
}

impl Spans for Ty {
    open spec fn spans_in(&self, src: Seq<u8>) -> bool {
        self.within(src)
    }
}

impl Expr {
    /// Whether every span in this expression denotes text of `src`.
    pub open spec fn within(&self, src: Seq<u8>) -> bool
        decreases self,
    {
        match self {
            Expr::Int { slice } => spans_text(src, *slice),
            Expr::Float { slice } => spans_text(src, *slice),
            Expr::String { slice } => spans_text(src, *slice),
            Expr::Access { name } => spans_text(src, *name),
            Expr::DotAccess { expr, name } => expr.within(src) && spans_text(src, *name),
            Expr::IndexAccess { expr, index } => expr.within(src) && index.within(src),
            Expr::Call { expr, args } => expr.within(src) && forall|i: int|
                0 <= i < args.len() ==> (#[trigger] args[i]).within(src),
            Expr::UnaryOp { op, arg } => spans_text(src, op.slice) && arg.within(src),
            Expr::BinaryOp { op, left, right } => spans_text(src, op.slice) && left.within(src)
                && right.within(src),
        }
    }
}

impl Spans for Expr {
    open spec fn spans_in(&self, src: Seq<u8>) -> bool {
        self.within(src)
    }
}

impl Stmt {
    /// Whether every span in this statement denotes text of `src`.
    pub open spec fn within(&self, src: Seq<u8>) -> bool
        decreases self,
    {
        match self {
            Stmt::VarDecl { name, ty, expr } => spans_text(src, *name) && ty.spans_in(src)
                && expr.spans_in(src),
            Stmt::ConstDecl { name, ty, expr } => spans_text(src, *name) && ty.spans_in(src)
                && expr.spans_in(src),
            Stmt::Assign { expr, value } => expr.within(src) && value.within(src),
            Stmt::If { cond, block, else_block } => cond.within(src) && (forall|i: int|
                0 <= i < block.len() ==> (#[trigger] block[i]).within(src)) && match else_block {
                Some(b) => forall|i: int| 0 <= i < b.len() ==> (#[trigger] b[i]).within(src),
                None => true,
            },
            Stmt::While { cond, block } => cond.within(src) && forall|i: int|
                0 <= i < block.len() ==> (#[trigger] block[i]).within(src),
            Stmt::For { name, expr, block } => spans_text(src, *name) && expr.within(src)
                && forall|i: int| 0 <= i < block.len() ==> (#[trigger] block[i]).within(src),
            Stmt::Call { expr, args } => expr.within(src) && args.spans_in(src),
            Stmt::Return { expr } => expr.within(src),
            Stmt::Continue => true,
            Stmt::Break => true,
        }
    }
}

impl Spans for Stmt {
    open spec fn spans_in(&self, src: Seq<u8>) -> bool {
        self.within(src)
    }
}

impl Spans for Param {
    open spec fn spans_in(&self, src: Seq<u8>) -> bool {
        spans_text(src, self.name) && self.ty.spans_in(src)
    }
}

impl Spans for Field {
    open spec fn spans_in(&self, src: Seq<u8>) -> bool {
        spans_text(src, self.name) && self.ty.spans_in(src)
    }
}

impl Spans for Variant {
    open spec fn spans_in(&self, src: Seq<u8>) -> bool {
        match self {
            Variant::Empty { name } => spans_text(src, *name),
            Variant::Tuple { name, types } => spans_text(src, *name) && types.spans_in(src),
            Variant::Struct { name, fields } => spans_text(src, *name) && fields.spans_in(src),
        }
    }
}

impl Spans for Func {
    open spec fn spans_in(&self, src: Seq<u8>) -> bool {
        &&& spans_text(src, self.name)
        &&& self.params.spans_in(src)
        &&& self.return_type.spans_in(src)
        &&& self.body.spans_in(src)
    }
}

impl Spans for Const {
    open spec fn spans_in(&self, src: Seq<u8>) -> bool {
        spans_text(src, self.name) && self.ty.spans_in(src) && self.expr.spans_in(src)
    }
}

impl Spans for Decl {
    open spec fn spans_in(&self, src: Seq<u8>) -> bool {
        match self {
            Decl::Trait { name, functions, .. } => spans_text(src, *name)
                && functions.spans_in(src),
            Decl::Struct { name, fields, functions, .. } => spans_text(src, *name)
                && fields.spans_in(src) && functions.spans_in(src),
            Decl::Enum { name, variants, functions, .. } => spans_text(src, *name)
                && variants.spans_in(src) && functions.spans_in(src),
        }
    }
}

impl Spans for Impl {
    open spec fn spans_in(&self, src: Seq<u8>) -> bool {
        self.target.spans_in(src) && self.trait_ty.spans_in(src) && self.functions.spans_in(src)
    }
}

impl Spans for Module {
    open spec fn spans_in(&self, src: Seq<u8>) -> bool {
        spans_text(src, self.name)
    }
}

impl Spans for Tree {
    open spec fn spans_in(&self, src: Seq<u8>) -> bool {
        &&& self.modules.spans_in(src)
        &&& self.imports.spans_in(src)
        &&& self.constants.spans_in(src)
        &&& self.types.spans_in(src)
        &&& self.impls.spans_in(src)
        &&& self.functions.spans_in(src)
    }
}

/// A sequence whose spans denote text still does so with one such element
/// more.
pub proof fn lemma_spans_push<T: Spans>(s: Seq<T>, x: T, src: Seq<u8>)
    requires
        s.spans_in(src),
        x.spans_in(src),
    ensures
        s.push(x).spans_in(src),
{
    assert forall|i: int| 0 <= i < s.push(x).len() implies (#[trigger] s.push(x)[i]).spans_in(
        src,
    ) by {
        if i < s.len() {
            assert(s.push(x)[i] == s[i]);
        }
    }
}

/// Two sequences whose spans denote text still do so when joined.
pub proof fn lemma_spans_join<T: Spans>(s: Seq<T>, t: Seq<T>, src: Seq<u8>)
    requires
        s.spans_in(src),
        t.spans_in(src),
    ensures
        (s + t).spans_in(src),
{
    assert forall|i: int| 0 <= i < (s + t).len() implies (#[trigger] (s + t)[i]).spans_in(src) by {
        if i < s.len() {
            assert((s + t)[i] == s[i]);
        } else {
            assert((s + t)[i] == t[i - s.len()]);
        }
    }
}

/// The models of the elements of `s`, in order.
pub open spec fn views<T: View>(s: Seq<T>) -> Seq<T::V> {
    Seq::new(s.len(), |i: int| s[i]@)
}

/// The model of an optional node.
pub open spec fn view_opt<T: View>(o: Option<T>) -> Option<T::V> {
    match o {
        Some(x) => Some(x@),
        None => None,
    }
}

/// The models of two sequences joined.
pub proof fn lemma_views_join<T: View>(s: Seq<T>, t: Seq<T>)
    ensures
        views(s + t) == views(s) + views(t),
{
    assert(views(s + t) =~= views(s) + views(t));
}

/// The models of a sequence with one element more.
pub proof fn lemma_views_push<T: View>(s: Seq<T>, x: T)
    ensures
        views(s.push(x)) == views(s).push(x@),
{
    assert(views(s.push(x)) =~= views(s).push(x@));
}

/// The empty sequence has no models.
pub proof fn lemma_views_empty<T: View>()
    ensures
        views(Seq::<T>::empty()) == Seq::<T::V>::empty(),
{
    assert(views(Seq::<T>::empty()) =~= Seq::<T::V>::empty());
}

} // verus!

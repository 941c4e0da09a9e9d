//! The high-level intermediate representation: the tree that the parser
//! builds. Names and literals are spans of the source, never copies of it.

use vstd::prelude::*;
use crate::hir::tree::{
    views, view_opt, Const, Decl, Expr, Field, Func, Impl, Module, Param, Stmt, Tree, Ty, Variant,
};
use crate::span::Str;
use crate::token::Token;

pub mod grammar;
pub mod parser;
pub mod tree;

verus! {

/// The root of the tree: the top-level items of one source, each kind in
/// source order.
#[derive(Debug)]
pub struct Hir {
    pub modules: Vec<HirModule>,
    pub imports: Vec<HirImport>,
    pub constants: Vec<HirConst>,
    pub types: Vec<HirTypeDecl>,
    pub impls: Vec<HirImpl>,
    pub functions: Vec<HirFunction>,
}

impl View for Hir {
    type V = Tree;

    open spec fn view(&self) -> Tree {
        Tree {
            modules: views(self.modules@),
            imports: views(self.imports@),
            constants: views(self.constants@),
            types: views(self.types@),
            impls: views(self.impls@),
            functions: views(self.functions@),
        }
    }
}

impl Default for Hir {
    fn default() -> (r: Self)
        ensures
            r@ == Tree::empty(),
    {
        let r = Self {
            modules: Vec::with_capacity(0),
            imports: Vec::with_capacity(0),
            constants: Vec::with_capacity(0),
            types: Vec::with_capacity(0),
            impls: Vec::with_capacity(0),
            functions: Vec::with_capacity(0),
        };
        assert(r@.modules =~= Seq::empty());
        assert(r@.imports =~= Seq::empty());
        assert(r@.constants =~= Seq::empty());
        assert(r@.types =~= Seq::empty());
        assert(r@.impls =~= Seq::empty());
        assert(r@.functions =~= Seq::empty());
        r
    }
}

/// A dotted path of names.
#[derive(Debug)]
pub struct HirPath {
    pub parts: Vec<Str>,
}

impl View for HirPath {
    type V = Seq<Str>;

    open spec fn view(&self) -> Seq<Str> {
        self.parts@
    }
}

/// A type expression.
#[derive(Debug)]
pub enum HirType {
    SelfType,
    Direct { path: HirPath },
    Reference { ty: Box<HirType> },
    ConstReference { ty: Box<HirType> },
}

impl HirType {
    /// The model of this type expression.
    pub open spec fn tree(&self) -> Ty
        decreases self,
    {
        match self {
            HirType::SelfType => Ty::SelfType,
            HirType::Direct { path } => Ty::Direct { path: path.parts@ },
            HirType::Reference { ty } => Ty::Reference { ty: Box::new(ty.tree()) },
            HirType::ConstReference { ty } => Ty::ConstReference { ty: Box::new(ty.tree()) },
        }
    }
}

impl View for HirType {
    type V = Ty;

    open spec fn view(&self) -> Ty {
        self.tree()
    }
}

/// `module name;`
#[derive(Debug)]
pub struct HirModule {
    pub name: Str,
    pub public: bool,
}

impl View for HirModule {
    type V = Module;

    open spec fn view(&self) -> Module {
        Module { name: self.name, public: self.public }
    }
}

/// One fully expanded import: a single path.
#[derive(Debug)]
pub struct HirImport {
    pub path: HirPath,
}

impl View for HirImport {
    type V = Seq<Str>;

    open spec fn view(&self) -> Seq<Str> {
        self.path@
    }
}

/// `const name: type = expr;` at the top level.
#[derive(Debug)]
pub struct HirConst {
    pub name: Str,
    pub public: bool,
    pub ty: Option<HirType>,
    pub expr: Option<HirExpression>,
}

impl View for HirConst {
    type V = Const;

    open spec fn view(&self) -> Const {
        Const {
            name: self.name,
            public: self.public,
            ty: view_opt(self.ty),
            expr: view_opt(self.expr),
        }
    }
}

/// A trait, struct or enum declaration.
#[derive(Debug)]
pub enum HirTypeDecl {
    Trait { name: Str, public: bool, functions: Vec<HirFunction> },
    Struct { name: Str, public: bool, fields: Vec<HirStructField>, functions: Vec<HirFunction> },
    Enum { name: Str, public: bool, variants: Vec<HirEnumVariant>, functions: Vec<HirFunction> },
}

impl View for HirTypeDecl {
    type V = Decl;

    open spec fn view(&self) -> Decl {
        match self {
            HirTypeDecl::Trait { name, public, functions } => Decl::Trait {
                name: *name,
                public: *public,
                functions: views(functions@),
            },
            HirTypeDecl::Struct { name, public, fields, functions } => Decl::Struct {
                name: *name,
                public: *public,
                fields: views(fields@),
                functions: views(functions@),
            },
            HirTypeDecl::Enum { name, public, variants, functions } => Decl::Enum {
                name: *name,
                public: *public,
                variants: views(variants@),
                functions: views(functions@),
            },
        }
    }
}

/// `impl target : trait { functions }`
#[derive(Debug)]
pub struct HirImpl {
    pub target: HirType,
    pub trait_ty: HirType,
    pub functions: Vec<HirFunction>,
}

impl View for HirImpl {
    type V = Impl;

    open spec fn view(&self) -> Impl {
        Impl { target: self.target@, trait_ty: self.trait_ty@, functions: views(self.functions@) }
    }
}

/// A function; one without a body is a signature of a trait.
#[derive(Debug)]
pub struct HirFunction {
    pub name: Str,
    pub public: bool,
    pub params: Vec<HirFunctionParam>,
    pub return_type: Option<HirType>,
    pub body: Option<HirBlock>,
}

impl View for HirFunction {
    type V = Func;

    open spec fn view(&self) -> Func {
        Func {
            name: self.name,
            public: self.public,
            params: views(self.params@),
            return_type: view_opt(self.return_type),
            body: view_opt(self.body),
        }
    }
}

/// `type name;` in a struct or in a struct-like enum variant.
#[derive(Debug)]
pub struct HirStructField {
    pub name: Str,
    pub public: bool,
    pub ty: HirType,
}

impl View for HirStructField {
    type V = Field;

    open spec fn view(&self) -> Field {
        Field { name: self.name, public: self.public, ty: self.ty@ }
    }
}

/// A variant of an enum.
#[derive(Debug)]
pub enum HirEnumVariant {
    Empty { name: Str },
    Tuple { name: Str, types: Vec<HirType> },
    Struct { name: Str, fields: Vec<HirStructField> },
}

impl View for HirEnumVariant {
    type V = Variant;

    open spec fn view(&self) -> Variant {
        match self {
            HirEnumVariant::Empty { name } => Variant::Empty { name: *name },
            HirEnumVariant::Tuple { name, types } => Variant::Tuple {
                name: *name,
                types: views(types@),
            },
            HirEnumVariant::Struct { name, fields } => Variant::Struct {
                name: *name,
                fields: views(fields@),
            },
        }
    }
}

/// `type name` in a parameter list.
#[derive(Debug)]
pub struct HirFunctionParam {
    pub name: Str,
    pub ty: HirType,
}

impl View for HirFunctionParam {
    type V = Param;

    open spec fn view(&self) -> Param {
        Param { name: self.name, ty: self.ty@ }
    }
}

/// `{ statements }`
#[derive(Debug)]
pub struct HirBlock {
    pub statements: Vec<HirStatement>,
}

impl HirBlock {
    /// The model of this block: the models of its statements.
    pub open spec fn tree(&self) -> Seq<Stmt>
        decreases self,
    {
        Seq::new(
            self.statements@.len(),
            |i: int|
                if 0 <= i < self.statements@.len() {
                    self.statements@[i].tree()
                } else {
                    arbitrary()
                },
        )
    }
}

impl View for HirBlock {
    type V = Seq<Stmt>;

    open spec fn view(&self) -> Seq<Stmt> {
        self.tree()
    }
}

/// A statement of a block.
#[derive(Debug)]
#[allow(inconsistent_fields)]
pub enum HirStatement {
    /// `var name: type = expr;`
    VarDecl { name: Str, ty: Option<HirType>, expr: Option<HirExpression> },
    /// `const name: type = expr;`
    ConstDecl { name: Str, ty: Option<HirType>, expr: Option<HirExpression> },
    /// `expr = value;`
    Assign { expr: HirExpression, value: HirExpression },
    /// `if cond block else else_block`
    If { cond: HirExpression, block: HirBlock, else_block: Option<HirBlock> },
    /// `while cond block`
    While { cond: HirExpression, block: HirBlock },
    /// `for name in expr block`
    For { name: Str, expr: HirExpression, block: HirBlock },
    /// `expr(args);`
    Call { expr: HirExpression, args: Vec<HirExpression> },
    /// `return expr;`
    Return { expr: HirExpression },
    /// `continue;`
    Continue,
    /// `break;`
    Break,
}

impl HirStatement {
    /// The model of this statement.
    pub open spec fn tree(&self) -> Stmt
        decreases self,
    {
        match self {
            HirStatement::VarDecl { name, ty, expr } => Stmt::VarDecl {
                name: *name,
                ty: view_opt(*ty),
                expr: view_opt(*expr),
            },
            HirStatement::ConstDecl { name, ty, expr } => Stmt::ConstDecl {
                name: *name,
                ty: view_opt(*ty),
                expr: view_opt(*expr),
            },
            HirStatement::Assign { expr, value } => Stmt::Assign { expr: expr@, value: value@ },
            HirStatement::If { cond, block, else_block } => Stmt::If {
                cond: cond@,
                block: block.tree(),
                else_block: match else_block {
                    Some(b) => Some(b.tree()),
                    None => None,
                },
            },
            HirStatement::While { cond, block } => Stmt::While { cond: cond@, block: block.tree() },
            HirStatement::For { name, expr, block } => Stmt::For {
                name: *name,
                expr: expr@,
                block: block.tree(),
            },
            HirStatement::Call { expr, args } => Stmt::Call { expr: expr@, args: views(args@) },
            HirStatement::Return { expr } => Stmt::Return { expr: expr@ },
            HirStatement::Continue => Stmt::Continue,
            HirStatement::Break => Stmt::Break,
        }
    }
}

impl View for HirStatement {
    type V = Stmt;

    open spec fn view(&self) -> Stmt {
        self.tree()
    }
}

/// An expression.
#[derive(Debug)]
#[allow(inconsistent_fields)]
pub enum HirExpression {
    Int { slice: Str },
    Float { slice: Str },
    String { slice: Str },
    /// `name`
    Access { name: Str },
    /// `expr.name`
    DotAccess { expr: Box<HirExpression>, name: Str },
    /// `expr[index]`
    IndexAccess { expr: Box<HirExpression>, index: Box<HirExpression> },
    /// `expr(args)`
    Call { expr: Box<HirExpression>, args: Vec<HirExpression> },
    /// `op arg`
    UnaryOp { op: Token, arg: Box<HirExpression> },
    /// `args.0 op args.1`
    BinaryOp { op: Token, args: Box<(HirExpression, HirExpression)> },
}

impl HirExpression {
    /// The model of this expression.
    pub open spec fn tree(&self) -> Expr
        decreases self,
    {
        match self {
            HirExpression::Int { slice } => Expr::Int { slice: *slice },
            HirExpression::Float { slice } => Expr::Float { slice: *slice },
            HirExpression::String { slice } => Expr::String { slice: *slice },
            HirExpression::Access { name } => Expr::Access { name: *name },
            HirExpression::DotAccess { expr, name } => Expr::DotAccess {
                expr: Box::new(expr.tree()),
                name: *name,
            },
            HirExpression::IndexAccess { expr, index } => Expr::IndexAccess {
                expr: Box::new(expr.tree()),
                index: Box::new(index.tree()),
            },
            HirExpression::Call { expr, args } => Expr::Call {
                expr: Box::new(expr.tree()),
                args: Seq::new(
                    args@.len(),
                    |i: int|
                        if 0 <= i < args@.len() {
                            args@[i].tree()
                        } else {
                            arbitrary()
                        },
                ),
            },
            HirExpression::UnaryOp { op, arg } => Expr::UnaryOp {
                op: *op,
                arg: Box::new(arg.tree()),
            },
            HirExpression::BinaryOp { op, args } => Expr::BinaryOp {
                op: *op,
                left: Box::new(args.0.tree()),
                right: Box::new(args.1.tree()),
            },
        }
    }
}

impl View for HirExpression {
    type V = Expr;

    open spec fn view(&self) -> Expr {
        self.tree()
    }
}

} // verus!

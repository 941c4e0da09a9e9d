//! Front end of a small programming language: a tokenizer over UTF-8 source
//! text and a recursive-descent parser that builds a high-level intermediate
//! representation (HIR) of modules, imports, constants, type declarations,
//! trait implementations and functions.
//!
//! Every executable function carries a contract that Verus proves.
//!
//! - [`text`] reads characters out of UTF-8 bytes at byte offsets.
//! - [`scan`] says, as functions of the source bytes, which tokens the
//!   tokenizer yields; [`lexer`] is the tokenizer, proved against them, and
//!   [`scan_laws`] proves where the tokens lie in the source.
//! - [`hir`] holds the tree, [`hir::tree`] its mathematical model, and
//!   [`hir::grammar`] the grammar as functions of the token stream;
//!   [`hir::parser`] is the parser, proved against the grammar.
//! - [`laws`] proves what holds of the parser on every input.

pub mod error;
pub mod hir;
pub mod laws;
pub mod lexer;
pub mod prelude;
pub mod scan;
pub mod scan_laws;
pub mod span;
pub mod text;
pub mod token;

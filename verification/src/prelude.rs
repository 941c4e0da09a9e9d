//! The names that nearly every module of the front end needs.

pub use crate::error::Error;
pub use crate::span::Str;

//! MBQL, the mindbase query language: its syntax tree, parse tree and errors.

pub mod ast;
pub mod error;
pub mod parse;
pub mod parse_spec;
pub mod quoting;
pub mod spelling;

//! Mindbase: allegations, symbols, the ground-symbol search and the MBQL syntax tree.

pub mod ground;
pub mod ids;
pub mod mbql;
pub mod symbol;
pub mod allegation;
pub mod sorted;
pub mod wrappers;

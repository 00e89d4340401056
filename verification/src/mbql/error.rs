//! Positions in MBQL text and the errors that refer to them.
use vstd::prelude::*;

verus! {

/// A place in MBQL text: line and column, both counted from one.
#[derive(PartialEq, Eq, Structural, Clone, Copy, Debug)]
pub struct Position {
    pub row: usize,
    pub col: usize,
}

/// What went wrong.
pub enum MBQLErrorKind {
    /// No ground symbol matches and vivification was not allowed.
    GSymNotFound,
    /// A symbol variable was used that the query does not bind.
    SymbolVarNotFound { var: String },
}

/// An error in an MBQL query, with the place it refers to.
pub struct MBQLError {
    pub position: Position,
    pub kind: MBQLErrorKind,
}

} // verus!

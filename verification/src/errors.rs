//! Errors surfaced by the text-import boundary.
use vstd::prelude::*;

verus! {

/// A parse failure: either a token that is not a valid instance of the
/// named kind, or a position description that is malformed as a whole.
#[derive(Debug, Clone, PartialEq, Eq)]
pub enum ChessError {
    ParseError(String, &'static str),
    InvalidFEN(String),
}

} // verus!

use vstd::prelude::*;
use crate::syntax::span::Position;

verus! {

/// A syntax error: what was wrong and where it was found.
#[derive(Debug, Clone, PartialEq, Eq)]
pub struct ParseError {
    pub message: String,
    pub position: Position,
}

} // verus!

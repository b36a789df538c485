//! Animation: the comparison operators of animation-graph conditions.

use vstd::prelude::*;

verus! {

/// Comparison operator of a transition condition.
#[derive(Debug, Clone, Copy, PartialEq, Eq, Structural)]
pub enum CompareOp {
    Equal,
    NotEqual,
    Less,
    LessEqual,
    Greater,
    GreaterEqual,
}

} // verus!

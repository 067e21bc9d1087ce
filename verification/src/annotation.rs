//! The two switches every render operation takes.

use vstd::prelude::*;

verus! {

/// Whether a node stands where a function application must be wrapped in
/// parentheses.
#[derive(Debug, Clone, Copy, PartialEq, Eq, Structural)]
pub enum Parens {
    NotNeeded,
    InApply,
}

/// Whether blank lines held by trivia are rendered. Comments always are.
#[derive(Debug, Clone, Copy, PartialEq, Eq, Structural)]
pub enum Newlines {
    Yes,
    No,
}

} // verus!

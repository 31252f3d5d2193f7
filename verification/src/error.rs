//! What can go wrong in a comparison.

use vstd::prelude::*;

verus! {

/// The errors of this library.
#[derive(Debug, Clone, Copy, PartialEq, Eq, Structural)]
pub enum DiffError {
    /// The edit-graph search did not reach the end of both texts. The
    /// engine's contract rules this out for equal texts and for every pair
    /// of texts whose lengths leave the search room in the machine's
    /// integers.
    NoScriptFound,
    /// No engine has the name that was asked for.
    UnknownAlgorithm,
}

} // verus!

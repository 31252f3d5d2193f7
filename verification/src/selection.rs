//! The menu of the interactive caller: what each answer asks for.

use vstd::prelude::*;
use crate::algorithms::{Algorithm, same_text};

verus! {

/// What one answer to the menu asks for.
#[derive(Debug, Clone, Copy, PartialEq, Eq, Structural)]
pub enum Choice {
    /// Compare with this engine, then ask again.
    Run(Algorithm),
    /// The patience engine: on the menu, but not yet implemented.
    NotImplemented,
    /// Leave.
    Exit,
    /// No entry of the menu: ask again.
    Invalid,
}

/// The menu: `0` naive, `1` lcs, `2` myers, `3` patience, `x` exit.
pub open spec fn choice_of(answer: Seq<char>) -> Choice {
    if answer == "0"@ {
        Choice::Run(Algorithm::Naive)
    } else if answer == "1"@ {
        Choice::Run(Algorithm::Lcs)
    } else if answer == "2"@ {
        Choice::Run(Algorithm::Myers)
    } else if answer == "3"@ {
        Choice::NotImplemented
    } else if answer == "x"@ {
        Choice::Exit
    } else {
        Choice::Invalid
    }
}

/// Reads one answer to the menu, with the white space around it taken off
/// already.
pub fn read_answer(answer: &str) -> (choice: Choice)
    ensures
        choice == choice_of(answer@),
{
    if same_text(answer, "0") {
        Choice::Run(Algorithm::Naive)
    } else if same_text(answer, "1") {
        Choice::Run(Algorithm::Lcs)
    } else if same_text(answer, "2") {
        Choice::Run(Algorithm::Myers)
    } else if same_text(answer, "3") {
        Choice::NotImplemented
    } else if same_text(answer, "x") {
        Choice::Exit
    } else {
        Choice::Invalid
    }
}

} // verus!

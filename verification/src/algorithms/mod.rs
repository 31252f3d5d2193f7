//! The comparison engines, and the choice among them by name.

pub mod naive;
pub mod lcs;
pub mod myers;
pub mod myers_proof;

use vstd::prelude::*;
use crate::algorithms::lcs::{edit_distance, lcs_diff_script};
use crate::algorithms::myers::{myers_script, searchable};
use crate::algorithms::naive::naive_diff_chunks;
use crate::apply::{apply_chunks, changed_lines, describes, separated};
use crate::coalesce::chunks_of;
use crate::error::DiffError;
use crate::service::data_types::{DiffChunkView, FileDiff};
use crate::service::report::reportable;

verus! {

/// The engines.
#[derive(Debug, Clone, Copy, PartialEq, Eq, Structural)]
pub enum Algorithm {
    /// Position by position.
    Naive,
    /// Through the longest common subsequence.
    Lcs,
    /// Through the edit graph.
    Myers,
}

/// The engine that goes by `name`.
pub open spec fn algorithm_named(name: Seq<char>) -> Option<Algorithm> {
    if name == "naive"@ {
        Some(Algorithm::Naive)
    } else if name == "lcs"@ {
        Some(Algorithm::Lcs)
    } else if name == "myers"@ {
        Some(Algorithm::Myers)
    } else {
        None
    }
}

/// The chunks that an engine makes of two texts.
pub open spec fn diff_chunks(
    algorithm: Algorithm,
    old: Seq<Seq<char>>,
    new: Seq<Seq<char>>,
) -> Seq<DiffChunkView> {
    match algorithm {
        Algorithm::Naive => naive_diff_chunks(old, new),
        Algorithm::Lcs => chunks_of(lcs_diff_script(old, new), old, new),
        Algorithm::Myers => chunks_of(myers_script(old, new), old, new),
    }
}

/// Whether two strings hold the same text.
pub(crate) fn same_text(a: &str, b: &str) -> (same: bool)
    ensures
        same == (a@ == b@),
{
    a.to_owned() == b.to_owned()
}

impl Algorithm {
    /// The engine that goes by `name`: `naive`, `lcs` or `myers`.
    pub fn by_name(name: &str) -> (found: Option<Algorithm>)
        ensures
            found == algorithm_named(name@),
    {
        if same_text(name, "naive") {
            Some(Algorithm::Naive)
        } else if same_text(name, "lcs") {
            Some(Algorithm::Lcs)
        } else if same_text(name, "myers") {
            Some(Algorithm::Myers)
        } else {
            None
        }
    }

    /// Compares `old` and `new` with this engine.
    pub fn compare(&self, file_name: &str, old: &Vec<String>, new: &Vec<String>) -> (result: Result<
        FileDiff,
        DiffError,
    >)
        ensures
            compared(*self, file_name@, old.deep_view(), new.deep_view(), result),
    {
        match self {
            Algorithm::Naive => Ok(naive::compare_files(file_name, old, new)),
            Algorithm::Lcs => Ok(lcs::compare_files(file_name, old, new)),
            Algorithm::Myers => myers::compare_files(file_name, old, new),
        }
    }
}

/// What a comparison with `algorithm` returns. Only the edit-graph engine
/// can fail, and only on texts that differ and that it does not take. Every engine's chunks
/// tell how `old` becomes `new`, are none at all for equal texts, and can be
/// reported;
/// those of the two engines that look for a shortest script lie apart from
/// each other and hold as many line changes as the edit distance.
pub open spec fn compared(
    algorithm: Algorithm,
    file_name: Seq<char>,
    old: Seq<Seq<char>>,
    new: Seq<Seq<char>>,
    result: Result<FileDiff, DiffError>,
) -> bool {
    if algorithm == Algorithm::Myers && !searchable(old.len(), new.len()) && old != new {
        result == Err::<FileDiff, DiffError>(DiffError::NoScriptFound)
    } else {
        &&& result is Ok
        &&& result->Ok_0@.file_name == file_name
        &&& result->Ok_0@.chunks == diff_chunks(algorithm, old, new)
        &&& describes(result->Ok_0@.chunks, old, new)
        &&& apply_chunks(result->Ok_0@.chunks, old) == new
        &&& old == new ==> result->Ok_0@.chunks.len() == 0
        &&& reportable(result->Ok_0@.chunks, new.len())
        &&& algorithm != Algorithm::Naive ==> {
            &&& separated(result->Ok_0@.chunks)
            &&& changed_lines(result->Ok_0@.chunks) == edit_distance(old, new)
        }
    }
}

/// Compares `old` and `new` with the engine that goes by `name`. A name that
/// no engine has gives `UnknownAlgorithm`.
pub fn run(name: &str, file_name: &str, old: &Vec<String>, new: &Vec<String>) -> (result: Result<
    FileDiff,
    DiffError,
>)
    ensures
        match algorithm_named(name@) {
            Some(algorithm) => compared(
                algorithm,
                file_name@,
                old.deep_view(),
                new.deep_view(),
                result,
            ),
            None => result == Err::<FileDiff, DiffError>(DiffError::UnknownAlgorithm),
        },
{
    match Algorithm::by_name(name) {
        Some(algorithm) => algorithm.compare(file_name, old, new),
        None => Err(DiffError::UnknownAlgorithm),
    }
}

} // verus!

//! The positional comparator: line `i` of the old text against line `i` of
//! the new text.
//!
//! It does not notice lines that moved: one inserted line makes every line
//! after it differ.

use vstd::prelude::*;
use crate::apply::{
    apply_chunks, closed_state, cursor_after, describes, lemma_close_run,
    lemma_describes_round_trip, lemma_one_more_unchanged, lemma_state_end, lemma_state_start,
};
use crate::coalesce::{added_run, chunk_of, removed_run};
use crate::service::report::reportable;
use crate::service::data_types::{
    DiffChunk, DiffChunkView, DiffType, FileDiff, LineChange, LineChangeView,
};

verus! {

/// What position `i` (from 0) contributes: nothing where both texts have the
/// same line there, else one chunk.
pub open spec fn position_chunks(old: Seq<Seq<char>>, new: Seq<Seq<char>>, i: int) -> Seq<
    DiffChunkView,
> {
    let number = (i + 1) as nat;
    if i >= old.len() {
        seq![
            DiffChunkView {
                diff_type: DiffType::Addition,
                changes: seq![LineChangeView { line_number: number, content: new[i] }],
            },
        ]
    } else if i >= new.len() {
        seq![
            DiffChunkView {
                diff_type: DiffType::Deletion,
                changes: seq![LineChangeView { line_number: number, content: old[i] }],
            },
        ]
    } else if old[i] != new[i] {
        seq![
            DiffChunkView {
                diff_type: DiffType::Modification,
                changes: seq![
                    LineChangeView { line_number: number, content: old[i] },
                    LineChangeView { line_number: number, content: new[i] },
                ],
            },
        ]
    } else {
        Seq::empty()
    }
}

/// The chunks of the positions before `upto`, in order.
pub open spec fn naive_chunks(old: Seq<Seq<char>>, new: Seq<Seq<char>>, upto: int) -> Seq<
    DiffChunkView,
>
    decreases upto,
{
    if upto <= 0 {
        Seq::empty()
    } else {
        naive_chunks(old, new, upto - 1) + position_chunks(old, new, upto - 1)
    }
}

/// The shorter of the two lengths.
pub open spec fn shorter(old: Seq<Seq<char>>, new: Seq<Seq<char>>) -> int {
    if old.len() <= new.len() {
        old.len() as int
    } else {
        new.len() as int
    }
}

/// The longer of the two lengths.
pub open spec fn positions(old: Seq<Seq<char>>, new: Seq<Seq<char>>) -> int {
    if old.len() >= new.len() {
        old.len() as int
    } else {
        new.len() as int
    }
}

/// The chunks of all positions.
pub open spec fn naive_diff_chunks(old: Seq<Seq<char>>, new: Seq<Seq<char>>) -> Seq<
    DiffChunkView,
> {
    naive_chunks(old, new, positions(old, new))
}

/// The smaller of a position and a length.
spec fn within(upto: int, len: nat) -> int {
    if upto <= len {
        upto
    } else {
        len as int
    }
}

/// How the chunks of the positions before `upto` stand to the two texts.
spec fn in_position(old: Seq<Seq<char>>, new: Seq<Seq<char>>, upto: int) -> bool {
    let chunks = naive_chunks(old, new, upto);
    let at = cursor_after(chunks);
    let unchanged = within(upto, old.len()) - at.old_line;
    &&& closed_state(chunks, old, new, unchanged)
    &&& unchanged == within(upto, new.len()) - at.new_line
}

/// The chunk of a position is the chunk of a run of one line on either side.
proof fn lemma_position_run(old: Seq<Seq<char>>, new: Seq<Seq<char>>, i: int)
    requires
        0 <= i < positions(old, new),
        position_chunks(old, new, i).len() > 0,
    ensures
        position_chunks(old, new, i) == seq![
            chunk_of(
                removed_run(old, within(i, old.len()), within(i + 1, old.len())),
                added_run(new, within(i, new.len()), within(i + 1, new.len())),
            ),
        ],
{
    let removed = removed_run(old, within(i, old.len()), within(i + 1, old.len()));
    let added = added_run(new, within(i, new.len()), within(i + 1, new.len()));
    let chunk = position_chunks(old, new, i)[0];
    assert(chunk.changes =~= removed + added);
}

/// The state of the chunks after each position.
proof fn lemma_in_position(old: Seq<Seq<char>>, new: Seq<Seq<char>>, upto: int)
    requires
        0 <= upto <= positions(old, new),
    ensures
        in_position(old, new, upto),
    decreases upto,
{
    if upto == 0 {
        lemma_state_start(old, new);
    } else {
        let i = upto - 1;
        lemma_in_position(old, new, i);
        let before = naive_chunks(old, new, i);
        let at = cursor_after(before);
        let unchanged = within(i, old.len()) - at.old_line;
        if position_chunks(old, new, i).len() == 0 {
            lemma_one_more_unchanged(before, old, new, unchanged);
        } else {
            lemma_position_run(old, new, i);
            lemma_close_run(
                before,
                old,
                new,
                unchanged,
                within(upto, old.len()),
                within(upto, new.len()),
            );
            assert(naive_chunks(old, new, upto) =~= before.push(position_chunks(old, new, i)[0]));
        }
    }
}

/// The chunks of the positional comparison tell how the old text becomes
/// the new one.
pub proof fn lemma_naive_describes(old: Seq<Seq<char>>, new: Seq<Seq<char>>)
    ensures
        describes(naive_diff_chunks(old, new), old, new),
{
    lemma_in_position(old, new, positions(old, new));
    let at = cursor_after(naive_diff_chunks(old, new));
    lemma_state_end(naive_diff_chunks(old, new), old, new, old.len() - at.old_line);
}

/// Texts that are equal up to a position have no chunk up to it.
pub proof fn lemma_naive_same_prefix(old: Seq<Seq<char>>, new: Seq<Seq<char>>, upto: int)
    requires
        upto <= old.len(),
        upto <= new.len(),
        forall|i: int| 0 <= i < upto ==> old[i] == new[i],
    ensures
        naive_chunks(old, new, upto).len() == 0,
    decreases upto,
{
    if upto > 0 {
        lemma_naive_same_prefix(old, new, upto - 1);
    }
}

/// The number of positions before `upto` at which the two lines differ.
pub open spec fn mismatches(old: Seq<Seq<char>>, new: Seq<Seq<char>>, upto: int) -> nat
    decreases upto,
{
    if upto <= 0 {
        0
    } else {
        mismatches(old, new, upto - 1) + if old[upto - 1] != new[upto - 1] {
            1nat
        } else {
            0nat
        }
    }
}

/// Where both texts have lines, each mismatch gives one `Modification`.
pub proof fn lemma_naive_common_part(old: Seq<Seq<char>>, new: Seq<Seq<char>>, upto: int)
    requires
        upto <= old.len(),
        upto <= new.len(),
    ensures
        naive_chunks(old, new, upto).len() == mismatches(old, new, upto),
        forall|k: int|
            0 <= k < naive_chunks(old, new, upto).len() ==> (#[trigger] naive_chunks(
                old,
                new,
                upto,
            )[k]).diff_type == DiffType::Modification,
    decreases upto,
{
    if upto > 0 {
        lemma_naive_common_part(old, new, upto - 1);
    }
}

/// Where the texts differ at one position at most and in length by one line
/// at most, no two neighbouring chunks of the positional comparison are of
/// the same kind. With more differences they are: this comparator merges
/// nothing.
pub proof fn lemma_naive_kinds_alternate(old: Seq<Seq<char>>, new: Seq<Seq<char>>)
    requires
        old.len() <= new.len() + 1,
        new.len() <= old.len() + 1,
        mismatches(old, new, shorter(old, new)) <= 1,
    ensures
        forall|k: int|
            0 < k < naive_diff_chunks(old, new).len() ==> naive_diff_chunks(old, new)[k
                - 1].diff_type != (#[trigger] naive_diff_chunks(old, new)[k]).diff_type,
{
    lemma_naive_common_part(old, new, shorter(old, new));
}

/// A chunk of one line.
fn single(diff_type: DiffType, line_number: usize, content: &String) -> (chunk: DiffChunk)
    ensures
        chunk@ == (DiffChunkView {
            diff_type,
            changes: seq![LineChangeView { line_number: line_number as nat, content: content@ }],
        }),
{
    let mut changes: Vec<LineChange> = Vec::new();
    changes.push(LineChange { line_number, content: content.clone() });
    let chunk = DiffChunk { diff_type, changes };
    assert(chunk@.changes =~= seq![
        LineChangeView { line_number: line_number as nat, content: content@ },
    ]);
    chunk
}

/// Compares `old` and `new` position by position. Each position at which
/// they differ gives a chunk of its own: an `Addition` past the end of
/// `old`, a `Deletion` past the end of `new`, else a `Modification` that
/// holds the old line and then the new line.
///
/// The chunks tell how `old` becomes `new`: applied to `old` they give
/// `new`. Equal texts have no chunks.
pub fn compare_files(file_name: &str, old: &Vec<String>, new: &Vec<String>) -> (diff: FileDiff)
    ensures
        diff@.file_name == file_name@,
        diff@.chunks == naive_diff_chunks(old.deep_view(), new.deep_view()),
        describes(diff@.chunks, old.deep_view(), new.deep_view()),
        apply_chunks(diff@.chunks, old.deep_view()) == new.deep_view(),
        old.deep_view() == new.deep_view() ==> diff@.chunks.len() == 0,
        reportable(diff@.chunks, new.len() as nat),
{
    let ghost o = old.deep_view();
    let ghost n = new.deep_view();
    let max_lines = if old.len() >= new.len() {
        old.len()
    } else {
        new.len()
    };
    let mut diff = FileDiff::new(file_name.to_owned());
    let mut line_index: usize = 0;
    while line_index < max_lines
        invariant
            0 <= line_index <= max_lines,
            max_lines == positions(o, n),
            o == old.deep_view(),
            n == new.deep_view(),
            diff@.file_name == file_name@,
            diff@.chunks == naive_chunks(o, n, line_index as int),
        decreases max_lines - line_index,
    {
        if line_index >= old.len() {
            diff.add_chunk(single(DiffType::Addition, line_index + 1, &new[line_index]));
        } else if line_index >= new.len() {
            diff.add_chunk(single(DiffType::Deletion, line_index + 1, &old[line_index]));
        } else {
            let line1 = &old[line_index];
            let line2 = &new[line_index];
            if !(*line1 == *line2) {
                let mut changes: Vec<LineChange> = Vec::new();
                changes.push(LineChange { line_number: line_index + 1, content: line1.clone() });
                changes.push(LineChange { line_number: line_index + 1, content: line2.clone() });
                let chunk = DiffChunk { diff_type: DiffType::Modification, changes };
                assert(chunk@.changes =~= seq![
                    LineChangeView { line_number: (line_index + 1) as nat, content: line1@ },
                    LineChangeView { line_number: (line_index + 1) as nat, content: line2@ },
                ]);
                diff.add_chunk(chunk);
            }
        }
        line_index = line_index + 1;
    }
    proof {
        lemma_naive_describes(o, n);
        lemma_describes_round_trip(diff@.chunks, o, n);
        if o == n {
            lemma_naive_same_prefix(o, n, o.len() as int);
        }
    }
    diff
}

} // verus!

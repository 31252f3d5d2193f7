//! From an edit script to chunks.
//!
//! The changed lines between two kept lines form one chunk: a `Deletion`
//! where lines were only removed, an `Addition` where lines were only
//! inserted, and a `Modification`, with the removed lines before the inserted
//! ones, where both happened.

use vstd::prelude::*;
use crate::script::{Step, new_len, old_len, lemma_count_prefix};
use crate::service::data_types::{
    DiffChunk, DiffChunkView, DiffType, FileDiff, LineChange, LineChangeView, changes_view,
};

verus! {

/// The old lines `from + 1` to `to`, as removed lines.
pub open spec fn removed_run(old: Seq<Seq<char>>, from: int, to: int) -> Seq<LineChangeView> {
    Seq::new(
        if to < from { 0nat } else { (to - from) as nat },
        |i: int| LineChangeView { line_number: (from + i + 1) as nat, content: old[from + i] },
    )
}

/// The new lines `from + 1` to `to`, as added lines.
pub open spec fn added_run(new: Seq<Seq<char>>, from: int, to: int) -> Seq<LineChangeView> {
    removed_run(new, from, to)
}

/// The lines that `s` removes after its last `Keep`.
pub open spec fn open_removed(s: Seq<Step>, old: Seq<Seq<char>>) -> Seq<LineChangeView>
    decreases s.len(),
{
    if s.len() == 0 {
        Seq::empty()
    } else {
        let p = s.drop_last();
        match s.last() {
            Step::Keep => Seq::empty(),
            Step::Remove => open_removed(p, old).push(
                LineChangeView {
                    line_number: old_len(p) + 1,
                    content: old[old_len(p) as int],
                },
            ),
            Step::Insert => open_removed(p, old),
        }
    }
}

/// The lines that `s` inserts after its last `Keep`.
pub open spec fn open_added(s: Seq<Step>, new: Seq<Seq<char>>) -> Seq<LineChangeView>
    decreases s.len(),
{
    if s.len() == 0 {
        Seq::empty()
    } else {
        let p = s.drop_last();
        match s.last() {
            Step::Keep => Seq::empty(),
            Step::Remove => open_added(p, new),
            Step::Insert => open_added(p, new).push(
                LineChangeView {
                    line_number: new_len(p) + 1,
                    content: new[new_len(p) as int],
                },
            ),
        }
    }
}

/// The chunk made of one run of changes.
pub open spec fn chunk_of(
    removed: Seq<LineChangeView>,
    added: Seq<LineChangeView>,
) -> DiffChunkView {
    DiffChunkView {
        diff_type: if added.len() == 0 {
            DiffType::Deletion
        } else if removed.len() == 0 {
            DiffType::Addition
        } else {
            DiffType::Modification
        },
        changes: removed + added,
    }
}

/// The chunk of a run, or nothing where the run is empty.
pub open spec fn run_chunks(
    removed: Seq<LineChangeView>,
    added: Seq<LineChangeView>,
) -> Seq<DiffChunkView> {
    if removed.len() == 0 && added.len() == 0 {
        Seq::empty()
    } else {
        seq![chunk_of(removed, added)]
    }
}

/// The chunks of the runs of `s` that a `Keep` has ended.
pub open spec fn closed_chunks(
    s: Seq<Step>,
    old: Seq<Seq<char>>,
    new: Seq<Seq<char>>,
) -> Seq<DiffChunkView>
    decreases s.len(),
{
    if s.len() == 0 {
        Seq::empty()
    } else {
        let p = s.drop_last();
        match s.last() {
            Step::Keep => closed_chunks(p, old, new) + run_chunks(
                open_removed(p, old),
                open_added(p, new),
            ),
            _ => closed_chunks(p, old, new),
        }
    }
}

/// The chunks of a script: one for each maximal run of changes.
pub open spec fn chunks_of(
    s: Seq<Step>,
    old: Seq<Seq<char>>,
    new: Seq<Seq<char>>,
) -> Seq<DiffChunkView> {
    closed_chunks(s, old, new) + run_chunks(open_removed(s, old), open_added(s, new))
}

/// Ends the run held in `removed` and `added`: appends its chunk to `diff`,
/// if it has one, and leaves both empty.
fn close_run(diff: &mut FileDiff, removed: &mut Vec<LineChange>, added: &mut Vec<LineChange>)
    ensures
        final(diff)@.file_name == old(diff)@.file_name,
        final(diff)@.chunks == old(diff)@.chunks + run_chunks(
            changes_view(old(removed)@),
            changes_view(old(added)@),
        ),
        final(removed)@.len() == 0,
        final(added)@.len() == 0,
{
    if removed.len() == 0 && added.len() == 0 {
        return ;
    }
    let diff_type = if added.len() == 0 {
        DiffType::Deletion
    } else if removed.len() == 0 {
        DiffType::Addition
    } else {
        DiffType::Modification
    };
    let ghost r = removed@;
    let ghost a = added@;
    let mut changes: Vec<LineChange> = Vec::new();
    changes.append(removed);
    changes.append(added);
    assert(changes_view(changes@) =~= changes_view(r) + changes_view(a));
    diff.add_chunk(DiffChunk { diff_type, changes });
}

/// Whether `s` stays inside two texts of `old_lines` and `new_lines` lines.
pub open spec fn stays_inside(s: Seq<Step>, old_lines: nat, new_lines: nat) -> bool {
    old_len(s) <= old_lines && new_len(s) <= new_lines
}

/// Groups the changes of `script` into chunks, with the lines taken from
/// `old` and `new`, under the label `file_name`. Nothing is returned where
/// the script passes over more lines than a text has.
pub fn coalesce(
    file_name: &str,
    old: &Vec<String>,
    new: &Vec<String>,
    script: &Vec<Step>,
) -> (result: Option<FileDiff>)
    ensures
        result is Some <==> stays_inside(script@, old.len() as nat, new.len() as nat),
        result matches Some(diff) ==> {
            &&& diff@.file_name == file_name@
            &&& diff@.chunks == chunks_of(script@, old.deep_view(), new.deep_view())
        },
{
    let ghost o = old.deep_view();
    let ghost n = new.deep_view();
    let mut diff = FileDiff::new(file_name.to_owned());
    let mut removed: Vec<LineChange> = Vec::new();
    let mut added: Vec<LineChange> = Vec::new();
    let mut x: usize = 0;
    let mut y: usize = 0;
    let mut i: usize = 0;
    while i < script.len()
        invariant
            0 <= i <= script.len(),
            o == old.deep_view(),
            n == new.deep_view(),
            x == old_len(script@.take(i as int)),
            y == new_len(script@.take(i as int)),
            x <= old.len(),
            y <= new.len(),
            diff@.file_name == file_name@,
            diff@.chunks == closed_chunks(script@.take(i as int), o, n),
            changes_view(removed@) == open_removed(script@.take(i as int), o),
            changes_view(added@) == open_added(script@.take(i as int), n),
        decreases script.len() - i,
    {
        proof {
            assert(script@.take(i + 1).drop_last() =~= script@.take(i as int));
            lemma_count_prefix(script@, i + 1, Step::Keep);
            lemma_count_prefix(script@, i + 1, Step::Remove);
            lemma_count_prefix(script@, i + 1, Step::Insert);
        }
        match script[i] {
            Step::Keep => {
                if x >= old.len() || y >= new.len() {
                    return None;
                }
                close_run(&mut diff, &mut removed, &mut added);
                x = x + 1;
                y = y + 1;
            },
            Step::Remove => {
                if x >= old.len() {
                    return None;
                }
                let change = LineChange { line_number: x + 1, content: old[x].clone() };
                removed.push(change);
                x = x + 1;
            },
            Step::Insert => {
                if y >= new.len() {
                    return None;
                }
                let change = LineChange { line_number: y + 1, content: new[y].clone() };
                added.push(change);
                y = y + 1;
            },
        }
        i = i + 1;
    }
    assert(script@.take(i as int) =~= script@);
    close_run(&mut diff, &mut removed, &mut added);
    Some(diff)
}

} // verus!

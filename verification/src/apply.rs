//! What a list of chunks means: read against the old text, it yields the new
//! text.
//!
//! The chunks are read in order with a cursor that counts the old lines
//! passed and the new lines produced. The first line number of a chunk
//! tells how many unchanged lines lie before it. In a `Modification` the
//! number of the last line, which is an added one, tells where the added
//! lines begin.

use vstd::prelude::*;
use crate::coalesce::{
    added_run, chunk_of, chunks_of, closed_chunks, open_added, open_removed, removed_run,
};
use crate::script::{Step, cost, keeps_match, new_len, old_len, transforms};
use crate::service::data_types::{DiffChunkView, DiffType, LineChangeView};

verus! {

/// A place in both texts.
pub ghost struct Cursor {
    /// The number of old lines passed.
    pub old_line: int,
    /// The number of new lines produced.
    pub new_line: int,
}

/// The number of unchanged lines between the cursor and the chunk `c`.
pub open spec fn gap(c: DiffChunkView, at: Cursor) -> int {
    match c.diff_type {
        DiffType::Addition => c.changes[0].line_number - 1 - at.new_line,
        _ => c.changes[0].line_number - 1 - at.old_line,
    }
}

/// The number of added lines in the chunk `c`, met at the cursor.
pub open spec fn added_count(c: DiffChunkView, at: Cursor) -> int {
    match c.diff_type {
        DiffType::Deletion => 0,
        DiffType::Addition => c.changes.len() as int,
        DiffType::Modification => c.changes.last().line_number - (at.new_line + gap(c, at)),
    }
}

/// The number of removed lines in the chunk `c`, met at the cursor.
pub open spec fn removed_count(c: DiffChunkView, at: Cursor) -> int {
    c.changes.len() - added_count(c, at)
}

/// The cursor behind the chunk `c`.
pub open spec fn advance(c: DiffChunkView, at: Cursor) -> Cursor {
    Cursor {
        old_line: at.old_line + gap(c, at) + removed_count(c, at),
        new_line: at.new_line + gap(c, at) + added_count(c, at),
    }
}

/// The cursor behind all of `chunks`.
pub open spec fn cursor_after(chunks: Seq<DiffChunkView>) -> Cursor
    decreases chunks.len(),
{
    if chunks.len() == 0 {
        Cursor { old_line: 0, new_line: 0 }
    } else {
        advance(chunks.last(), cursor_after(chunks.drop_last()))
    }
}

/// The text of each line change.
pub open spec fn contents(changes: Seq<LineChangeView>) -> Seq<Seq<char>> {
    Seq::new(changes.len(), |i: int| changes[i].content)
}

/// The new text up to the end of the last chunk: the unchanged old lines
/// before each chunk, and its added lines.
pub open spec fn produced(chunks: Seq<DiffChunkView>, old: Seq<Seq<char>>) -> Seq<Seq<char>>
    decreases chunks.len(),
{
    if chunks.len() == 0 {
        Seq::empty()
    } else {
        let before = chunks.drop_last();
        let at = cursor_after(before);
        let c = chunks.last();
        produced(before, old) + old.subrange(at.old_line, at.old_line + gap(c, at)) + contents(
            c.changes.subrange(removed_count(c, at), c.changes.len() as int),
        )
    }
}

/// The text that `chunks` make of `old`: unchanged lines are copied, removed
/// lines are left out and added lines are put in, in the order of the chunks.
pub open spec fn apply_chunks(chunks: Seq<DiffChunkView>, old: Seq<Seq<char>>) -> Seq<Seq<char>> {
    produced(chunks, old) + old.subrange(cursor_after(chunks).old_line, old.len() as int)
}

/// Whether every change of the chunk `c`, met at the cursor, carries the
/// number of its place: the removed lines those of the old lines behind the
/// unchanged ones, one after the other, and the added lines those of the new
/// lines there.
pub open spec fn numbered(c: DiffChunkView, at: Cursor) -> bool {
    let removed = removed_count(c, at);
    &&& forall|k: int|
        0 <= k < removed ==> (#[trigger] c.changes[k]).line_number == at.old_line + gap(c, at) + k
            + 1
    &&& forall|k: int|
        removed <= k < c.changes.len() ==> (#[trigger] c.changes[k]).line_number == at.new_line
            + gap(c, at) + (k - removed) + 1
}

/// Whether the chunk `c`, met at the cursor, can be read against a new text
/// of `new_lines` lines: it has a line, the cursor is not past its first
/// line, a `Modification` has lines of both kinds, its added lines are lines
/// of the new text, and every change carries the number of its place.
pub open spec fn chunk_fits(c: DiffChunkView, at: Cursor, new_lines: nat) -> bool {
    &&& c.changes.len() >= 1
    &&& c.changes[0].line_number >= 1
    &&& gap(c, at) >= 0
    &&& c.diff_type == DiffType::Modification ==> 1 <= added_count(c, at) < c.changes.len()
    &&& advance(c, at).new_line <= new_lines
    &&& numbered(c, at)
}

/// Whether every chunk of `chunks` fits where the chunks before it end.
pub open spec fn fits(chunks: Seq<DiffChunkView>, new_lines: nat) -> bool
    decreases chunks.len(),
{
    chunks.len() == 0 || {
        &&& fits(chunks.drop_last(), new_lines)
        &&& chunk_fits(chunks.last(), cursor_after(chunks.drop_last()), new_lines)
    }
}

/// Chunks that fit leave the cursor at or after where each of their
/// beginnings leaves it, inside the new text.
pub proof fn lemma_fits_prefix(chunks: Seq<DiffChunkView>, new_lines: nat, i: int)
    requires
        fits(chunks, new_lines),
        0 <= i <= chunks.len(),
    ensures
        fits(chunks.take(i), new_lines),
        0 <= cursor_after(chunks.take(i)).old_line <= cursor_after(chunks).old_line,
        0 <= cursor_after(chunks.take(i)).new_line <= cursor_after(chunks).new_line <= new_lines,
    decreases chunks.len(),
{
    if i == chunks.len() {
        assert(chunks.take(i) =~= chunks);
        if chunks.len() > 0 {
            lemma_fits_prefix(chunks.drop_last(), new_lines, i - 1);
        }
    } else {
        assert(chunks.drop_last().take(i) =~= chunks.take(i));
        lemma_fits_prefix(chunks.drop_last(), new_lines, i);
    }
}

/// Whether the chunk `c`, met at the cursor, tells what happens to the two
/// texts there: the lines before it are the same in both, its removed lines
/// are the next old lines and its added lines the next new lines, each with
/// its own number and in the order of its text, the removed ones first.
pub open spec fn chunk_describes(
    c: DiffChunkView,
    at: Cursor,
    old: Seq<Seq<char>>,
    new: Seq<Seq<char>>,
) -> bool {
    let old_start = at.old_line + gap(c, at);
    let new_start = at.new_line + gap(c, at);
    let removed = removed_count(c, at);
    let added = added_count(c, at);
    &&& 0 <= gap(c, at)
    &&& 0 <= removed
    &&& 0 <= added
    &&& 1 <= c.changes.len()
    &&& c.diff_type == DiffType::Modification ==> 1 <= removed && 1 <= added
    &&& old_start + removed <= old.len()
    &&& new_start + added <= new.len()
    &&& old.subrange(at.old_line, old_start) == new.subrange(at.new_line, new_start)
    &&& c.changes == removed_run(old, old_start, old_start + removed) + added_run(
        new,
        new_start,
        new_start + added,
    )
}

/// Whether every chunk of `chunks` tells what happens where the chunks
/// before it end.
pub open spec fn described(
    chunks: Seq<DiffChunkView>,
    old: Seq<Seq<char>>,
    new: Seq<Seq<char>>,
) -> bool
    decreases chunks.len(),
{
    chunks.len() == 0 || {
        &&& described(chunks.drop_last(), old, new)
        &&& chunk_describes(chunks.last(), cursor_after(chunks.drop_last()), old, new)
    }
}

/// Whether `chunks` tell how `old` becomes `new`: every chunk tells what
/// happens where it stands, and behind the last the texts are the same.
pub open spec fn describes(
    chunks: Seq<DiffChunkView>,
    old: Seq<Seq<char>>,
    new: Seq<Seq<char>>,
) -> bool {
    let at = cursor_after(chunks);
    &&& described(chunks, old, new)
    &&& old.subrange(at.old_line, old.len() as int) == new.subrange(
        at.new_line,
        new.len() as int,
    )
}

/// Chunks that tell what happens fit the new text, stay inside both texts,
/// and have produced the new text as far as they go.
pub proof fn lemma_described(chunks: Seq<DiffChunkView>, old: Seq<Seq<char>>, new: Seq<Seq<char>>)
    requires
        described(chunks, old, new),
    ensures
        fits(chunks, new.len()),
        0 <= cursor_after(chunks).old_line <= old.len(),
        0 <= cursor_after(chunks).new_line <= new.len(),
        produced(chunks, old) == new.subrange(0, cursor_after(chunks).new_line),
    decreases chunks.len(),
{
    if chunks.len() > 0 {
        let before = chunks.drop_last();
        let c = chunks.last();
        let at = cursor_after(before);
        lemma_described(before, old, new);
        let new_start = at.new_line + gap(c, at);
        let removed = removed_count(c, at);
        let added = added_count(c, at);
        assert(c.changes.subrange(removed, c.changes.len() as int) =~= added_run(
            new,
            new_start,
            new_start + added,
        ));
        assert(new.subrange(0, at.new_line) + new.subrange(at.new_line, new_start) + new.subrange(
            new_start,
            new_start + added,
        ) =~= new.subrange(0, new_start + added));
    }
}

/// Chunks that tell how `old` becomes `new` make `new` of `old`.
pub proof fn lemma_describes_round_trip(
    chunks: Seq<DiffChunkView>,
    old: Seq<Seq<char>>,
    new: Seq<Seq<char>>,
)
    requires
        describes(chunks, old, new),
    ensures
        apply_chunks(chunks, old) == new,
        fits(chunks, new.len()),
        cursor_after(chunks).old_line <= old.len(),
{
    lemma_described(chunks, old, new);
}

/// At least one unchanged line lies between any two neighbours in `chunks`:
/// no two of them could have been one chunk.
pub open spec fn separated(chunks: Seq<DiffChunkView>) -> bool {
    forall|i: int|
        0 < i < chunks.len() ==> gap(#[trigger] chunks[i], cursor_after(chunks.take(i))) >= 1
}

/// The number of line changes in `chunks`.
pub open spec fn changed_lines(chunks: Seq<DiffChunkView>) -> nat
    decreases chunks.len(),
{
    if chunks.len() == 0 {
        0
    } else {
        changed_lines(chunks.drop_last()) + chunks.last().changes.len()
    }
}

/// How chunks that are followed by `unchanged` unchanged lines stand to the
/// two texts: they tell what happens as far as they go, and the lines behind
/// them are the same in both texts.
#[verifier::opaque]
pub(crate) closed spec fn closed_state(
    closed: Seq<DiffChunkView>,
    old: Seq<Seq<char>>,
    new: Seq<Seq<char>>,
    unchanged: int,
) -> bool {
    let at = cursor_after(closed);
    &&& described(closed, old, new)
    &&& 0 <= unchanged
    &&& at.old_line + unchanged <= old.len()
    &&& at.new_line + unchanged <= new.len()
    &&& old.subrange(at.old_line, at.old_line + unchanged) == new.subrange(
        at.new_line,
        at.new_line + unchanged,
    )
}

/// Before the first chunk.
pub(crate) proof fn lemma_state_start(old: Seq<Seq<char>>, new: Seq<Seq<char>>)
    ensures
        closed_state(Seq::empty(), old, new, 0),
{
    reveal(closed_state);
    assert(old.subrange(0, 0) =~= new.subrange(0, 0));
}

/// One more unchanged line behind the chunks.
pub(crate) proof fn lemma_one_more_unchanged(
    closed: Seq<DiffChunkView>,
    old: Seq<Seq<char>>,
    new: Seq<Seq<char>>,
    unchanged: int,
)
    requires
        closed_state(closed, old, new, unchanged),
        cursor_after(closed).old_line + unchanged < old.len(),
        cursor_after(closed).new_line + unchanged < new.len(),
        old[cursor_after(closed).old_line + unchanged] == new[cursor_after(closed).new_line
            + unchanged],
    ensures
        closed_state(closed, old, new, unchanged + 1),
{
    reveal(closed_state);
    lemma_described(closed, old, new);
    let at = cursor_after(closed);
    assert(old.subrange(at.old_line, at.old_line + unchanged + 1) =~= old.subrange(
        at.old_line,
        at.old_line + unchanged,
    ).push(old[at.old_line + unchanged]));
    assert(new.subrange(at.new_line, at.new_line + unchanged + 1) =~= new.subrange(
        at.new_line,
        at.new_line + unchanged,
    ).push(new[at.new_line + unchanged]));
}

/// What the chunk of a run of changes adds to the chunks before it: the
/// run begins behind the unchanged lines and ends at old line `x` and new
/// line `y`.
pub(crate) proof fn lemma_close_run(
    closed: Seq<DiffChunkView>,
    old: Seq<Seq<char>>,
    new: Seq<Seq<char>>,
    unchanged: int,
    x: int,
    y: int,
)
    requires
        closed_state(closed, old, new, unchanged),
        cursor_after(closed).old_line + unchanged <= x <= old.len(),
        cursor_after(closed).new_line + unchanged <= y <= new.len(),
        cursor_after(closed).old_line + unchanged < x || cursor_after(closed).new_line + unchanged
            < y,
    ensures
        ({
            let at = cursor_after(closed);
            let chunk = chunk_of(
                removed_run(old, at.old_line + unchanged, x),
                added_run(new, at.new_line + unchanged, y),
            );
            let all = closed.push(chunk);
            &&& gap(chunk, at) == unchanged
            &&& cursor_after(all) == Cursor { old_line: x, new_line: y }
            &&& closed_state(all, old, new, 0)
            &&& changed_lines(all) == changed_lines(closed) + (x - at.old_line - unchanged) + (y
                - at.new_line - unchanged)
        }),
{
    reveal(closed_state);
    lemma_described(closed, old, new);
    let at = cursor_after(closed);
    let removed = removed_run(old, at.old_line + unchanged, x);
    let added = added_run(new, at.new_line + unchanged, y);
    let chunk = chunk_of(removed, added);
    let all = closed.push(chunk);
    assert(all.drop_last() =~= closed);
    assert(gap(chunk, at) == unchanged);
    assert(added_count(chunk, at) == added.len());
    assert(chunk_describes(chunk, at, old, new));
    assert(old.subrange(x, x) =~= new.subrange(y, y));
}

/// Chunks that have come to the end of both texts tell how the old text
/// becomes the new one.
pub(crate) proof fn lemma_state_end(
    closed: Seq<DiffChunkView>,
    old: Seq<Seq<char>>,
    new: Seq<Seq<char>>,
    unchanged: int,
)
    requires
        closed_state(closed, old, new, unchanged),
        cursor_after(closed).old_line + unchanged == old.len(),
        cursor_after(closed).new_line + unchanged == new.len(),
    ensures
        describes(closed, old, new),
{
    reveal(closed_state);
}

/// A chunk behind at least one unchanged line lies apart from the chunks
/// before it.
proof fn lemma_push_separated(closed: Seq<DiffChunkView>, chunk: DiffChunkView)
    requires
        separated(closed),
        closed.len() > 0 ==> gap(chunk, cursor_after(closed)) >= 1,
    ensures
        separated(closed.push(chunk)),
{
    let all = closed.push(chunk);
    assert forall|i: int| 0 < i < all.len() implies gap(
        #[trigger] all[i],
        cursor_after(all.take(i)),
    ) >= 1 by {
        if i < closed.len() {
            assert(all.take(i) =~= closed.take(i));
        } else {
            assert(all.take(i) =~= closed);
        }
    }
}

/// How the chunks closed so far and the open run of a script stand to the
/// two texts.
spec fn in_step(s: Seq<Step>, old: Seq<Seq<char>>, new: Seq<Seq<char>>) -> bool {
    let closed = closed_chunks(s, old, new);
    let at = cursor_after(closed);
    let removed = open_removed(s, old);
    let added = open_added(s, new);
    let unchanged = old_len(s) - removed.len() - at.old_line;
    &&& closed_state(closed, old, new, unchanged)
    &&& separated(closed)
    &&& closed.len() > 0 ==> 1 <= unchanged
    &&& old_len(s) <= old.len()
    &&& new_len(s) <= new.len()
    &&& unchanged == new_len(s) - added.len() - at.new_line
    &&& changed_lines(closed) + removed.len() + added.len() == cost(s)
    &&& removed == removed_run(old, at.old_line + unchanged, old_len(s) as int)
    &&& added == added_run(new, at.new_line + unchanged, new_len(s) as int)
}

/// The state of the chunks after a removal.
proof fn lemma_in_step_remove(p: Seq<Step>, old: Seq<Seq<char>>, new: Seq<Seq<char>>)
    requires
        in_step(p, old, new),
        old_len(p) < old.len(),
    ensures
        in_step(p.push(Step::Remove), old, new),
{
    let s = p.push(Step::Remove);
    assert(s.drop_last() =~= p);
    let at = cursor_after(closed_chunks(p, old, new));
    let unchanged = old_len(p) - open_removed(p, old).len() - at.old_line;
    assert(open_removed(s, old) =~= removed_run(
        old,
        at.old_line + unchanged,
        old_len(p) as int + 1,
    ));
}

/// The state of the chunks after an insertion.
proof fn lemma_in_step_insert(p: Seq<Step>, old: Seq<Seq<char>>, new: Seq<Seq<char>>)
    requires
        in_step(p, old, new),
        new_len(p) < new.len(),
    ensures
        in_step(p.push(Step::Insert), old, new),
{
    let s = p.push(Step::Insert);
    assert(s.drop_last() =~= p);
    let at = cursor_after(closed_chunks(p, old, new));
    let unchanged = old_len(p) - open_removed(p, old).len() - at.old_line;
    assert(open_added(s, new) =~= added_run(
        new,
        at.new_line + unchanged,
        new_len(p) as int + 1,
    ));
}

/// The state of the chunks after a kept line.
proof fn lemma_in_step_keep(p: Seq<Step>, old: Seq<Seq<char>>, new: Seq<Seq<char>>)
    requires
        in_step(p, old, new),
        old_len(p) < old.len(),
        new_len(p) < new.len(),
        old[old_len(p) as int] == new[new_len(p) as int],
    ensures
        in_step(p.push(Step::Keep), old, new),
{
    let s = p.push(Step::Keep);
    assert(s.drop_last() =~= p);
    let closed = closed_chunks(p, old, new);
    let at = cursor_after(closed);
    let removed = open_removed(p, old);
    let added = open_added(p, new);
    let x = old_len(p) as int;
    let y = new_len(p) as int;
    let unchanged = x - removed.len() - at.old_line;
    assert(open_removed(s, old) =~= removed_run(old, x + 1, x + 1));
    assert(open_added(s, new) =~= added_run(new, y + 1, y + 1));
    if removed.len() == 0 && added.len() == 0 {
        lemma_one_more_unchanged(closed, old, new, unchanged);
    } else {
        let chunk = chunk_of(removed, added);
        let all = closed.push(chunk);
        lemma_close_run(closed, old, new, unchanged, x, y);
        lemma_push_separated(closed, chunk);
        assert(closed_chunks(s, old, new) =~= all);
        lemma_one_more_unchanged(all, old, new, 0);
    }
}

/// The state of the chunks after each step of a script.
proof fn lemma_in_step(s: Seq<Step>, old: Seq<Seq<char>>, new: Seq<Seq<char>>)
    requires
        keeps_match(s, old, new),
        old_len(s) <= old.len(),
        new_len(s) <= new.len(),
    ensures
        in_step(s, old, new),
    decreases s.len(),
{
    if s.len() == 0 {
        lemma_state_start(old, new);
        assert(open_removed(s, old) =~= removed_run(old, 0, 0));
        assert(open_added(s, new) =~= added_run(new, 0, 0));
    } else {
        let p = s.drop_last();
        assert(s =~= p.push(s.last()));
        lemma_in_step(p, old, new);
        match s.last() {
            Step::Keep => lemma_in_step_keep(p, old, new),
            Step::Remove => lemma_in_step_remove(p, old, new),
            Step::Insert => lemma_in_step_insert(p, old, new),
        }
    }
}

/// The chunks of a script that turns `old` into `new` tell how `old` becomes
/// `new`, lie apart from each other, and hold as many line changes as the
/// script costs.
pub proof fn lemma_chunks_of_script(s: Seq<Step>, old: Seq<Seq<char>>, new: Seq<Seq<char>>)
    requires
        transforms(s, old, new),
    ensures
        describes(chunks_of(s, old, new), old, new),
        separated(chunks_of(s, old, new)),
        changed_lines(chunks_of(s, old, new)) == cost(s),
{
    lemma_in_step(s, old, new);
    let closed = closed_chunks(s, old, new);
    let at = cursor_after(closed);
    let removed = open_removed(s, old);
    let added = open_added(s, new);
    let unchanged = old.len() - removed.len() - at.old_line;
    if removed.len() == 0 && added.len() == 0 {
        lemma_state_end(closed, old, new, unchanged);
    } else {
        let chunk = chunk_of(removed, added);
        let all = closed.push(chunk);
        lemma_close_run(closed, old, new, unchanged, old.len() as int, new.len() as int);
        lemma_push_separated(closed, chunk);
        assert(chunks_of(s, old, new) =~= all);
        lemma_state_end(all, old, new, 0);
    }
}

} // verus!

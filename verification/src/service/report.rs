//! The report of a comparison: the new text line by line, with the removed
//! lines put in where they stood and every changed line marked.
//!
//! Every text and every diff have a report. Chunks that fit the text, as
//! those of every engine do, are read by their places. For chunks that do
//! not, the report falls back on the plain reading of [`super::plain`].

use vstd::prelude::*;
use crate::apply::{
    Cursor, added_count, advance, changed_lines, chunk_fits, contents, cursor_after, described,
    describes, fits, gap, removed_count, lemma_described, lemma_fits_prefix,
};
use crate::coalesce::removed_run;
use crate::service::plain::{
    plain_removed, plain_report, plain_report_lines, plain_text, plainly_added_line,
    lemma_plain_report_shows_text,
};
use crate::service::data_types::{
    DiffChunk, DiffChunkView, DiffType, FileDiff, LineChange, changes_view,
};

verus! {

/// How a line of the report stands to the two texts.
#[derive(Debug, Clone, Copy, PartialEq, Eq, Structural)]
pub enum LineMark {
    /// In both texts.
    Unchanged,
    /// In the old text only.
    Removed,
    /// In the new text only.
    Added,
}

/// One line of the report.
#[derive(Debug)]
pub struct ReportLine {
    pub mark: LineMark,
    pub content: String,
}

/// The mathematical value of a [`ReportLine`].
pub ghost struct ReportLineView {
    pub mark: LineMark,
    pub content: Seq<char>,
}

impl View for ReportLine {
    type V = ReportLineView;

    open spec fn view(&self) -> ReportLineView {
        ReportLineView { mark: self.mark, content: self.content@ }
    }
}

/// The values of a sequence of report lines, in order.
pub open spec fn report_view(lines: Seq<ReportLine>) -> Seq<ReportLineView> {
    Seq::new(lines.len(), |i: int| lines[i]@)
}

/// The lines `texts`, all with the mark `mark`.
pub open spec fn marked(mark: LineMark, texts: Seq<Seq<char>>) -> Seq<ReportLineView> {
    Seq::new(texts.len(), |i: int| ReportLineView { mark, content: texts[i] })
}

/// The report's lines for the chunk `c`, met at the cursor: the unchanged
/// lines before it, its removed lines, its added lines.
pub open spec fn chunk_report(c: DiffChunkView, at: Cursor, new: Seq<Seq<char>>) -> Seq<
    ReportLineView,
> {
    let start = at.new_line + gap(c, at);
    marked(LineMark::Unchanged, new.subrange(at.new_line, start)) + marked(
        LineMark::Removed,
        contents(c.changes.subrange(0, removed_count(c, at))),
    ) + marked(LineMark::Added, new.subrange(start, start + added_count(c, at)))
}

/// The report up to the end of the last chunk.
pub open spec fn report_upto(chunks: Seq<DiffChunkView>, new: Seq<Seq<char>>) -> Seq<
    ReportLineView,
>
    decreases chunks.len(),
{
    if chunks.len() == 0 {
        Seq::empty()
    } else {
        report_upto(chunks.drop_last(), new) + chunk_report(
            chunks.last(),
            cursor_after(chunks.drop_last()),
            new,
        )
    }
}

/// The whole report: the chunks, then the unchanged lines behind the last.
pub open spec fn report_of(chunks: Seq<DiffChunkView>, new: Seq<Seq<char>>) -> Seq<
    ReportLineView,
> {
    report_upto(chunks, new) + marked(
        LineMark::Unchanged,
        new.subrange(cursor_after(chunks).new_line, new.len() as int),
    )
}

/// Whether `chunks` can be read by their places against a new text of
/// `new_lines` lines: the chunks fit, and the old lines that they pass can
/// be counted in the machine's integers.
pub open spec fn reportable(chunks: Seq<DiffChunkView>, new_lines: nat) -> bool {
    fits(chunks, new_lines) && cursor_after(chunks).old_line <= usize::MAX
}

/// The text of the lines of `report` that are not marked `Added`: what the
/// report shows of the old text.
pub open spec fn old_text_shown(report: Seq<ReportLineView>) -> Seq<Seq<char>>
    decreases report.len(),
{
    if report.len() == 0 {
        Seq::empty()
    } else if report.last().mark == LineMark::Added {
        old_text_shown(report.drop_last())
    } else {
        old_text_shown(report.drop_last()).push(report.last().content)
    }
}

/// What two reports show of the old text one after the other, they show
/// together.
proof fn lemma_old_text_concat(a: Seq<ReportLineView>, b: Seq<ReportLineView>)
    ensures
        old_text_shown(a + b) == old_text_shown(a) + old_text_shown(b),
    decreases b.len(),
{
    if b.len() > 0 {
        assert((a + b).drop_last() =~= a + b.drop_last());
        lemma_old_text_concat(a, b.drop_last());
        if b.last().mark != LineMark::Added {
            assert(old_text_shown(a + b) =~= old_text_shown(a) + old_text_shown(b));
        }
    } else {
        assert(a + b =~= a);
    }
}

/// Lines of one mark are shown whole or not at all.
proof fn lemma_old_text_marked(mark: LineMark, texts: Seq<Seq<char>>)
    ensures
        old_text_shown(marked(mark, texts)) == if mark == LineMark::Added {
            Seq::<Seq<char>>::empty()
        } else {
            texts
        },
    decreases texts.len(),
{
    if texts.len() > 0 {
        assert(marked(mark, texts).drop_last() =~= marked(mark, texts.drop_last()));
        lemma_old_text_marked(mark, texts.drop_last());
        if mark != LineMark::Added {
            assert(texts.drop_last().push(texts.last()) =~= texts);
        }
    }
}

/// What the report shows of the old text up to the end of the last chunk.
proof fn lemma_old_text_upto(chunks: Seq<DiffChunkView>, old: Seq<Seq<char>>, new: Seq<Seq<char>>)
    requires
        described(chunks, old, new),
    ensures
        0 <= cursor_after(chunks).old_line <= old.len(),
        old_text_shown(report_upto(chunks, new)) == old.subrange(0, cursor_after(chunks).old_line),
    decreases chunks.len(),
{
    lemma_described(chunks, old, new);
    if chunks.len() == 0 {
        assert(old.subrange(0, 0) =~= Seq::<Seq<char>>::empty());
    } else {
        let before = chunks.drop_last();
        let c = chunks.last();
        let at = cursor_after(before);
        lemma_old_text_upto(before, old, new);
        let old_start = at.old_line + gap(c, at);
        let new_start = at.new_line + gap(c, at);
        let removed = removed_count(c, at);
        let added = added_count(c, at);
        let same = new.subrange(at.new_line, new_start);
        let gone = contents(c.changes.subrange(0, removed));
        let come = new.subrange(new_start, new_start + added);
        let first = report_upto(before, new);
        let unchanged = marked(LineMark::Unchanged, same);
        let taken = marked(LineMark::Removed, gone);
        let given = marked(LineMark::Added, come);
        assert(report_upto(chunks, new) == first + (unchanged + taken + given));
        assert(c.changes.subrange(0, removed) =~= removed_run(old, old_start, old_start + removed));
        assert(gone =~= old.subrange(old_start, old_start + removed));
        assert(same == old.subrange(at.old_line, old_start));
        lemma_old_text_concat(first, unchanged + taken + given);
        lemma_old_text_concat(unchanged + taken, given);
        lemma_old_text_concat(unchanged, taken);
        lemma_old_text_marked(LineMark::Unchanged, same);
        lemma_old_text_marked(LineMark::Removed, gone);
        lemma_old_text_marked(LineMark::Added, come);
        assert(old.subrange(0, at.old_line) + (old.subrange(at.old_line, old_start) + old.subrange(
            old_start,
            old_start + removed,
        ) + Seq::<Seq<char>>::empty()) =~= old.subrange(0, old_start + removed));
    }
}

/// The report of chunks that tell how `old` becomes `new` shows the old
/// text too: without the added lines it is `old`.
pub proof fn lemma_report_shows_old_text(
    chunks: Seq<DiffChunkView>,
    old: Seq<Seq<char>>,
    new: Seq<Seq<char>>,
)
    requires
        describes(chunks, old, new),
    ensures
        old_text_shown(report_of(chunks, new)) == old,
{
    let at = cursor_after(chunks);
    let rest = new.subrange(at.new_line, new.len() as int);
    lemma_old_text_upto(chunks, old, new);
    lemma_old_text_concat(report_upto(chunks, new), marked(LineMark::Unchanged, rest));
    lemma_old_text_marked(LineMark::Unchanged, rest);
    assert(old.subrange(0, at.old_line) + old.subrange(at.old_line, old.len() as int) =~= old);
}

/// Whether an added change of the chunk `c`, met at the cursor, carries the
/// number `number`.
pub open spec fn adds(c: DiffChunkView, at: Cursor, number: int) -> bool {
    exists|k: int|
        removed_count(c, at) <= k < c.changes.len() && (#[trigger] c.changes[k]).line_number
            == number
}

/// Whether an added change of `chunks`, read by their places, carries the
/// number `number`: a change of an `Addition`, or one of the added lines of
/// a `Modification`.
pub open spec fn added_line(chunks: Seq<DiffChunkView>, number: int) -> bool
    decreases chunks.len(),
{
    chunks.len() > 0 && (added_line(chunks.drop_last(), number) || adds(
        chunks.last(),
        cursor_after(chunks.drop_last()),
        number,
    ))
}

/// The new text as the report of chunks that fit shows it: each line once,
/// in order, marked `Added` where an added change of `chunks` carries its
/// number and `Unchanged` elsewhere.
pub open spec fn text_by_place(chunks: Seq<DiffChunkView>, new: Seq<Seq<char>>) -> Seq<
    ReportLineView,
> {
    Seq::new(
        new.len(),
        |i: int|
            ReportLineView {
                mark: if added_line(chunks, i + 1) {
                    LineMark::Added
                } else {
                    LineMark::Unchanged
                },
                content: new[i],
            },
    )
}

/// The lines of `report` that are not marked `Removed`.
pub open spec fn text_lines(report: Seq<ReportLineView>) -> Seq<ReportLineView>
    decreases report.len(),
{
    if report.len() == 0 {
        Seq::empty()
    } else if report.last().mark == LineMark::Removed {
        text_lines(report.drop_last())
    } else {
        text_lines(report.drop_last()).push(report.last())
    }
}

/// The number of removed line changes in `chunks`.
pub open spec fn removed_lines(chunks: Seq<DiffChunkView>) -> int
    decreases chunks.len(),
{
    if chunks.len() == 0 {
        0
    } else {
        removed_lines(chunks.drop_last()) + removed_count(
            chunks.last(),
            cursor_after(chunks.drop_last()),
        )
    }
}

/// The lines that are not removed, of two reports one after the other.
pub(crate) proof fn lemma_text_lines_concat(a: Seq<ReportLineView>, b: Seq<ReportLineView>)
    ensures
        text_lines(a + b) == text_lines(a) + text_lines(b),
    decreases b.len(),
{
    if b.len() > 0 {
        assert((a + b).drop_last() =~= a + b.drop_last());
        lemma_text_lines_concat(a, b.drop_last());
        if b.last().mark != LineMark::Removed {
            assert(text_lines(a + b) =~= text_lines(a) + text_lines(b));
        }
    } else {
        assert(a + b =~= a);
    }
}

/// Lines of one mark are all removed lines or none of them is.
pub(crate) proof fn lemma_text_lines_marked(mark: LineMark, texts: Seq<Seq<char>>)
    ensures
        text_lines(marked(mark, texts)) == if mark == LineMark::Removed {
            Seq::<ReportLineView>::empty()
        } else {
            marked(mark, texts)
        },
    decreases texts.len(),
{
    if texts.len() > 0 {
        assert(marked(mark, texts).drop_last() =~= marked(mark, texts.drop_last()));
        lemma_text_lines_marked(mark, texts.drop_last());
        if mark != LineMark::Removed {
            assert(marked(mark, texts.drop_last()).push(marked(mark, texts).last()) =~= marked(
                mark,
                texts,
            ));
        }
    }
}

/// The added changes of chunks that fit carry numbers of lines that the
/// chunks have passed.
proof fn lemma_added_line_passed(chunks: Seq<DiffChunkView>, new_lines: nat, number: int)
    requires
        fits(chunks, new_lines),
        added_line(chunks, number),
    ensures
        1 <= number <= cursor_after(chunks).new_line,
    decreases chunks.len(),
{
    let before = chunks.drop_last();
    lemma_fits_prefix(chunks, new_lines, chunks.len() - 1);
    assert(chunks.take(chunks.len() - 1) =~= before);
    if added_line(before, number) {
        lemma_added_line_passed(before, new_lines, number);
    }
}

/// What the report shows of the new text up to the end of the last chunk.
proof fn lemma_text_upto(chunks: Seq<DiffChunkView>, new: Seq<Seq<char>>)
    requires
        fits(chunks, new.len()),
    ensures
        0 <= cursor_after(chunks).new_line <= new.len(),
        text_lines(report_upto(chunks, new)) == text_by_place(chunks, new).subrange(
            0,
            cursor_after(chunks).new_line,
        ),
        report_upto(chunks, new).len() == cursor_after(chunks).new_line + removed_lines(chunks),
    decreases chunks.len(),
{
    lemma_fits_prefix(chunks, new.len(), chunks.len() as int);
    if chunks.len() > 0 {
        let before = chunks.drop_last();
        let c = chunks.last();
        let at = cursor_after(before);
        lemma_text_upto(before, new);
        let start = at.new_line + gap(c, at);
        let removed = removed_count(c, at);
        let added = added_count(c, at);
        let end = start + added;
        let same = new.subrange(at.new_line, start);
        let gone = contents(c.changes.subrange(0, removed));
        let come = new.subrange(start, end);
        let first = report_upto(before, new);
        let unchanged = marked(LineMark::Unchanged, same);
        let taken = marked(LineMark::Removed, gone);
        let given = marked(LineMark::Added, come);
        assert(report_upto(chunks, new) == first + (unchanged + taken + given));
        lemma_text_lines_concat(first, unchanged + taken + given);
        lemma_text_lines_concat(unchanged + taken, given);
        lemma_text_lines_concat(unchanged, taken);
        lemma_text_lines_marked(LineMark::Unchanged, same);
        lemma_text_lines_marked(LineMark::Removed, gone);
        lemma_text_lines_marked(LineMark::Added, come);
        let shown_now = text_lines(report_upto(chunks, new));
        let wanted = text_by_place(chunks, new).subrange(0, end);
        assert(shown_now =~= text_lines(first) + unchanged + given);
        assert(shown_now.len() == wanted.len());
        assert forall|i: int| 0 <= i < end implies shown_now[i] == wanted[i] by {
            if added_line(before, i + 1) {
                lemma_added_line_passed(before, new.len(), i + 1);
            }
            if i < at.new_line {
                assert(shown_now[i] == text_by_place(before, new)[i]);
                assert(!adds(c, at, i + 1));
            } else if i < start {
                assert(shown_now[i] == unchanged[i - at.new_line]);
                assert(!adds(c, at, i + 1));
            } else {
                assert(shown_now[i] == given[i - start]);
                assert(c.changes[removed + (i - start)].line_number == i + 1);
                assert(adds(c, at, i + 1));
            }
        }
        assert(shown_now =~= wanted);
    } else {
        assert(text_lines(report_upto(chunks, new)) =~= text_by_place(chunks, new).subrange(0, 0));
    }
}

/// Chunks that fit hold no more removed lines than line changes.
proof fn lemma_removed_lines_counted(chunks: Seq<DiffChunkView>, new_lines: nat)
    requires
        fits(chunks, new_lines),
    ensures
        0 <= removed_lines(chunks) <= changed_lines(chunks),
    decreases chunks.len(),
{
    if chunks.len() > 0 {
        lemma_fits_prefix(chunks, new_lines, chunks.len() - 1);
        assert(chunks.take(chunks.len() - 1) =~= chunks.drop_last());
        lemma_removed_lines_counted(chunks.drop_last(), new_lines);
    }
}

/// The report of chunks that fit the new text shows every line of that text
/// once and in order, marked `Added` exactly where an added change carries
/// its number and `Unchanged` elsewhere; and it has one more line for each
/// removed line change.
pub proof fn lemma_report_shows_new_text(chunks: Seq<DiffChunkView>, new: Seq<Seq<char>>)
    requires
        fits(chunks, new.len()),
    ensures
        text_lines(report_of(chunks, new)) == text_by_place(chunks, new),
        report_of(chunks, new).len() == new.len() + removed_lines(chunks),
        0 <= removed_lines(chunks) <= changed_lines(chunks),
{
    lemma_text_upto(chunks, new);
    lemma_removed_lines_counted(chunks, new.len());
    let at = cursor_after(chunks);
    let rest = new.subrange(at.new_line, new.len() as int);
    let last = marked(LineMark::Unchanged, rest);
    lemma_text_lines_concat(report_upto(chunks, new), last);
    lemma_text_lines_marked(LineMark::Unchanged, rest);
    let shown_now = text_lines(report_of(chunks, new));
    let wanted = text_by_place(chunks, new);
    assert(shown_now.len() == wanted.len());
    assert forall|i: int| 0 <= i < new.len() implies shown_now[i] == wanted[i] by {
        if i < at.new_line {
            assert(shown_now[i] == wanted.subrange(0, at.new_line)[i]);
        } else {
            assert(shown_now[i] == last[i - at.new_line]);
            if added_line(chunks, i + 1) {
                lemma_added_line_passed(chunks, new.len(), i + 1);
            }
        }
    }
    assert(shown_now =~= wanted);
}

/// The report of `chunks` against the text `new`: read by their places
/// where the chunks fit the text, and plainly where they do not.
pub open spec fn whole_report(chunks: Seq<DiffChunkView>, new: Seq<Seq<char>>) -> Seq<
    ReportLineView,
> {
    if reportable(chunks, new.len()) {
        report_of(chunks, new)
    } else {
        plain_report(chunks, new)
    }
}

/// Whether an added change of `chunks` carries the number `number`. In
/// chunks that fit a text of `new_lines` lines the added changes are told by
/// their places; in others an `Addition` has only added changes and a
/// `Modification` has them from its middle on.
pub open spec fn names_added(chunks: Seq<DiffChunkView>, new_lines: nat, number: int) -> bool {
    if reportable(chunks, new_lines) {
        added_line(chunks, number)
    } else {
        plainly_added_line(chunks, number)
    }
}

/// The number of removed changes of `chunks`, with the chunks parted as in
/// [`names_added`].
pub open spec fn removed_changes(chunks: Seq<DiffChunkView>, new_lines: nat) -> int {
    if reportable(chunks, new_lines) {
        removed_lines(chunks)
    } else {
        plain_removed(chunks).len() as int
    }
}

/// The text `new` as every report shows it: each line once, in order, marked
/// `Added` where an added change of `chunks` carries its number and
/// `Unchanged` elsewhere.
pub open spec fn marked_text(chunks: Seq<DiffChunkView>, new: Seq<Seq<char>>) -> Seq<
    ReportLineView,
> {
    Seq::new(
        new.len(),
        |i: int|
            ReportLineView {
                mark: if names_added(chunks, new.len(), i + 1) {
                    LineMark::Added
                } else {
                    LineMark::Unchanged
                },
                content: new[i],
            },
    )
}

/// Every report shows every line of the text once and in order, marked
/// `Added` exactly where an added change carries its number and `Unchanged`
/// elsewhere; and it has one more line for each removed change at most.
pub proof fn lemma_report_shows_text(chunks: Seq<DiffChunkView>, new: Seq<Seq<char>>)
    ensures
        text_lines(whole_report(chunks, new)) == marked_text(chunks, new),
        whole_report(chunks, new).len() == new.len() + removed_changes(chunks, new.len()),
        0 <= removed_changes(chunks, new.len()) <= changed_lines(chunks),
{
    if reportable(chunks, new.len()) {
        lemma_report_shows_new_text(chunks, new);
        assert(marked_text(chunks, new) =~= text_by_place(chunks, new));
    } else {
        lemma_plain_report_shows_text(chunks, new);
        assert(marked_text(chunks, new) =~= plain_text(chunks, new));
    }
}

/// Appends the lines `from` to `to` (from 0, `to` left out) of `source`,
/// marked `mark`.
fn push_lines(
    lines: &mut Vec<ReportLine>,
    mark: LineMark,
    source: &Vec<String>,
    from: usize,
    to: usize,
)
    requires
        from <= to <= source.len(),
    ensures
        report_view(final(lines)@) == report_view(old(lines)@) + marked(
            mark,
            source.deep_view().subrange(from as int, to as int),
        ),
{
    let ghost before = report_view(lines@);
    let ghost texts = source.deep_view();
    let mut i = from;
    while i < to
        invariant
            from <= i <= to <= source.len(),
            texts == source.deep_view(),
            report_view(lines@) == before + marked(mark, texts.subrange(from as int, i as int)),
        decreases to - i,
    {
        let ghost sent = lines@;
        let line = ReportLine { mark, content: source[i].clone() };
        lines.push(line);
        i = i + 1;
        assert(report_view(lines@) =~= report_view(sent).push(line@));
    }
}

/// Appends the first `count` of `changes`, marked as removed.
pub(crate) fn push_removed(lines: &mut Vec<ReportLine>, changes: &Vec<LineChange>, count: usize)
    requires
        count <= changes.len(),
    ensures
        report_view(final(lines)@) == report_view(old(lines)@) + marked(
            LineMark::Removed,
            contents(changes_view(changes@).subrange(0, count as int)),
        ),
{
    let ghost before = report_view(lines@);
    let ghost all = changes_view(changes@);
    let mut i: usize = 0;
    while i < count
        invariant
            0 <= i <= count <= changes.len(),
            all == changes_view(changes@),
            report_view(lines@) == before + marked(
                LineMark::Removed,
                contents(all.subrange(0, i as int)),
            ),
        decreases count - i,
    {
        let ghost sent = lines@;
        let line = ReportLine { mark: LineMark::Removed, content: changes[i].content.clone() };
        lines.push(line);
        i = i + 1;
        assert(report_view(lines@) =~= report_view(sent).push(line@));
    }
}

/// Whether the changes from `from` to `to` (from 0, `to` left out) carry the
/// numbers of the lines behind the first `passed` lines of their text, one
/// after the other.
fn in_sequence(changes: &Vec<LineChange>, from: usize, to: usize, passed: usize) -> (held: bool)
    requires
        from <= to <= changes.len(),
        passed + (to - from) <= usize::MAX,
    ensures
        held == (forall|k: int|
            from <= k < to ==> (#[trigger] changes_view(changes@)[k]).line_number == passed + (k
                - from) + 1),
{
    let mut k = from;
    while k < to
        invariant
            from <= k <= to <= changes.len(),
            passed + (to - from) <= usize::MAX,
            forall|j: int|
                from <= j < k ==> (#[trigger] changes_view(changes@)[j]).line_number == passed + (j
                    - from) + 1,
        decreases to - k,
    {
        if changes[k].line_number != passed + (k - from) + 1 {
            assert(changes_view(changes@)[k as int].line_number != passed + (k - from) + 1);
            return false;
        }
        k = k + 1;
    }
    true
}

/// Measures the chunk met at the cursor: the unchanged lines before it, its
/// removed lines and its added lines. Nothing where the chunk does not fit
/// or the old lines can no longer be counted.
fn measure(chunk: &DiffChunk, old_line: usize, new_line: usize, new_lines: usize) -> (sizes: Option<
    (usize, usize, usize),
>)
    requires
        new_line <= new_lines,
    ensures
        ({
            let at = Cursor { old_line: old_line as int, new_line: new_line as int };
            &&& sizes is Some <==> chunk_fits(chunk@, at, new_lines as nat) && advance(
                chunk@,
                at,
            ).old_line <= usize::MAX
            &&& sizes matches Some((before, removed, added)) ==> {
                &&& before == gap(chunk@, at)
                &&& removed == removed_count(chunk@, at)
                &&& added == added_count(chunk@, at)
                &&& removed <= chunk.changes.len()
            }
        }),
{
    let count = chunk.changes.len();
    if count == 0 {
        return None;
    }
    let first = chunk.changes[0].line_number;
    if first == 0 {
        return None;
    }
    let base = match chunk.diff_type {
        DiffType::Addition => new_line,
        _ => old_line,
    };
    if first - 1 < base {
        return None;
    }
    let before = first - 1 - base;
    if before > new_lines - new_line {
        return None;
    }
    let start = new_line + before;
    let added = match chunk.diff_type {
        DiffType::Deletion => 0,
        DiffType::Addition => count,
        DiffType::Modification => {
            let last = chunk.changes[count - 1].line_number;
            if last <= start || last - start >= count {
                return None;
            }
            last - start
        },
    };
    if added > new_lines - start {
        return None;
    }
    let removed = count - added;
    if before > usize::MAX - old_line || removed > usize::MAX - old_line - before {
        return None;
    }
    if !in_sequence(&chunk.changes, 0, removed, old_line + before) || !in_sequence(
        &chunk.changes,
        removed,
        count,
        start,
    ) {
        return None;
    }
    Some((before, removed, added))
}

/// The report of `diff` against `final_lines`, read by the places of the
/// chunks: the removed lines of each chunk stand before its added lines,
/// where the old text had them. Nothing where the chunks do not fit the
/// text: where a chunk has no line, begins before the end of the chunk
/// before it, reaches past the end of the text, or holds a change whose
/// number is not that of its place.
fn report_by_place(final_lines: &Vec<String>, diff: &FileDiff) -> (report: Option<Vec<ReportLine>>)
    ensures
        report is Some <==> reportable(diff@.chunks, final_lines.len() as nat),
        report matches Some(lines) ==> report_view(lines@) == report_of(
            diff@.chunks,
            final_lines.deep_view(),
        ),
{
    let ghost chunks = diff@.chunks;
    let ghost new = final_lines.deep_view();
    let new_lines = final_lines.len();
    let mut lines: Vec<ReportLine> = Vec::new();
    let mut old_line: usize = 0;
    let mut new_line: usize = 0;
    let mut i: usize = 0;
    while i < diff.chunks.len()
        invariant
            0 <= i <= diff.chunks.len(),
            chunks == diff@.chunks,
            new == final_lines.deep_view(),
            new_lines == final_lines.len(),
            fits(chunks.take(i as int), new_lines as nat),
            cursor_after(chunks.take(i as int)) == (Cursor {
                old_line: old_line as int,
                new_line: new_line as int,
            }),
            new_line <= new_lines,
            report_view(lines@) == report_upto(chunks.take(i as int), new),
        decreases diff.chunks.len() - i,
    {
        let chunk = &diff.chunks[i];
        proof {
            assert(chunks.take(i + 1).drop_last() =~= chunks.take(i as int));
        }
        match measure(chunk, old_line, new_line, new_lines) {
            None => {
                proof {
                    if fits(chunks, new_lines as nat) {
                        lemma_fits_prefix(chunks, new_lines as nat, i + 1);
                    }
                }
                return None;
            },
            Some((before, removed, added)) => {
                let start = new_line + before;
                push_lines(&mut lines, LineMark::Unchanged, final_lines, new_line, start);
                push_removed(&mut lines, &chunk.changes, removed);
                push_lines(&mut lines, LineMark::Added, final_lines, start, start + added);
                old_line = old_line + before + removed;
                new_line = start + added;
            },
        }
        i = i + 1;
    }
    assert(chunks.take(i as int) =~= chunks);
    push_lines(&mut lines, LineMark::Unchanged, final_lines, new_line, new_lines);
    Some(lines)
}

/// The report of `diff` against the new text `final_lines`, for every text
/// and every diff: every line of the text once and in order, marked `Added`
/// exactly where an added change carries its number and `Unchanged`
/// elsewhere, and the removed lines, marked `Removed`. The report has as
/// many lines as the text and one more for each removed change.
///
/// Where the chunks fit the text, as those of every engine do, the removed
/// lines of each chunk stand before its added lines, where the old text had
/// them. Where they do not fit, all removed lines stand before the text.
pub fn report_lines(final_lines: &Vec<String>, diff: &FileDiff) -> (lines: Vec<ReportLine>)
    ensures
        report_view(lines@) == whole_report(diff@.chunks, final_lines.deep_view()),
        text_lines(report_view(lines@)) == marked_text(diff@.chunks, final_lines.deep_view()),
        lines@.len() == final_lines.len() + removed_changes(
            diff@.chunks,
            final_lines.len() as nat,
        ),
        0 <= removed_changes(diff@.chunks, final_lines.len() as nat) <= changed_lines(
            diff@.chunks,
        ),
{
    proof {
        lemma_report_shows_text(diff@.chunks, final_lines.deep_view());
    }
    match report_by_place(final_lines, diff) {
        Some(lines) => lines,
        None => plain_report_lines(final_lines, diff),
    }
}

} // verus!

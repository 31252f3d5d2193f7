//! The plain reading of a diff, for chunks that do not fit the text they
//! are shown with: nothing is made of where a chunk stands. The removed
//! lines come first, and each line of the text is marked by the numbers that
//! the added changes carry.

use vstd::prelude::*;
use crate::apply::{changed_lines, contents};
use crate::service::data_types::{DiffChunk, DiffChunkView, DiffType, FileDiff};
use crate::service::report::{
    LineMark, ReportLine, ReportLineView, marked, push_removed, report_view, text_lines,
    lemma_text_lines_concat, lemma_text_lines_marked,
};

verus! {

/// Where the added changes of the chunk `c` begin: an `Addition` has only
/// added changes, a `Deletion` none, and a `Modification` is parted in the
/// middle, the shorter half first.
pub open spec fn plain_split(c: DiffChunkView) -> int {
    match c.diff_type {
        DiffType::Addition => 0,
        DiffType::Deletion => c.changes.len() as int,
        DiffType::Modification => c.changes.len() as int / 2,
    }
}

/// Whether an added change of the chunk `c` carries the number `number`.
pub open spec fn plainly_adds(c: DiffChunkView, number: int) -> bool {
    exists|k: int|
        plain_split(c) <= k < c.changes.len() && (#[trigger] c.changes[k]).line_number == number
}

/// Whether an added change of `chunks` carries the number `number`.
pub open spec fn plainly_added_line(chunks: Seq<DiffChunkView>, number: int) -> bool
    decreases chunks.len(),
{
    chunks.len() > 0 && (plainly_added_line(chunks.drop_last(), number) || plainly_adds(
        chunks.last(),
        number,
    ))
}

/// The text of the removed changes of `chunks`, in order.
pub open spec fn plain_removed(chunks: Seq<DiffChunkView>) -> Seq<Seq<char>>
    decreases chunks.len(),
{
    if chunks.len() == 0 {
        Seq::empty()
    } else {
        plain_removed(chunks.drop_last()) + contents(
            chunks.last().changes.subrange(0, plain_split(chunks.last())),
        )
    }
}

/// The text `new`, each line marked `Added` where an added change of
/// `chunks` carries its number and `Unchanged` elsewhere.
pub open spec fn plain_text(chunks: Seq<DiffChunkView>, new: Seq<Seq<char>>) -> Seq<
    ReportLineView,
> {
    Seq::new(
        new.len(),
        |i: int|
            ReportLineView {
                mark: if plainly_added_line(chunks, i + 1) {
                    LineMark::Added
                } else {
                    LineMark::Unchanged
                },
                content: new[i],
            },
    )
}

/// The plain report: the removed lines of all chunks, then the text.
pub open spec fn plain_report(chunks: Seq<DiffChunkView>, new: Seq<Seq<char>>) -> Seq<
    ReportLineView,
> {
    marked(LineMark::Removed, plain_removed(chunks)) + plain_text(chunks, new)
}

/// A report without removed lines is all text.
proof fn lemma_all_text(report: Seq<ReportLineView>)
    requires
        forall|i: int| 0 <= i < report.len() ==> (#[trigger] report[i]).mark != LineMark::Removed,
    ensures
        text_lines(report) == report,
    decreases report.len(),
{
    if report.len() > 0 {
        lemma_all_text(report.drop_last());
        assert(report.drop_last().push(report.last()) =~= report);
    }
}

/// There are no more removed changes than changes.
proof fn lemma_plain_removed_counted(chunks: Seq<DiffChunkView>)
    ensures
        plain_removed(chunks).len() <= changed_lines(chunks),
    decreases chunks.len(),
{
    if chunks.len() > 0 {
        lemma_plain_removed_counted(chunks.drop_last());
    }
}

/// The plain report shows every line of the text once and in order, marked
/// `Added` exactly where an added change carries its number and `Unchanged`
/// elsewhere; and it has one more line for each removed change.
pub proof fn lemma_plain_report_shows_text(chunks: Seq<DiffChunkView>, new: Seq<Seq<char>>)
    ensures
        text_lines(plain_report(chunks, new)) == plain_text(chunks, new),
        plain_report(chunks, new).len() == new.len() + plain_removed(chunks).len(),
        plain_removed(chunks).len() <= changed_lines(chunks),
{
    let removed = marked(LineMark::Removed, plain_removed(chunks));
    let text = plain_text(chunks, new);
    lemma_text_lines_concat(removed, text);
    lemma_text_lines_marked(LineMark::Removed, plain_removed(chunks));
    lemma_all_text(text);
    assert(Seq::<ReportLineView>::empty() + text =~= text);
    lemma_plain_removed_counted(chunks);
}

/// Where the added changes of `chunk` begin.
fn split_of(chunk: &DiffChunk) -> (split: usize)
    ensures
        split == plain_split(chunk@),
        split <= chunk.changes.len(),
{
    match chunk.diff_type {
        DiffType::Addition => 0,
        DiffType::Deletion => chunk.changes.len(),
        DiffType::Modification => chunk.changes.len() / 2,
    }
}

/// Whether an added change of `chunk` carries the number `number`.
fn chunk_names(chunk: &DiffChunk, number: usize) -> (named: bool)
    ensures
        named == plainly_adds(chunk@, number as int),
{
    let mut k = split_of(chunk);
    while k < chunk.changes.len()
        invariant
            plain_split(chunk@) <= k <= chunk.changes.len(),
            forall|j: int|
                plain_split(chunk@) <= j < k ==> (#[trigger] chunk@.changes[j]).line_number
                    != number,
        decreases chunk.changes.len() - k,
    {
        if chunk.changes[k].line_number == number {
            assert(chunk@.changes[k as int].line_number == number);
            return true;
        }
        k = k + 1;
    }
    false
}

/// Whether an added change of `diff` carries the number `number`.
fn diff_names(diff: &FileDiff, number: usize) -> (named: bool)
    ensures
        named == plainly_added_line(diff@.chunks, number as int),
{
    let ghost chunks = diff@.chunks;
    let mut i: usize = 0;
    while i < diff.chunks.len()
        invariant
            0 <= i <= diff.chunks.len(),
            chunks == diff@.chunks,
            !plainly_added_line(chunks.take(i as int), number as int),
        decreases diff.chunks.len() - i,
    {
        assert(chunks.take(i + 1).drop_last() =~= chunks.take(i as int));
        if chunk_names(&diff.chunks[i], number) {
            proof {
                lemma_named_on(chunks, i + 1, number as int);
            }
            return true;
        }
        i = i + 1;
    }
    assert(chunks.take(i as int) =~= chunks);
    false
}

/// A number that the first chunks name, all chunks name.
proof fn lemma_named_on(chunks: Seq<DiffChunkView>, upto: int, number: int)
    requires
        0 <= upto <= chunks.len(),
        plainly_added_line(chunks.take(upto), number),
    ensures
        plainly_added_line(chunks, number),
    decreases chunks.len(),
{
    if upto == chunks.len() {
        assert(chunks.take(upto) =~= chunks);
    } else {
        assert(chunks.drop_last().take(upto) =~= chunks.take(upto));
        lemma_named_on(chunks.drop_last(), upto, number);
    }
}

/// The plain report of `diff` against the text `final_lines`.
pub(crate) fn plain_report_lines(final_lines: &Vec<String>, diff: &FileDiff) -> (lines: Vec<
    ReportLine,
>)
    ensures
        report_view(lines@) == plain_report(diff@.chunks, final_lines.deep_view()),
{
    let ghost chunks = diff@.chunks;
    let ghost new = final_lines.deep_view();
    let mut lines: Vec<ReportLine> = Vec::new();
    let mut i: usize = 0;
    assert(report_view(lines@) =~= marked(LineMark::Removed, plain_removed(chunks.take(0))));
    while i < diff.chunks.len()
        invariant
            0 <= i <= diff.chunks.len(),
            chunks == diff@.chunks,
            report_view(lines@) == marked(LineMark::Removed, plain_removed(chunks.take(i as int))),
        decreases diff.chunks.len() - i,
    {
        let chunk = &diff.chunks[i];
        let ghost before = plain_removed(chunks.take(i as int));
        let ghost here = contents(chunk@.changes.subrange(0, plain_split(chunk@)));
        proof {
            assert(chunks.take(i + 1).drop_last() =~= chunks.take(i as int));
            assert(marked(LineMark::Removed, before) + marked(LineMark::Removed, here) =~= marked(
                LineMark::Removed,
                before + here,
            ));
        }
        push_removed(&mut lines, &chunk.changes, split_of(chunk));
        i = i + 1;
    }
    assert(chunks.take(i as int) =~= chunks);
    let ghost removed = marked(LineMark::Removed, plain_removed(chunks));
    let mut n: usize = 0;
    assert(report_view(lines@) =~= removed + plain_text(chunks, new).subrange(0, 0));
    while n < final_lines.len()
        invariant
            0 <= n <= final_lines.len(),
            chunks == diff@.chunks,
            new == final_lines.deep_view(),
            report_view(lines@) == removed + plain_text(chunks, new).subrange(0, n as int),
        decreases final_lines.len() - n,
    {
        let mark = if diff_names(diff, n + 1) {
            LineMark::Added
        } else {
            LineMark::Unchanged
        };
        let ghost sent = lines@;
        let line = ReportLine { mark, content: final_lines[n].clone() };
        lines.push(line);
        n = n + 1;
        assert(report_view(lines@) =~= report_view(sent).push(line@));
        assert(report_view(lines@) =~= removed + plain_text(chunks, new).subrange(0, n as int));
    }
    assert(plain_text(chunks, new).subrange(0, n as int) =~= plain_text(chunks, new));
    lines
}

} // verus!

//! Chunks of line changes: what every engine returns.

use vstd::prelude::*;

verus! {

/// What a chunk does to the old text.
#[derive(Debug, Clone, Copy, PartialEq, Eq, Structural)]
pub enum DiffType {
    /// Lines that only the new text has.
    Addition,
    /// Lines that only the old text has.
    Deletion,
    /// Lines of the old text replaced by lines of the new text.
    Modification,
}

/// One changed line. `line_number` counts from 1, in the old text for a
/// removed line and in the new text for an added line.
#[derive(Debug)]
pub struct LineChange {
    pub line_number: usize,
    pub content: String,
}

/// A run of changed lines with no unchanged line in between. A
/// `Modification` holds the removed lines first, then the added lines, each
/// group in the order of its text. Its last line is an added one: the
/// number of that line tells a reader who has counted the new lines before
/// the chunk how many added lines there are.
#[derive(Debug)]
pub struct DiffChunk {
    pub diff_type: DiffType,
    pub changes: Vec<LineChange>,
}

/// The differences between two texts, in the order of the texts.
#[derive(Debug)]
pub struct FileDiff {
    pub file_name: String,
    pub chunks: Vec<DiffChunk>,
}

/// The mathematical value of a [`LineChange`].
pub ghost struct LineChangeView {
    pub line_number: nat,
    pub content: Seq<char>,
}

/// The mathematical value of a [`DiffChunk`].
pub ghost struct DiffChunkView {
    pub diff_type: DiffType,
    pub changes: Seq<LineChangeView>,
}

/// The mathematical value of a [`FileDiff`].
pub ghost struct FileDiffView {
    pub file_name: Seq<char>,
    pub chunks: Seq<DiffChunkView>,
}

impl View for LineChange {
    type V = LineChangeView;

    open spec fn view(&self) -> LineChangeView {
        LineChangeView { line_number: self.line_number as nat, content: self.content@ }
    }
}

/// The values of a sequence of line changes, in order.
pub open spec fn changes_view(changes: Seq<LineChange>) -> Seq<LineChangeView> {
    Seq::new(changes.len(), |i: int| changes[i]@)
}

/// The values of a sequence of chunks, in order.
pub open spec fn chunks_view(chunks: Seq<DiffChunk>) -> Seq<DiffChunkView> {
    Seq::new(chunks.len(), |i: int| chunks[i]@)
}

impl View for DiffChunk {
    type V = DiffChunkView;

    open spec fn view(&self) -> DiffChunkView {
        DiffChunkView { diff_type: self.diff_type, changes: changes_view(self.changes@) }
    }
}

impl View for FileDiff {
    type V = FileDiffView;

    open spec fn view(&self) -> FileDiffView {
        FileDiffView { file_name: self.file_name@, chunks: chunks_view(self.chunks@) }
    }
}

impl FileDiff {
    /// An empty diff labelled `file_name`.
    pub fn new(file_name: String) -> (diff: Self)
        ensures
            diff@.file_name == file_name@,
            diff@.chunks == Seq::<DiffChunkView>::empty(),
    {
        FileDiff { file_name, chunks: Vec::new() }
    }

    /// Appends `chunk` after the chunks already held.
    pub fn add_chunk(&mut self, chunk: DiffChunk)
        ensures
            final(self)@.file_name == old(self)@.file_name,
            final(self)@.chunks == old(self)@.chunks.push(chunk@),
    {
        self.chunks.push(chunk);
    }
}

} // verus!

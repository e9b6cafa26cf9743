//! The records that a scan produces: positions, ranges, blocks and conflicts.

use vstd::prelude::*;

verus! {

/// A place in a document: a zero-based line and a zero-based column counted
/// in UTF-16 code units.
#[derive(Clone, Copy, Debug, PartialEq, Eq, Structural, Hash)]
pub struct Position {
    pub line: u32,
    pub character: u32,
}

impl Position {
    pub fn new(line: u32, character: u32) -> (position: Position)
        ensures
            position.line == line,
            position.character == character,
    {
        Position { line, character }
    }
}

/// A stretch of a document from `start` up to, but not including, `end`.
#[derive(Clone, Copy, Debug, PartialEq, Eq, Structural, Hash)]
pub struct Range {
    pub start: Position,
    pub end: Position,
}

impl Range {
    pub fn new(start: Position, end: Position) -> (range: Range)
        ensures
            range.start == start,
            range.end == end,
    {
        Range { start, end }
    }
}

/// The range that covers one whole line: from column 0 of line `line` to the
/// column `width`, the line's length in UTF-16 code units.
pub open spec fn line_range(line: int, width: nat) -> Range {
    Range {
        start: Position { line: line as u32, character: 0 },
        end: Position { line: line as u32, character: width as u32 },
    }
}

/// One side of a conflict: where its header line stands and the text that the
/// block stands for.
#[derive(Clone, Debug, PartialEq, Eq)]
pub struct ChangeBlock {
    pub title_range: Range,
    pub content: String,
}

/// A `ChangeBlock` as a mathematical value.
pub struct ChangeBlockView {
    pub title_range: Range,
    pub content: Seq<char>,
}

impl View for ChangeBlock {
    type V = ChangeBlockView;

    open spec fn view(&self) -> ChangeBlockView {
        ChangeBlockView { title_range: self.title_range, content: self.content@ }
    }
}

/// One conflict: the range of the whole region, the range of its opening
/// marker line, and its blocks in the order in which they appear.
#[derive(Clone, Debug, PartialEq, Eq)]
pub struct Conflict {
    pub range: Range,
    pub title_range: Range,
    pub blocks: Vec<ChangeBlock>,
}

/// A `Conflict` as a mathematical value.
pub struct ConflictView {
    pub range: Range,
    pub title_range: Range,
    pub blocks: Seq<ChangeBlockView>,
}

impl View for Conflict {
    type V = ConflictView;

    open spec fn view(&self) -> ConflictView {
        ConflictView {
            range: self.range,
            title_range: self.title_range,
            blocks: blocks_view(self.blocks@),
        }
    }
}

/// The views of a sequence of blocks, in the same order.
pub open spec fn blocks_view(blocks: Seq<ChangeBlock>) -> Seq<ChangeBlockView> {
    Seq::new(blocks.len(), |i: int| blocks[i]@)
}

/// The views of a sequence of conflicts, in the same order.
pub open spec fn conflicts_view(conflicts: Seq<Conflict>) -> Seq<ConflictView> {
    Seq::new(conflicts.len(), |i: int| conflicts[i]@)
}

} // verus!

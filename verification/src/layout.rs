//! Where blocks and conflicts lie in a sequence of classified lines, and
//! what they hold.

use crate::document::LineView;
use crate::pattern::LineKind;
use crate::types::{line_range, ChangeBlockView, ConflictView, Position, Range};
use crate::utf16::utf16_len;
use vstd::prelude::*;

verus! {

/// The index of the first line at or after `from` that is no continuation,
/// or the number of lines where there is none.
pub open spec fn skip_continuations(lines: Seq<LineView>, from: int) -> int
    decreases lines.len() - from,
{
    if 0 <= from < lines.len() && lines[from].kind == LineKind::Continuation {
        skip_continuations(lines, from + 1)
    } else {
        from
    }
}

/// The index of the first line at or after `from` at which the text of a
/// block ends, or the number of lines where there is none.
pub open spec fn content_end(lines: Seq<LineView>, from: int) -> int
    decreases lines.len() - from,
{
    if 0 <= from < lines.len() && !lines[from].kind.is_known() {
        content_end(lines, from + 1)
    } else {
        from
    }
}

/// The index of the first line of the text of the block whose header is the
/// line `header`: the continuations after the header are passed over.
pub open spec fn block_content_start(lines: Seq<LineView>, header: int) -> int {
    skip_continuations(lines, header + 1)
}

/// The index of the line that ends the block whose header is the line
/// `header`, or the number of lines where the block is never ended.
pub open spec fn block_end(lines: Seq<LineView>, header: int) -> int {
    content_end(lines, block_content_start(lines, header))
}

/// The texts of the lines from `from` up to, not including, `to`.
pub open spec fn texts_between(lines: Seq<LineView>, from: int, to: int) -> Seq<Seq<char>> {
    Seq::new((to - from) as nat, |i: int| lines[from + i].text)
}

/// Whether a line inside a block of changes is one that was removed: it
/// begins with `-`.
pub open spec fn is_removed(line: Seq<char>) -> bool {
    line.len() > 0 && line[0] == '-'
}

/// A line inside a block of changes without the `+` at its front, if it has
/// one.
pub open spec fn without_plus(line: Seq<char>) -> Seq<char> {
    if line.len() > 0 && line[0] == '+' {
        line.skip(1)
    } else {
        line
    }
}

/// What one line inside a block of changes gives to the block's text:
/// nothing where it begins with `-`, the rest of the line where it begins
/// with `+`, and otherwise the line as it is.
pub open spec fn change_piece(line: Seq<char>) -> Option<Seq<char>> {
    if is_removed(line) {
        None
    } else {
        Some(without_plus(line))
    }
}

/// What the lines inside a block of changes give to the block's text, in
/// order.
pub open spec fn change_pieces(texts: Seq<Seq<char>>) -> Seq<Seq<char>>
    decreases texts.len(),
{
    if texts.len() == 0 {
        Seq::empty()
    } else {
        let before = change_pieces(texts.drop_last());
        match change_piece(texts.last()) {
            Some(piece) => before.push(piece),
            None => before,
        }
    }
}

/// `text` with `piece` added as a further line. A line feed parts the two,
/// unless `piece` is the first line of the text.
pub open spec fn with_piece(text: Seq<char>, piece: Seq<char>, first: bool) -> Seq<char> {
    if first {
        text + piece
    } else {
        text + seq!['\n'] + piece
    }
}

/// The text of a block made of `pieces`: the pieces in order, with one line
/// feed between each two and none before the first or after the last. No
/// piece is left out, an empty one neither.
pub open spec fn joined(pieces: Seq<Seq<char>>) -> Seq<char>
    decreases pieces.len(),
{
    if pieces.len() == 0 {
        Seq::empty()
    } else if pieces.len() == 1 {
        pieces[0]
    } else {
        joined(pieces.drop_last()) + seq!['\n'] + pieces.last()
    }
}

/// A further piece adds one line to the text.
pub proof fn lemma_joined_push(pieces: Seq<Seq<char>>, piece: Seq<char>)
    ensures
        joined(pieces.push(piece)) == with_piece(joined(pieces), piece, pieces.len() == 0),
{
    assert(pieces.push(piece).drop_last() == pieces);
    if pieces.len() == 0 {
        assert(joined(pieces) + piece == piece);
    }
}

/// A further line inside a block of changes adds its piece, if it has one.
pub proof fn lemma_change_pieces_push(texts: Seq<Seq<char>>, line: Seq<char>)
    ensures
        change_pieces(texts.push(line)) == match change_piece(line) {
            Some(piece) => change_pieces(texts).push(piece),
            None => change_pieces(texts),
        },
{
    assert(texts.push(line).drop_last() == texts);
}

/// The block of changes whose header is the line `header`.
pub open spec fn change_block_at(lines: Seq<LineView>, header: int) -> ChangeBlockView {
    ChangeBlockView {
        title_range: line_range(header, utf16_len(lines[header].text)),
        content: joined(
            change_pieces(
                texts_between(lines, block_content_start(lines, header), block_end(lines, header)),
            ),
        ),
    }
}

/// The block of contents whose header is the line `header`.
pub open spec fn contents_block_at(lines: Seq<LineView>, header: int) -> ChangeBlockView {
    ChangeBlockView {
        title_range: line_range(header, utf16_len(lines[header].text)),
        content: joined(
            texts_between(lines, block_content_start(lines, header), block_end(lines, header)),
        ),
    }
}

/// The block whose header is the line `header`, read as that header's kind
/// asks.
pub open spec fn block_at(lines: Seq<LineView>, header: int) -> ChangeBlockView {
    if lines[header].kind == LineKind::ChangeHeader {
        change_block_at(lines, header)
    } else {
        contents_block_at(lines, header)
    }
}

/// Continuations and text are passed over forwards only.
pub proof fn lemma_layout_moves_forward(lines: Seq<LineView>, from: int)
    ensures
        from <= skip_continuations(lines, from),
        from <= content_end(lines, from),
        from < lines.len() ==> skip_continuations(lines, from) <= lines.len(),
        from < lines.len() ==> content_end(lines, from) <= lines.len(),
    decreases lines.len() - from,
{
    if 0 <= from < lines.len() {
        lemma_layout_moves_forward(lines, from + 1);
    }
}

/// A block ends after its header.
pub proof fn lemma_block_end_after_header(lines: Seq<LineView>, header: int)
    ensures
        header < block_content_start(lines, header) <= block_end(lines, header),
        header < lines.len() ==> block_end(lines, header) <= lines.len(),
{
    lemma_layout_moves_forward(lines, header + 1);
    lemma_layout_moves_forward(lines, block_content_start(lines, header));
}

/// The index of the line that closes a conflict whose blocks begin at the
/// line `at`: the first line, after a run of complete blocks, that heads no
/// block. There is none where the lines are used up first or the last block
/// is never ended.
pub open spec fn conflict_close(lines: Seq<LineView>, at: int) -> Option<int>
    decreases lines.len() - at,
{
    if at < 0 || at >= lines.len() {
        None
    } else if lines[at].kind.is_header() {
        proof {
            lemma_block_end_after_header(lines, at);
        }
        let next = block_end(lines, at);
        if next >= lines.len() {
            None
        } else {
            conflict_close(lines, next)
        }
    } else {
        Some(at)
    }
}

/// The blocks of a conflict whose blocks begin at the line `at`, in order.
pub open spec fn blocks_from(lines: Seq<LineView>, at: int) -> Seq<ChangeBlockView>
    decreases lines.len() - at,
{
    if 0 <= at < lines.len() && lines[at].kind.is_header() {
        proof {
            lemma_block_end_after_header(lines, at);
        }
        let next = block_end(lines, at);
        if next >= lines.len() {
            Seq::empty()
        } else {
            seq![block_at(lines, at)] + blocks_from(lines, next)
        }
    } else {
        Seq::empty()
    }
}

/// The conflict that the line `start` opens and the line `close` closes. It
/// reaches from the beginning of the one to the end of the other.
pub open spec fn conflict_at(lines: Seq<LineView>, start: int, close: int) -> ConflictView {
    ConflictView {
        range: Range {
            start: Position { line: start as u32, character: 0 },
            end: Position {
                line: close as u32,
                character: utf16_len(lines[close].text) as u32,
            },
        },
        title_range: line_range(start, utf16_len(lines[start].text)),
        blocks: blocks_from(lines, start + 1),
    }
}

/// The line that closes a conflict stands after the line that opens it.
pub proof fn lemma_conflict_close_in_range(lines: Seq<LineView>, at: int)
    ensures
        conflict_close(lines, at) matches Some(close) ==> at <= close < lines.len()
            && !lines[close].kind.is_header(),
    decreases lines.len() - at,
{
    if 0 <= at < lines.len() && lines[at].kind.is_header() {
        lemma_block_end_after_header(lines, at);
        let next = block_end(lines, at);
        if next < lines.len() {
            lemma_conflict_close_in_range(lines, next);
        }
    }
}

/// The conflicts found from the line `from` on, in order. A line that opens
/// a conflict is followed by the conflict's blocks; the search goes on after
/// the line that closes it, and ends where a conflict is never closed.
pub open spec fn scan(lines: Seq<LineView>, from: int) -> Seq<ConflictView>
    decreases lines.len() - from,
{
    if from < 0 || from >= lines.len() {
        Seq::empty()
    } else if lines[from].kind == LineKind::ConflictStart {
        proof {
            lemma_conflict_close_in_range(lines, from + 1);
        }
        match conflict_close(lines, from + 1) {
            Some(close) => seq![conflict_at(lines, from, close)] + scan(lines, close + 1),
            None => Seq::empty(),
        }
    } else {
        scan(lines, from + 1)
    }
}

/// The conflicts of a sequence of classified lines.
pub open spec fn conflicts_of(lines: Seq<LineView>) -> Seq<ConflictView> {
    scan(lines, 0)
}

} // verus!

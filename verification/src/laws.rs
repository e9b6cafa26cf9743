//! What holds of every scan.

use crate::document::{document_lines, LineView};
use crate::layout::{
    block_at, block_content_start, block_end, blocks_from, change_block_at, change_piece,
    change_pieces, conflict_at, conflict_close, conflicts_of, content_end, is_removed, joined,
    lemma_block_end_after_header, lemma_conflict_close_in_range, scan, skip_continuations,
    texts_between, without_plus,
};
use crate::lines::lines_of;
use crate::pattern::{
    is_change_header, is_conflict_end, is_conflict_start, is_contents_header, is_continuation,
    line_kind, LineKind,
};
use crate::types::ConflictView;
use vstd::prelude::*;

verus! {

/// Where no line opens a conflict, no conflict is found.
pub proof fn lemma_no_start_no_conflict(lines: Seq<LineView>, from: int)
    requires
        forall|i: int| 0 <= i < lines.len() ==> lines[i].kind != LineKind::ConflictStart,
    ensures
        scan(lines, from) == Seq::<ConflictView>::empty(),
    decreases lines.len() - from,
{
    if 0 <= from < lines.len() {
        lemma_no_start_no_conflict(lines, from + 1);
    }
}

/// In a document none of whose lines matches the pattern that opens a
/// conflict, no conflict is found.
pub proof fn lemma_no_marker_no_conflict(text: Seq<char>)
    requires
        forall|i: int| 0 <= i < lines_of(text).len() ==> !is_conflict_start(lines_of(text)[i]),
    ensures
        conflicts_of(document_lines(text)) == Seq::<ConflictView>::empty(),
{
    let lines = document_lines(text);
    assert forall|i: int| 0 <= i < lines.len() implies lines[i].kind
        != LineKind::ConflictStart by {
        assert(!is_conflict_start(lines_of(text)[i]));
    }
    lemma_no_start_no_conflict(lines, 0);
}

/// Continuations are passed over only in one run, from `from` on: every
/// line that is passed over is a continuation, and the line at which the run
/// ends is none.
pub proof fn lemma_skip_continuations(lines: Seq<LineView>, from: int)
    requires
        0 <= from <= lines.len(),
    ensures
        from <= skip_continuations(lines, from) <= lines.len(),
        forall|j: int|
            from <= j < skip_continuations(lines, from) ==> lines[j].kind
                == LineKind::Continuation,
        skip_continuations(lines, from) < lines.len() ==> lines[skip_continuations(
            lines,
            from,
        )].kind != LineKind::Continuation,
    decreases lines.len() - from,
{
    if from < lines.len() && lines[from].kind == LineKind::Continuation {
        lemma_skip_continuations(lines, from + 1);
    }
}

/// The text of a block reaches up to the first line that ends it: no line
/// before that one is a header, an end of a conflict or a continuation.
pub proof fn lemma_content_end(lines: Seq<LineView>, from: int)
    requires
        0 <= from <= lines.len(),
    ensures
        from <= content_end(lines, from) <= lines.len(),
        forall|j: int| from <= j < content_end(lines, from) ==> !lines[j].kind.is_known(),
        content_end(lines, from) < lines.len() ==> lines[content_end(lines, from)].kind.is_known(),
    decreases lines.len() - from,
{
    if from < lines.len() && !lines[from].kind.is_known() {
        lemma_content_end(lines, from + 1);
    }
}

/// The layout of a block. Between the header and the text stand
/// continuations and nothing else; the text holds no continuation, no header
/// and no end of a conflict; the text does not begin with a continuation;
/// and the line that ends the block is one of those that the text cannot
/// hold.
pub proof fn lemma_block_layout(lines: Seq<LineView>, header: int)
    requires
        0 <= header < lines.len(),
    ensures
        header < block_content_start(lines, header) <= block_end(lines, header) <= lines.len(),
        forall|j: int|
            header < j < block_content_start(lines, header) ==> lines[j].kind
                == LineKind::Continuation,
        forall|j: int|
            block_content_start(lines, header) <= j < block_end(lines, header)
                ==> !lines[j].kind.is_known(),
        block_content_start(lines, header) < lines.len() ==> lines[block_content_start(
            lines,
            header,
        )].kind != LineKind::Continuation,
        block_end(lines, header) < lines.len() ==> lines[block_end(lines, header)].kind.is_known(),
{
    lemma_skip_continuations(lines, header + 1);
    lemma_content_end(lines, block_content_start(lines, header));
}

/// In a document, no line of the text of a block matches the pattern of a
/// continuation, of a header or of the end of a conflict.
pub proof fn lemma_block_text_matches_no_marker(text: Seq<char>, header: int, j: int)
    requires
        0 <= header < lines_of(text).len(),
        block_content_start(document_lines(text), header) <= j < block_end(
            document_lines(text),
            header,
        ),
    ensures
        0 <= j < lines_of(text).len(),
        !is_continuation(lines_of(text)[j]),
        !is_change_header(lines_of(text)[j]),
        !is_contents_header(lines_of(text)[j]),
        !is_conflict_end(lines_of(text)[j]),
{
    let lines = document_lines(text);
    lemma_block_layout(lines, header);
    assert(lines[j].kind == line_kind(lines_of(text)[j]));
}

/// Whether the line `j`, if it is a continuation, stands where one may
/// stand: after a header or after another continuation.
pub open spec fn continuation_in_place(lines: Seq<LineView>, j: int) -> bool {
    lines[j].kind == LineKind::Continuation ==> lines[j - 1].kind.is_header() || lines[j
        - 1].kind == LineKind::Continuation
}

/// Whether the lines from `start` to `end` are a conflict that is well
/// formed and closed: a line that opens a conflict, then blocks, each a
/// header, its continuations and its text, then the first line after `start`
/// that ends a conflict.
pub open spec fn closed_conflict(lines: Seq<LineView>, start: int, end: int) -> bool {
    &&& 0 <= start < end < lines.len()
    &&& lines[start].kind == LineKind::ConflictStart
    &&& lines[end].kind == LineKind::ConflictEnd
    &&& end == start + 1 || lines[start + 1].kind.is_header()
    &&& forall|j: int| start < j < end ==> lines[j].kind != LineKind::ConflictEnd
    &&& forall|j: int| start < j < end ==> #[trigger] continuation_in_place(lines, j)
}

/// Inside a well-formed closed conflict, the blocks that begin at a header
/// lead to the line that ends the conflict.
proof fn lemma_blocks_reach_end(lines: Seq<LineView>, start: int, end: int, at: int)
    requires
        closed_conflict(lines, start, end),
        start < at <= end,
        at == end || lines[at].kind.is_header(),
    ensures
        conflict_close(lines, at) == Some(end),
    decreases end - at,
{
    if at < end {
        lemma_block_layout(lines, at);
        let from = block_content_start(lines, at);
        let next = block_end(lines, at);
        if from > end {
            assert(lines[end].kind == LineKind::Continuation);
        }
        if next > end {
            assert(!lines[end].kind.is_known());
        }
        if next < end {
            assert(continuation_in_place(lines, next));
            if next > from {
                assert(!lines[next - 1].kind.is_known());
            }
        }
        lemma_blocks_reach_end(lines, start, end, next);
    }
}

/// A well-formed closed conflict is closed by the line that ends it.
pub proof fn lemma_closed_conflict_closes(lines: Seq<LineView>, start: int, end: int)
    requires
        closed_conflict(lines, start, end),
    ensures
        conflict_close(lines, start + 1) == Some(end),
{
    lemma_blocks_reach_end(lines, start, end, start + 1);
}

/// Whether the line `i` opens a conflict.
pub open spec fn opens_conflict(lines: Seq<LineView>, i: int) -> bool {
    lines[i].kind == LineKind::ConflictStart
}

/// Whether `lines` holds exactly the well-formed closed conflicts that
/// begin at `starts` and end at `ends`, one after the other and apart, and no
/// line outside them opens a conflict.
pub open spec fn closed_conflicts(lines: Seq<LineView>, starts: Seq<int>, ends: Seq<int>) -> bool {
    &&& starts.len() == ends.len()
    &&& forall|k: int|
        0 <= k < starts.len() ==> #[trigger] closed_conflict(lines, starts[k], ends[k])
    &&& forall|j: int, k: int|
        0 <= j < k < starts.len() ==> #[trigger] ends[j] < #[trigger] starts[k]
    &&& forall|i: int|
        0 <= i < lines.len() && #[trigger] opens_conflict(lines, i) ==> exists|k: int|
            0 <= k < starts.len() && #[trigger] starts[k] <= i < ends[k]
}

/// The records of the conflicts from the `m`-th on.
pub open spec fn records_from(lines: Seq<LineView>, starts: Seq<int>, ends: Seq<int>, m: int) -> Seq<
    ConflictView,
> {
    Seq::new((starts.len() - m) as nat, |k: int| conflict_at(lines, starts[m + k], ends[m + k]))
}

/// What `closed_conflicts` says of the `k`-th conflict and of the next.
proof fn lemma_kth_conflict(lines: Seq<LineView>, starts: Seq<int>, ends: Seq<int>, k: int)
    requires
        closed_conflicts(lines, starts, ends),
        0 <= k < starts.len(),
    ensures
        closed_conflict(lines, starts[k], ends[k]),
        0 <= starts[k] < ends[k] < lines.len(),
        lines[starts[k]].kind == LineKind::ConflictStart,
        k + 1 < starts.len() ==> ends[k] < starts[k + 1],
{
    assert(closed_conflict(lines, starts[k], ends[k]));
}

/// A line between two conflicts that opens a conflict opens the later one.
proof fn lemma_start_opens_next(
    lines: Seq<LineView>,
    starts: Seq<int>,
    ends: Seq<int>,
    m: int,
    from: int,
)
    requires
        closed_conflicts(lines, starts, ends),
        0 <= m <= starts.len(),
        0 <= from < lines.len(),
        m > 0 ==> ends[m - 1] < from,
        m < starts.len() ==> from <= starts[m],
        lines[from].kind == LineKind::ConflictStart,
    ensures
        m < starts.len(),
        from == starts[m],
{
    assert(opens_conflict(lines, from));
    let k = choose|k: int| 0 <= k < starts.len() && #[trigger] starts[k] <= from < ends[k];
    lemma_kth_conflict(lines, starts, ends, k);
    if k < m {
        lemma_kth_conflict(lines, starts, ends, m - 1);
        if k < m - 1 {
            assert(ends[k] < starts[m - 1]);
        }
        assert(false);
    }
    if k > m {
        lemma_kth_conflict(lines, starts, ends, m);
        assert(ends[m] < starts[k]);
        assert(false);
    }
}

/// The record of the `m`-th conflict stands in front of the records of the
/// later ones.
proof fn lemma_records_from_step(lines: Seq<LineView>, starts: Seq<int>, ends: Seq<int>, m: int)
    requires
        0 <= m < starts.len(),
    ensures
        records_from(lines, starts, ends, m) == seq![conflict_at(lines, starts[m], ends[m])]
            + records_from(lines, starts, ends, m + 1),
{
    let rest = records_from(lines, starts, ends, m + 1);
    let all = records_from(lines, starts, ends, m);
    let found = seq![conflict_at(lines, starts[m], ends[m])] + rest;
    assert(found.len() == all.len());
    assert forall|i: int| 0 <= i < all.len() implies found[i] == all[i] by {
        if i > 0 {
            assert(found[i] == rest[i - 1]);
            assert(m + 1 + (i - 1) == m + i);
        }
    }
    assert(found == all);
}

/// A scan that begins between two conflicts finds the later ones.
proof fn lemma_scan_finds_rest(
    lines: Seq<LineView>,
    starts: Seq<int>,
    ends: Seq<int>,
    m: int,
    from: int,
)
    requires
        closed_conflicts(lines, starts, ends),
        0 <= m <= starts.len(),
        0 <= from,
        m > 0 ==> ends[m - 1] < from,
        m < starts.len() ==> from <= starts[m],
    ensures
        scan(lines, from) == records_from(lines, starts, ends, m),
    decreases lines.len() - from,
{
    if m < starts.len() {
        lemma_kth_conflict(lines, starts, ends, m);
    }
    if from >= lines.len() {
        assert(records_from(lines, starts, ends, m) == Seq::<ConflictView>::empty());
    } else if lines[from].kind == LineKind::ConflictStart {
        lemma_start_opens_next(lines, starts, ends, m, from);
        let end = ends[m];
        lemma_closed_conflict_closes(lines, from, end);
        lemma_scan_finds_rest(lines, starts, ends, m + 1, end + 1);
        lemma_records_from_step(lines, starts, ends, m);
    } else {
        lemma_scan_finds_rest(lines, starts, ends, m, from + 1);
    }
}

/// Lines that hold well-formed closed conflicts, one after the other and
/// apart, give exactly one record for each of them, in the order in which
/// they stand; each record is that of its conflict.
pub proof fn lemma_closed_conflicts_found(lines: Seq<LineView>, starts: Seq<int>, ends: Seq<int>)
    requires
        closed_conflicts(lines, starts, ends),
    ensures
        conflicts_of(lines).len() == starts.len(),
        forall|k: int|
            0 <= k < starts.len() ==> #[trigger] conflicts_of(lines)[k] == conflict_at(
                lines,
                starts[k],
                ends[k],
            ),
{
    if starts.len() > 0 {
        lemma_kth_conflict(lines, starts, ends, 0);
    }
    lemma_scan_finds_rest(lines, starts, ends, 0, 0);
}

/// Every record of a scan is that of a line that opens a conflict and of the
/// line that closes it, and the records after it are those found after that
/// closing line: the records stand in the order of the document and do not
/// overlap. Returns the two lines of the `k`-th record.
pub proof fn lemma_scan_record(lines: Seq<LineView>, from: int, k: int) -> (bounds: (int, int))
    requires
        0 <= from,
        0 <= k < scan(lines, from).len(),
    ensures
        from <= bounds.0 < bounds.1 < lines.len(),
        lines[bounds.0].kind == LineKind::ConflictStart,
        conflict_close(lines, bounds.0 + 1) == Some(bounds.1),
        scan(lines, from)[k] == conflict_at(lines, bounds.0, bounds.1),
        scan(lines, from).skip(k + 1) == scan(lines, bounds.1 + 1),
    decreases lines.len() - from,
{
    if lines[from].kind == LineKind::ConflictStart {
        lemma_conflict_close_in_range(lines, from + 1);
        let close = conflict_close(lines, from + 1)->0;
        let rest = scan(lines, close + 1);
        let all = seq![conflict_at(lines, from, close)] + rest;
        if k == 0 {
            assert(all.skip(1) == rest);
            (from, close)
        } else {
            let bounds = lemma_scan_record(lines, close + 1, k - 1);
            assert(all.skip(k + 1) == rest.skip(k));
            bounds
        }
    } else {
        lemma_scan_record(lines, from + 1, k)
    }
}

/// Every block of a conflict is that of a header, and the blocks after it
/// are those read from the line that ends it: the blocks stand in the order
/// of the document. Returns the header of the `k`-th block.
pub proof fn lemma_block_record(lines: Seq<LineView>, at: int, k: int) -> (header: int)
    requires
        0 <= at,
        0 <= k < blocks_from(lines, at).len(),
    ensures
        at <= header < block_end(lines, header) < lines.len(),
        lines[header].kind.is_header(),
        blocks_from(lines, at)[k] == block_at(lines, header),
        blocks_from(lines, at).skip(k + 1) == blocks_from(lines, block_end(lines, header)),
    decreases lines.len() - at,
{
    lemma_block_end_after_header(lines, at);
    let next = block_end(lines, at);
    let rest = blocks_from(lines, next);
    let all = seq![block_at(lines, at)] + rest;
    if k == 0 {
        assert(all.skip(1) == rest);
        at
    } else {
        let header = lemma_block_record(lines, next, k - 1);
        assert(all.skip(k + 1) == rest.skip(k));
        header
    }
}

/// The test that keeps the lines of a block of changes that were not
/// removed.
pub open spec fn kept() -> spec_fn(Seq<char>) -> bool {
    |line: Seq<char>| !is_removed(line)
}

/// The step that takes the `+` from the front of a line.
pub open spec fn stripped() -> spec_fn(Seq<char>) -> Seq<char> {
    |line: Seq<char>| without_plus(line)
}

/// The pieces of a block of changes are its lines without those that begin
/// with `-`, each without the `+` at its front, in the order of the lines.
pub proof fn lemma_change_pieces_filter_map(texts: Seq<Seq<char>>)
    ensures
        change_pieces(texts) == texts.filter(kept()).map_values(stripped()),
    decreases texts.len(),
{
    reveal(Seq::filter);
    if texts.len() > 0 {
        let before = texts.drop_last();
        let last = texts.last();
        lemma_change_pieces_filter_map(before);
        if kept()(last) {
            assert(before.filter(kept()).push(last).map_values(stripped()) == before.filter(
                kept(),
            ).map_values(stripped()).push(without_plus(last)));
        }
    } else {
        assert(texts.filter(kept()).map_values(stripped()) == Seq::<Seq<char>>::empty());
    }
}

/// The text of a block of changes is its lines without those that begin
/// with `-`, each without the `+` at its front, in the order of the lines and
/// with one line feed between each two.
pub proof fn lemma_change_block_text(lines: Seq<LineView>, header: int)
    ensures
        change_block_at(lines, header).content == joined(
            texts_between(
                lines,
                block_content_start(lines, header),
                block_end(lines, header),
            ).filter(kept()).map_values(stripped()),
        ),
{
    lemma_change_pieces_filter_map(
        texts_between(lines, block_content_start(lines, header), block_end(lines, header)),
    );
}

/// A single line of a block of changes gives its piece, if it has one.
pub proof fn lemma_change_pieces_single(line: Seq<char>)
    ensures
        change_pieces(seq![line]) == match change_piece(line) {
            Some(piece) => seq![piece],
            None => Seq::<Seq<char>>::empty(),
        },
{
    assert(seq![line].drop_last() == Seq::<Seq<char>>::empty());
    assert(change_pieces(Seq::<Seq<char>>::empty()) == Seq::<Seq<char>>::empty());
    match change_piece(line) {
        Some(piece) => {
            assert(Seq::<Seq<char>>::empty().push(piece) == seq![piece]);
        },
        None => {},
    }
}

/// In a block of changes every line gives its piece by itself, whatever
/// stands around it, and the pieces keep the order of the lines.
pub proof fn lemma_change_pieces_concat(front: Seq<Seq<char>>, back: Seq<Seq<char>>)
    ensures
        change_pieces(front + back) == change_pieces(front) + change_pieces(back),
    decreases back.len(),
{
    if back.len() == 0 {
        assert(front + back == front);
        assert(change_pieces(front) + change_pieces(back) == change_pieces(front));
    } else {
        lemma_change_pieces_concat(front, back.drop_last());
        assert((front + back).drop_last() == front + back.drop_last());
        assert((front + back).last() == back.last());
        match change_piece(back.last()) {
            Some(piece) => {
                assert((change_pieces(front) + change_pieces(back.drop_last())).push(piece)
                    == change_pieces(front) + change_pieces(back.drop_last()).push(piece));
            },
            None => {},
        }
    }
}

/// The text of one piece is the piece.
pub proof fn lemma_joined_single(piece: Seq<char>)
    ensures
        joined(seq![piece]) == piece,
{
}

/// The text of pieces in two parts, neither of them empty, is the text of
/// the first part, a line feed and the text of the second: every piece
/// stands in the text, in order, parted from the next by one line feed.
pub proof fn lemma_joined_concat(front: Seq<Seq<char>>, back: Seq<Seq<char>>)
    requires
        front.len() > 0,
        back.len() > 0,
    ensures
        joined(front + back) == joined(front) + seq!['\n'] + joined(back),
    decreases back.len(),
{
    let all = front + back;
    assert(all.drop_last() == front + back.drop_last());
    assert(all.last() == back.last());
    if back.len() == 1 {
        assert(front + back.drop_last() == front);
        assert(joined(back) == back.last());
    } else {
        lemma_joined_concat(front, back.drop_last());
        assert(joined(front) + seq!['\n'] + joined(back.drop_last()) + seq!['\n'] + back.last()
            == joined(front) + seq!['\n'] + (joined(back.drop_last()) + seq!['\n']
            + back.last()));
    }
}

} // verus!



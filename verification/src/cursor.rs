//! A cursor over the classified lines of a document, and the reading of
//! blocks and conflicts at the cursor.

use crate::document::{check_lines_fit, lines_fit, lines_view, Line, LineView};
use crate::layout::{
    block_end, blocks_from, change_block_at, change_piece, change_pieces, conflict_at,
    conflict_close, content_end, contents_block_at, joined, lemma_block_end_after_header,
    lemma_change_pieces_push, lemma_joined_push, skip_continuations, texts_between, with_piece,
};
use crate::pattern::LineKind;
use crate::types::{blocks_view, line_range, ChangeBlock, Conflict, Position, Range};
use crate::utf16::{get_utf16_len, utf16_len};
use vstd::prelude::*;

verus! {

/// A cursor over the lines of one document.
///
/// Before the first step the cursor stands in front of the first line; each
/// step moves it to the next line, and once the lines are used up it stays
/// behind the last one.
pub struct Cursor {
    lines: Vec<Line>,
    started: bool,
    cur_line_number: usize,
}

impl Cursor {
    #[verifier::type_invariant]
    spec fn well_formed(self) -> bool {
        &&& lines_fit(lines_view(self.lines@))
        &&& self.cur_line_number <= self.lines.len()
        &&& !self.started ==> self.cur_line_number == 0
    }

    /// The lines of the document.
    pub closed spec fn lines(&self) -> Seq<LineView> {
        lines_view(self.lines@)
    }

    /// Whether the first step has been made.
    pub closed spec fn started(&self) -> bool {
        self.started
    }

    /// The number of the line at which the cursor stands, counted from 0;
    /// the number of lines once they are used up, and 0 before the first
    /// step.
    pub closed spec fn line_number(&self) -> int {
        self.cur_line_number as int
    }

    /// The index of the current line, if there is one: none before the first
    /// step and none once the lines are used up.
    pub open spec fn current(&self) -> Option<int> {
        if self.started() && 0 <= self.line_number() < self.lines().len() {
            Some(self.line_number())
        } else {
            None
        }
    }

    /// The kind of the current line, if there is one.
    pub open spec fn current_kind(&self) -> Option<LineKind> {
        match self.current() {
            Some(i) => Some(self.lines()[i].kind),
            None => None,
        }
    }

    /// The index of the line that the next step makes the current one; the
    /// number of lines where no line is left.
    pub open spec fn upcoming(&self) -> int {
        if self.current() is Some {
            self.line_number() + 1
        } else {
            self.line_number()
        }
    }

    /// Whether this is the cursor `before` after some steps: the same
    /// document, and the first step made.
    pub open spec fn follows(&self, before: &Cursor) -> bool {
        &&& self.lines() == before.lines()
        &&& self.started()
        &&& 0 <= self.line_number() <= self.lines().len()
    }

    /// Does nothing when it runs. To a verified caller it makes known what
    /// holds of every cursor: every position in its lines can be written
    /// down, and the cursor does not leave the lines.
    pub fn in_bounds(&self)
        ensures
            lines_fit(self.lines()),
            0 <= self.line_number() <= self.lines().len(),
            !self.started() ==> self.line_number() == 0,
    {
        proof {
            use_type_invariant(self);
        }
    }

    /// A cursor in front of the first of `lines`; none where a position in
    /// `lines` cannot be written down.
    pub fn new(lines: Vec<Line>) -> (cursor: Option<Cursor>)
        ensures
            cursor is Some <==> lines_fit(lines_view(lines@)),
            cursor matches Some(c) ==> {
                &&& c.lines() == lines_view(lines@)
                &&& !c.started()
                &&& c.line_number() == 0
            },
    {
        if check_lines_fit(&lines) {
            Some(Cursor { lines, started: false, cur_line_number: 0 })
        } else {
            None
        }
    }

    /// Steps to the next line and returns its kind; stays behind the last
    /// line, and returns nothing, once the lines are used up.
    pub fn next(&mut self) -> (kind: Option<LineKind>)
        ensures
            final(self).follows(old(self)),
            final(self).line_number() == old(self).upcoming(),
            kind == final(self).current_kind(),
    {
        proof {
            use_type_invariant(&*self);
        }
        if self.started && self.cur_line_number < self.lines.len() {
            self.cur_line_number = self.cur_line_number + 1;
        }
        self.started = true;
        if self.cur_line_number < self.lines.len() {
            Some(self.lines[self.cur_line_number].kind)
        } else {
            None
        }
    }

    /// The kind of the current line, if there is one.
    pub fn kind(&self) -> (kind: Option<LineKind>)
        ensures
            kind == self.current_kind(),
    {
        proof {
            use_type_invariant(self);
        }
        if self.started && self.cur_line_number < self.lines.len() {
            Some(self.lines[self.cur_line_number].kind)
        } else {
            None
        }
    }

    /// The range that covers the current line, if there is one.
    pub fn get_range_of_current_line(&self) -> (range: Option<Range>)
        ensures
            range == match self.current() {
                Some(i) => Some(line_range(i, utf16_len(self.lines()[i].text))),
                None => None,
            },
    {
        proof {
            use_type_invariant(self);
        }
        if self.started && self.cur_line_number < self.lines.len() {
            assert(self.lines()[self.cur_line_number as int].text
                == self.lines[self.cur_line_number as int].text@);
            let width = get_utf16_len(self.lines[self.cur_line_number].text.as_str());
            let line = self.cur_line_number as u32;
            Some(Range::new(Position::new(line, 0), Position::new(line, width)))
        } else {
            None
        }
    }

    /// Passes over the continuations that begin at the current line.
    pub fn skip_continuation_lines(&mut self)
        ensures
            final(self).lines() == old(self).lines(),
            final(self).started() == old(self).started(),
            final(self).line_number() == if old(self).started() {
                skip_continuations(old(self).lines(), old(self).line_number())
            } else {
                old(self).line_number()
            },
    {
        proof {
            use_type_invariant(&*self);
        }
        if !self.started {
            return ;
        }
        while self.cur_line_number < self.lines.len() && self.lines[self.cur_line_number].kind
            == LineKind::Continuation
            invariant
                self.lines == old(self).lines,
                self.started,
                self.cur_line_number <= self.lines.len(),
                lines_fit(lines_view(self.lines@)),
                skip_continuations(lines_view(self.lines@), self.cur_line_number as int)
                    == skip_continuations(
                    lines_view(old(self).lines@),
                    old(self).cur_line_number as int,
                ),
            decreases self.lines.len() - self.cur_line_number,
        {
            self.cur_line_number = self.cur_line_number + 1;
        }
    }

    /// Reads the block of changes whose header is the current line, and
    /// leaves the cursor at the line that ends the block. Where the lines are
    /// used up before the block is ended there is no block, and the cursor
    /// stays behind the last line. Without a current line nothing happens.
    pub fn parse_change_block(&mut self) -> (block: Option<ChangeBlock>)
        ensures
            final(self).lines() == old(self).lines(),
            old(self).current() is None ==> {
                &&& block is None
                &&& final(self).started() == old(self).started()
                &&& final(self).line_number() == old(self).line_number()
            },
            old(self).current() matches Some(header) ==> {
                let lines = old(self).lines();
                let end = block_end(lines, header);
                &&& final(self).started()
                &&& end < lines.len() ==> {
                    &&& block matches Some(b) && b@ == change_block_at(lines, header)
                    &&& final(self).line_number() == end
                }
                &&& end >= lines.len() ==> {
                    &&& block is None
                    &&& final(self).line_number() == lines.len()
                }
            },
    {
        let title_range = match self.get_range_of_current_line() {
            Some(range) => range,
            None => {
                return None;
            },
        };
        let ghost header = self.cur_line_number as int;
        self.next();
        self.skip_continuation_lines();
        proof {
            use_type_invariant(&*self);
            lemma_block_end_after_header(self.lines(), header);
        }
        let ghost from = self.cur_line_number as int;
        let mut content = String::new();
        let mut first = true;
        while self.cur_line_number < self.lines.len()
            && !self.lines[self.cur_line_number].kind.is_known_pattern()
            invariant
                self.lines() == old(self).lines(),
                self.started,
                lines_fit(lines_view(self.lines@)),
                from <= self.cur_line_number <= self.lines.len(),
                content_end(lines_view(self.lines@), self.cur_line_number as int) == content_end(
                    lines_view(self.lines@),
                    from,
                ),
                content@ == joined(
                    change_pieces(
                        texts_between(lines_view(self.lines@), from, self.cur_line_number as int),
                    ),
                ),
                first == (change_pieces(
                    texts_between(lines_view(self.lines@), from, self.cur_line_number as int),
                ).len() == 0),
            decreases self.lines.len() - self.cur_line_number,
        {
            let ghost at = self.cur_line_number as int;
            let ghost lv = lines_view(self.lines@);
            let text = self.lines[self.cur_line_number].text.as_str();
            proof {
                let before = texts_between(lv, from, at);
                assert(texts_between(lv, from, at + 1) == before.push(text@));
                lemma_change_pieces_push(before, text@);
                lemma_joined_push(change_pieces(before), text@);
                lemma_joined_push(change_pieces(before), text@.skip(1));
            }
            match piece_of_change(text) {
                Some(piece) => {
                    push_piece(&mut content, piece, first);
                    first = false;
                },
                None => {},
            }
            self.cur_line_number = self.cur_line_number + 1;
        }
        if self.cur_line_number < self.lines.len() {
            Some(ChangeBlock { title_range, content })
        } else {
            None
        }
    }

    /// Reads the block of contents whose header is the current line, and
    /// leaves the cursor at the line that ends the block. Where the lines are
    /// used up before the block is ended there is no block, and the cursor
    /// stays behind the last line. Without a current line nothing happens.
    pub fn parse_contents_block(&mut self) -> (block: Option<ChangeBlock>)
        ensures
            final(self).lines() == old(self).lines(),
            old(self).current() is None ==> {
                &&& block is None
                &&& final(self).started() == old(self).started()
                &&& final(self).line_number() == old(self).line_number()
            },
            old(self).current() matches Some(header) ==> {
                let lines = old(self).lines();
                let end = block_end(lines, header);
                &&& final(self).started()
                &&& end < lines.len() ==> {
                    &&& block matches Some(b) && b@ == contents_block_at(lines, header)
                    &&& final(self).line_number() == end
                }
                &&& end >= lines.len() ==> {
                    &&& block is None
                    &&& final(self).line_number() == lines.len()
                }
            },
    {
        let title_range = match self.get_range_of_current_line() {
            Some(range) => range,
            None => {
                return None;
            },
        };
        let ghost header = self.cur_line_number as int;
        self.next();
        self.skip_continuation_lines();
        proof {
            use_type_invariant(&*self);
            lemma_block_end_after_header(self.lines(), header);
        }
        let ghost from = self.cur_line_number as int;
        let mut content = String::new();
        let mut first = true;
        while self.cur_line_number < self.lines.len()
            && !self.lines[self.cur_line_number].kind.is_known_pattern()
            invariant
                self.lines() == old(self).lines(),
                self.started,
                lines_fit(lines_view(self.lines@)),
                from <= self.cur_line_number <= self.lines.len(),
                content_end(lines_view(self.lines@), self.cur_line_number as int) == content_end(
                    lines_view(self.lines@),
                    from,
                ),
                content@ == joined(
                    texts_between(lines_view(self.lines@), from, self.cur_line_number as int),
                ),
                first == (self.cur_line_number == from),
            decreases self.lines.len() - self.cur_line_number,
        {
            let ghost at = self.cur_line_number as int;
            let ghost lv = lines_view(self.lines@);
            let text = self.lines[self.cur_line_number].text.as_str();
            proof {
                let before = texts_between(lv, from, at);
                assert(texts_between(lv, from, at + 1) == before.push(text@));
                lemma_joined_push(before, text@);
            }
            push_piece(&mut content, text, first);
            first = false;
            self.cur_line_number = self.cur_line_number + 1;
        }
        if self.cur_line_number < self.lines.len() {
            Some(ChangeBlock { title_range, content })
        } else {
            None
        }
    }

    /// Reads the conflict that the current line opens. Its blocks are read
    /// one after the other; the first line that heads no block closes the
    /// conflict, whatever that line is, and the cursor stays there. Where the
    /// lines are used up first there is no conflict, and the cursor stays
    /// behind the last line.
    pub fn parse_diff_marker(&mut self) -> (conflict: Option<Conflict>)
        requires
            old(self).current() is Some,
        ensures
            final(self).follows(old(self)),
            match conflict_close(old(self).lines(), old(self).line_number() + 1) {
                Some(close) => {
                    &&& final(self).line_number() == close
                    &&& conflict matches Some(c) && c@ == conflict_at(
                        old(self).lines(),
                        old(self).line_number(),
                        close,
                    )
                },
                None => {
                    &&& final(self).line_number() == old(self).lines().len()
                    &&& conflict is None
                },
            },
    {
        let title_range = match self.get_range_of_current_line() {
            Some(range) => range,
            None => {
                return None;
            },
        };
        let ghost start = self.line_number();
        let ghost lv = self.lines();
        self.next();
        let mut blocks: Vec<ChangeBlock> = Vec::new();
        proof {
            assert(blocks_view(blocks@) + blocks_from(lv, start + 1) == blocks_from(lv, start + 1));
        }
        loop
            invariant
                lv == old(self).lines(),
                start == old(self).line_number(),
                self.lines() == lv,
                self.started(),
                start < self.line_number() <= lv.len(),
                conflict_close(lv, self.line_number()) == conflict_close(lv, start + 1),
                blocks_from(lv, start + 1) == blocks_view(blocks@) + blocks_from(
                    lv,
                    self.line_number(),
                ),
            ensures
                self.current() matches Some(close) ==> !lv[close].kind.is_header(),
            decreases lv.len() - self.line_number(),
        {
            let ghost at = self.line_number();
            proof {
                lemma_block_end_after_header(lv, at);
            }
            let block = match self.kind() {
                Some(LineKind::ChangeHeader) => self.parse_change_block(),
                Some(LineKind::ContentsHeader) => self.parse_contents_block(),
                _ => {
                    break ;
                },
            };
            match block {
                Some(block) => {
                    proof {
                        let rest = blocks_from(lv, self.line_number());
                        assert(blocks_view(blocks@.push(block)) == blocks_view(blocks@).push(
                            block@,
                        ));
                        assert(blocks_view(blocks@).push(block@) + rest == blocks_view(blocks@) + (
                        seq![block@] + rest));
                    }
                    blocks.push(block);
                },
                None => {
                    return None;
                },
            }
        }
        match self.get_range_of_current_line() {
            Some(closing) => {
                let ghost close = self.line_number();
                let conflict = Conflict {
                    range: Range::new(title_range.start, closing.end),
                    title_range,
                    blocks,
                };
                proof {
                    assert(blocks_view(blocks@) + blocks_from(lv, close) == blocks_view(blocks@));
                    assert(conflict@ == conflict_at(lv, start, close));
                }
                Some(conflict)
            },
            None => None,
        }
    }
}

/// What the line `line` of a block of changes gives to the block's text:
/// nothing where it begins with `-`, the rest of the line where it begins
/// with `+`, and otherwise the line as it is.
pub fn piece_of_change(line: &str) -> (piece: Option<&str>)
    ensures
        piece is Some == change_piece(line@) is Some,
        piece matches Some(text) ==> change_piece(line@) == Some(text@),
{
    if line.is_empty() {
        return Some(line);
    }
    let first = line.get_char(0);
    if first == '-' {
        None
    } else if first == '+' {
        let len = line.unicode_len();
        assert(line@.subrange(1, len as int) == line@.skip(1));
        Some(line.substring_char(1, len))
    } else {
        Some(line)
    }
}

/// Adds `piece` to `content` as a further line: after a line feed, unless
/// it is the first line.
pub fn push_piece(content: &mut String, piece: &str, first: bool)
    ensures
        final(content)@ == with_piece(old(content)@, piece@, first),
{
    if !first {
        content.push('\n');
    }
    content.append(piece);
    assert(old(content)@.push('\n') + piece@ == old(content)@ + seq!['\n'] + piece@);
}

} // verus!

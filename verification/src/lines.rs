//! Cutting a document into lines.
//!
//! A line ends at a line feed, or at a carriage return directly followed by
//! a line feed; neither belongs to the line. The last line needs no ending,
//! and a document that ends with one has no empty line after it.

use crate::utf16::{lemma_utf16_len_bounds, lemma_utf16_len_subrange, utf16_len};
use vstd::prelude::*;

verus! {

/// `String::push` appends one character. Assumed: the string afterwards is
/// the string before followed by that character.
pub assume_specification[ String::push ](text: &mut String, ch: char)
    ensures
        final(text)@ == old(text)@.push(ch),
;

/// The index of the first line feed in `text`, or the length of `text` where
/// it holds none.
pub open spec fn first_newline(text: Seq<char>) -> nat
    decreases text.len(),
{
    if text.len() == 0 || text[0] == '\n' {
        0
    } else {
        1 + first_newline(text.drop_first())
    }
}

/// `line` without the carriage return at its end, if it has one.
pub open spec fn strip_cr(line: Seq<char>) -> Seq<char> {
    if line.len() > 0 && line.last() == '\r' {
        line.drop_last()
    } else {
        line
    }
}

/// The lines of `text`, in order.
pub open spec fn lines_of(text: Seq<char>) -> Seq<Seq<char>>
    decreases text.len(),
{
    if text.len() == 0 {
        Seq::empty()
    } else {
        let n = first_newline(text) as int;
        if n >= text.len() {
            seq![text]
        } else {
            seq![strip_cr(text.take(n))] + lines_of(text.skip(n + 1))
        }
    }
}

/// What the strings of a sequence hold, in the same order.
pub open spec fn texts_of(strings: Seq<String>) -> Seq<Seq<char>> {
    Seq::new(strings.len(), |i: int| strings[i]@)
}

/// `first_newline` is at most the length of the text, no line feed stands
/// before it, and one stands at it unless it is the length.
pub proof fn lemma_first_newline_is_first(text: Seq<char>)
    ensures
        first_newline(text) <= text.len(),
        forall|i: int| 0 <= i < first_newline(text) ==> text[i] != '\n',
        first_newline(text) < text.len() ==> text[first_newline(text) as int] == '\n',
    decreases text.len(),
{
    if text.len() == 0 || text[0] == '\n' {
    } else {
        let rest = text.drop_first();
        lemma_first_newline_is_first(rest);
        assert forall|i: int| 0 <= i < first_newline(text) implies text[i] != '\n' by {
            if i > 0 {
                assert(text[i] == rest[i - 1]);
            }
        }
        assert(first_newline(text) < text.len() ==> text[first_newline(text) as int]
            == rest[first_newline(rest) as int]);
    }
}

/// An index with no line feed before it, and with a line feed at it unless it
/// is the length of the text, is `first_newline`.
pub proof fn lemma_first_newline_at(text: Seq<char>, n: int)
    requires
        0 <= n <= text.len(),
        forall|i: int| 0 <= i < n ==> text[i] != '\n',
        n < text.len() ==> text[n] == '\n',
    ensures
        first_newline(text) == n,
    decreases n,
{
    if n > 0 {
        let rest = text.drop_first();
        assert(text[0] != '\n');
        assert forall|i: int| 0 <= i < n - 1 implies rest[i] != '\n' by {
            assert(rest[i] == text[i + 1]);
        }
        lemma_first_newline_at(rest, n - 1);
    }
}

/// No line of a text holds a line feed.
pub proof fn lemma_lines_hold_no_newline(text: Seq<char>, k: int)
    requires
        0 <= k < lines_of(text).len(),
    ensures
        forall|i: int| 0 <= i < lines_of(text)[k].len() ==> lines_of(text)[k][i] != '\n',
    decreases text.len(),
{
    lemma_first_newline_is_first(text);
    let n = first_newline(text) as int;
    if text.len() > 0 && n < text.len() && k > 0 {
        lemma_lines_hold_no_newline(text.skip(n + 1), k - 1);
    }
}

/// A text has no more lines than characters, and none of its lines is
/// longer, in UTF-16 code units, than the text.
pub proof fn lemma_lines_fit(text: Seq<char>)
    ensures
        lines_of(text).len() <= text.len() <= utf16_len(text),
        forall|k: int|
            0 <= k < lines_of(text).len() ==> utf16_len(#[trigger] lines_of(text)[k]) <= utf16_len(
                text,
            ),
    decreases text.len(),
{
    lemma_utf16_len_bounds(text);
    lemma_first_newline_is_first(text);
    let n = first_newline(text) as int;
    if text.len() > 0 && n < text.len() {
        let rest = text.skip(n + 1);
        let head = text.take(n);
        lemma_lines_fit(rest);
        lemma_utf16_len_subrange(text, n + 1, text.len() as int);
        lemma_utf16_len_subrange(text, 0, n);
        if head.len() > 0 {
            lemma_utf16_len_subrange(head, 0, head.len() - 1);
        }
        assert forall|k: int| 0 <= k < lines_of(text).len() implies utf16_len(
            #[trigger] lines_of(text)[k],
        ) <= utf16_len(text) by {
            if k > 0 {
                assert(lines_of(text)[k] == lines_of(rest)[k - 1]);
            }
        }
    }
}

/// Cuts `text` into its lines.
pub fn split_lines(text: &str) -> (lines: Vec<String>)
    ensures
        texts_of(lines@) == lines_of(text@),
{
    let mut lines: Vec<String> = Vec::new();
    let mut line = String::new();
    // A carriage return that has been read and not yet put into `line`: it
    // belongs to the line unless a line feed follows it.
    let mut held_cr = false;
    let ghost mut start: int = 0;
    proof {
        assert(text@.skip(0) == text@);
        assert(texts_of(lines@) + lines_of(text@) == lines_of(text@));
    }
    let mut it = text.chars();
    for c in iter: it
        invariant
            iter.seq() == text@,
            0 <= start <= iter.index(),
            forall|i: int| start <= i < iter.index() ==> text@[i] != '\n',
            lines_of(text@) == texts_of(lines@) + lines_of(text@.skip(start)),
            text@.subrange(start, iter.index() as int) == line@ + (if held_cr {
                seq!['\r']
            } else {
                Seq::empty()
            }),
            held_cr == (iter.index() > start && text@[iter.index() - 1] == '\r'),
    {
        let ghost k = iter.index();
        let ghost piece = text@.subrange(start, k);
        assert(text@.subrange(start, k + 1) == piece.push(c));
        if c == '\n' {
            proof {
                let rest = text@.skip(start);
                assert forall|i: int| 0 <= i < k - start implies rest[i] != '\n' by {
                    assert(rest[i] == text@[start + i]);
                }
                lemma_first_newline_at(rest, k - start);
                assert(rest.take(k - start) == piece);
                assert(rest.skip(k - start + 1) == text@.skip(k + 1));
                assert(strip_cr(piece) == line@) by {
                    if held_cr {
                        assert(piece.drop_last() == line@);
                    } else {
                        assert(piece == line@);
                    }
                }
                assert(texts_of(lines@.push(line)) == texts_of(lines@) + seq![line@]);
                start = k + 1;
            }
            lines.push(line);
            line = String::new();
            held_cr = false;
            assert(text@.subrange(start, k + 1) == Seq::<char>::empty());
        } else {
            if held_cr {
                line.push('\r');
            }
            if c == '\r' {
                held_cr = true;
            } else {
                line.push(c);
                held_cr = false;
            }
        }
    }
    let ghost rest = text@.skip(start);
    proof {
        assert(rest == text@.subrange(start, text@.len() as int));
        if rest.len() > 0 {
            assert forall|i: int| 0 <= i < rest.len() implies rest[i] != '\n' by {
                assert(rest[i] == text@[start + i]);
            }
            lemma_first_newline_at(rest, rest.len() as int);
            assert(lines_of(rest) == seq![rest]);
        } else {
            assert(lines_of(rest) == Seq::<Seq<char>>::empty());
        }
    }
    if held_cr {
        line.push('\r');
    }
    assert(line@ == rest);
    if !line.as_str().is_empty() {
        proof {
            assert(texts_of(lines@.push(line)) == texts_of(lines@) + seq![line@]);
        }
        lines.push(line);
    } else {
        assert(texts_of(lines@) + Seq::<Seq<char>>::empty() == texts_of(lines@));
    }
    lines
}

} // verus!

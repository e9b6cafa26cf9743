//! A document as a sequence of classified lines.

use crate::lines::{lemma_lines_fit, lines_of, split_lines, texts_of};
use crate::pattern::{line_kind, Classifier, LineKind};
use crate::utf16::{checked_utf16_len, utf16_len};
use vstd::prelude::*;

verus! {

/// One line of a document, without its line ending, and what the line is.
#[derive(Clone, Debug, PartialEq, Eq)]
pub struct Line {
    pub kind: LineKind,
    pub text: String,
}

/// A `Line` as a mathematical value.
pub struct LineView {
    pub kind: LineKind,
    pub text: Seq<char>,
}

impl View for Line {
    type V = LineView;

    open spec fn view(&self) -> LineView {
        LineView { kind: self.kind, text: self.text@ }
    }
}

/// The views of a sequence of lines, in the same order.
pub open spec fn lines_view(lines: Seq<Line>) -> Seq<LineView> {
    Seq::new(lines.len(), |i: int| lines[i]@)
}

/// Each text with its kind, in the same order.
pub open spec fn classified(texts: Seq<Seq<char>>) -> Seq<LineView> {
    Seq::new(texts.len(), |i: int| LineView { kind: line_kind(texts[i]), text: texts[i] })
}

/// The classified lines of the document `text`.
pub open spec fn document_lines(text: Seq<char>) -> Seq<LineView> {
    classified(lines_of(text))
}

/// Whether every position in `lines` can be written down: the number of
/// lines and the length of each line in UTF-16 code units fit in a `u32`.
pub open spec fn lines_fit(lines: Seq<LineView>) -> bool {
    &&& lines.len() <= u32::MAX
    &&& forall|i: int| 0 <= i < lines.len() ==> utf16_len(#[trigger] lines[i].text) <= u32::MAX
}

/// Whether the texts, taken as the lines of a document, leave every position
/// such that it can be written down.
pub open spec fn texts_fit(texts: Seq<Seq<char>>) -> bool {
    &&& texts.len() <= u32::MAX
    &&& forall|i: int| 0 <= i < texts.len() ==> utf16_len(#[trigger] texts[i]) <= u32::MAX
}

/// Lines fit exactly when their texts do, whatever their kinds.
pub proof fn lemma_classified_fit(texts: Seq<Seq<char>>)
    ensures
        lines_fit(classified(texts)) == texts_fit(texts),
{
    let lines = classified(texts);
    if texts_fit(texts) {
        assert forall|i: int| 0 <= i < lines.len() implies utf16_len(#[trigger] lines[i].text)
            <= u32::MAX by {
            assert(lines[i].text == texts[i]);
        }
    }
    if lines_fit(lines) {
        assert forall|i: int| 0 <= i < texts.len() implies utf16_len(#[trigger] texts[i])
            <= u32::MAX by {
            assert(lines[i].text == texts[i]);
        }
    }
}

/// Every position in a document of at most `u32::MAX` UTF-16 code units can
/// be written down.
pub proof fn lemma_document_fits(text: Seq<char>)
    ensures
        utf16_len(text) <= u32::MAX ==> lines_fit(document_lines(text)),
{
    lemma_lines_fit(text);
    lemma_classified_fit(lines_of(text));
}

/// Whether the texts, taken as the lines of a document, leave every position
/// such that it can be written down.
pub fn check_texts_fit(texts: &Vec<String>) -> (fit: bool)
    ensures
        fit == texts_fit(texts_of(texts@)),
        fit == lines_fit(classified(texts_of(texts@))),
{
    proof {
        lemma_classified_fit(texts_of(texts@));
    }
    if texts.len() > u32::MAX as usize {
        return false;
    }
    let mut i: usize = 0;
    while i < texts.len()
        invariant
            i <= texts.len() <= u32::MAX,
            lines_fit(classified(texts_of(texts@))) == texts_fit(texts_of(texts@)),
            forall|j: int| 0 <= j < i ==> utf16_len(#[trigger] texts_of(texts@)[j]) <= u32::MAX,
        decreases texts.len() - i,
    {
        assert(texts_of(texts@)[i as int] == texts[i as int]@);
        if checked_utf16_len(texts[i].as_str()).is_none() {
            return false;
        }
        i = i + 1;
    }
    true
}

/// Whether every position in `lines` can be written down.
pub fn check_lines_fit(lines: &Vec<Line>) -> (fit: bool)
    ensures
        fit == lines_fit(lines_view(lines@)),
{
    if lines.len() > u32::MAX as usize {
        return false;
    }
    let mut i: usize = 0;
    while i < lines.len()
        invariant
            i <= lines.len(),
            forall|j: int| 0 <= j < i ==> utf16_len(#[trigger] lines_view(lines@)[j].text) <= u32::MAX,
        decreases lines.len() - i,
    {
        if checked_utf16_len(lines[i].text.as_str()).is_none() {
            assert(lines_view(lines@)[i as int].text == lines[i as int].text@);
            return false;
        }
        assert(lines_view(lines@)[i as int].text == lines[i as int].text@);
        i = i + 1;
    }
    true
}

impl Classifier {
    /// Gives each text its kind.
    pub fn classify_lines(&self, texts: Vec<String>) -> (lines: Vec<Line>)
        ensures
            lines_view(lines@) == classified(texts_of(texts@)),
    {
        let mut lines: Vec<Line> = Vec::new();
        for text in iter: texts
            invariant
                iter.seq() == texts@,
                lines_view(lines@) == classified(texts_of(texts@.take(iter.index() as int))),
        {
            let ghost k = iter.index() as int;
            let kind = self.classify(text.as_str());
            let line = Line { kind, text };
            proof {
                let before = classified(texts_of(texts@.take(k)));
                let after = classified(texts_of(texts@.take(k + 1)));
                assert(lines_view(lines@).len() == before.len());
                assert(lines@.len() == k);
                assert(texts@[k] == text);
                assert forall|i: int| 0 <= i < k + 1 implies lines_view(lines@.push(line))[i]
                    == after[i] by {
                    if i < k {
                        assert(lines_view(lines@)[i] == before[i]);
                        assert(texts_of(texts@.take(k))[i] == texts_of(texts@.take(k + 1))[i]);
                    } else {
                        assert(texts_of(texts@.take(k + 1))[i] == text@);
                    }
                }
                assert(lines_view(lines@.push(line)) =~= after);
            }
            lines.push(line);
        }
        proof {
            assert(texts@.take(texts@.len() as int) == texts@);
        }
        lines
    }

    /// Cuts the document `text` into lines and gives each its kind.
    pub fn read_lines(&self, text: &str) -> (lines: Vec<Line>)
        ensures
            lines_view(lines@) == document_lines(text@),
    {
        self.classify_lines(split_lines(text))
    }
}

} // verus!

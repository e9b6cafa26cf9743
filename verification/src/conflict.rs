//! The scanner: it walks through a document and gathers the conflicts that
//! it passes.

use crate::cursor::Cursor;
use crate::document::{
    check_texts_fit, document_lines, lemma_document_fits, lines_fit, lines_view, Line, LineView,
};
use crate::layout::{conflicts_of, lemma_conflict_close_in_range, scan};
use crate::lines::split_lines;
use crate::pattern::{
    first_uncompiled, patterns_compile, Classifier, LineKind, PatternError,
};
use crate::types::{conflicts_view, Conflict, ConflictView};
use crate::utf16::utf16_len;
use vstd::prelude::*;

verus! {

/// Why no scanner was made for a document.
#[derive(Clone, Copy, Debug, PartialEq, Eq, Structural)]
pub enum AnalyzerError {
    /// The document has more lines, or a line with more UTF-16 code units,
    /// than a position can hold.
    TooLong,
    /// One of the patterns for marker lines was not compiled.
    Pattern(PatternError),
}

/// A scanner over one document: a cursor over its lines and the conflicts
/// found so far.
pub struct Analyzer {
    conflicts: Vec<Conflict>,
    cursor: Cursor,
}

impl Analyzer {
    /// The cursor.
    pub closed spec fn cursor(&self) -> Cursor {
        self.cursor
    }

    /// The conflicts found so far, in the order in which they were found.
    pub closed spec fn found(&self) -> Seq<ConflictView> {
        conflicts_view(self.conflicts@)
    }

    /// The lines of the document.
    pub open spec fn lines(&self) -> Seq<LineView> {
        self.cursor().lines()
    }

    /// Whether nothing has been read yet: the cursor stands in front of the
    /// first line and no conflict is recorded.
    pub open spec fn fresh(&self) -> bool {
        &&& !self.cursor().started()
        &&& self.cursor().line_number() == 0
        &&& self.found() == Seq::<ConflictView>::empty()
    }

    /// Does nothing when it runs. To a verified caller it makes known what
    /// holds of every scanner: every position in its lines can be written
    /// down, and its cursor does not leave the lines.
    pub fn in_bounds(&self)
        ensures
            lines_fit(self.lines()),
            0 <= self.cursor().line_number() <= self.lines().len(),
            !self.cursor().started() ==> self.cursor().line_number() == 0,
    {
        self.cursor.in_bounds();
    }

    /// A scanner in front of the first of `lines`; none where a position in
    /// `lines` cannot be written down.
    pub fn from_lines(lines: Vec<Line>) -> (analyzer: Option<Analyzer>)
        ensures
            analyzer is Some <==> lines_fit(lines_view(lines@)),
            analyzer matches Some(a) ==> a.lines() == lines_view(lines@) && a.fresh(),
    {
        match Cursor::new(lines) {
            Some(cursor) => {
                let analyzer = Analyzer { conflicts: Vec::new(), cursor };
                assert(analyzer.found() == Seq::<ConflictView>::empty());
                Some(analyzer)
            },
            None => None,
        }
    }

    /// A scanner in front of the first line of the document `content`, its
    /// lines classified by `classifier`; none where a position in the
    /// document cannot be written down. A document of at most `u32::MAX`
    /// UTF-16 code units is never turned down.
    pub fn with_classifier(content: &str, classifier: &Classifier) -> (analyzer: Option<Analyzer>)
        ensures
            analyzer is Some <==> lines_fit(document_lines(content@)),
            analyzer matches Some(a) ==> a.lines() == document_lines(content@) && a.fresh(),
            utf16_len(content@) <= u32::MAX ==> analyzer is Some,
    {
        proof {
            lemma_document_fits(content@);
        }
        Analyzer::from_lines(classifier.read_lines(content))
    }

    /// A scanner in front of the first line of the document `content`.
    ///
    /// A document with a position that cannot be written down is turned
    /// down as too long, and no other. For any other document there is a
    /// scanner exactly when the five patterns compile; otherwise the error
    /// names the first that does not.
    pub fn new(content: &str) -> (analyzer: Result<Analyzer, AnalyzerError>)
        ensures
            analyzer is Ok <==> lines_fit(document_lines(content@)) && patterns_compile(),
            analyzer matches Ok(a) ==> a.lines() == document_lines(content@) && a.fresh(),
            analyzer matches Err(AnalyzerError::TooLong) <==> !lines_fit(document_lines(content@)),
            analyzer matches Err(AnalyzerError::Pattern(error)) ==> first_uncompiled() == Some(
                error.kind,
            ),
    {
        let texts = split_lines(content);
        if !check_texts_fit(&texts) {
            return Err(AnalyzerError::TooLong);
        }
        let classifier = match Classifier::new() {
            Ok(classifier) => classifier,
            Err(error) => {
                return Err(AnalyzerError::Pattern(error));
            },
        };
        match Analyzer::from_lines(classifier.classify_lines(texts)) {
            Some(analyzer) => Ok(analyzer),
            None => Err(AnalyzerError::TooLong),
        }
    }

    /// Reads on to the end of the document, records every conflict on the
    /// way, and returns all the conflicts found so far. For a scanner that
    /// has read nothing yet these are the conflicts of the document.
    pub fn find_conflicts(&mut self) -> (conflicts: &[Conflict])
        ensures
            final(self).cursor().follows(&old(self).cursor()),
            final(self).cursor().line_number() == old(self).lines().len(),
            final(self).found() == old(self).found() + scan(
                old(self).lines(),
                old(self).cursor().upcoming(),
            ),
            conflicts_view(conflicts@) == final(self).found(),
            old(self).fresh() ==> conflicts_view(conflicts@) == conflicts_of(old(self).lines()),
    {
        let ghost lv = self.lines();
        let ghost all = self.found() + scan(lv, self.cursor.upcoming());
        proof {
            if self.fresh() {
                assert(all == conflicts_of(lv));
            }
        }
        loop
            invariant_except_break
                self.lines() == lv,
                all == self.found() + scan(lv, self.cursor.upcoming()),
            ensures
                self.lines() == lv,
                self.cursor.started(),
                self.cursor.line_number() == lv.len(),
                self.found() == all,
            decreases lv.len() - self.cursor.upcoming(),
        {
            let ghost at = self.cursor.upcoming();
            let ghost before = self.found();
            match self.cursor.next() {
                None => {
                    proof {
                        assert(before + scan(lv, at) == before);
                    }
                    break ;
                },
                Some(LineKind::ConflictStart) => {
                    proof {
                        lemma_conflict_close_in_range(lv, at + 1);
                    }
                    match self.cursor.parse_diff_marker() {
                        Some(conflict) => {
                            proof {
                                let rest = scan(lv, self.cursor.upcoming());
                                assert(conflicts_view(self.conflicts@.push(conflict))
                                    == before.push(conflict@));
                                assert(before.push(conflict@) + rest == before + (seq![conflict@]
                                    + rest));
                            }
                            self.conflicts.push(conflict);
                        },
                        None => {
                            proof {
                                assert(before + scan(lv, at) == before);
                            }
                        },
                    }
                },
                Some(_) => {},
            }
        }
        self.conflicts.as_slice()
    }
}

} // verus!

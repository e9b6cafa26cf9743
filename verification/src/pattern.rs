//! The five kinds of marker line and the regular expressions that recognise
//! them.
//!
//! Compiling and matching are done by the `regex` crate. Nothing in this
//! module is proved about which patterns compile or what a regular
//! expression matches: the contracts speak of `regex_compiles` and
//! `regex_matches`, which stand for the crate's own answers.

use regex::Regex;
use vstd::prelude::*;

verus! {

/// `regex::Regex`, a compiled regular expression. Its inside is not visible
/// to the verifier.
#[verifier::external_type_specification]
#[verifier::external_body]
pub struct ExRegex(regex::Regex);

/// `regex::Error`, the reason why a pattern was not compiled. Its inside is
/// not visible to the verifier.
#[verifier::external_type_specification]
#[verifier::external_body]
pub struct ExRegexError(regex::Error);

/// A pattern text that says what `re` matches. For a regular expression that
/// `Regex::new` returned it is the text that `Regex::new` was given. It is
/// not what `Regex::as_str` returns: a regular expression built with other
/// flags keeps its text and matches otherwise. This library makes regular
/// expressions by `Regex::new` only.
pub uninterp spec fn regex_pattern(re: Regex) -> Seq<char>;

/// Whether `Regex::new` compiles `pattern`: whether the text is a valid
/// pattern and the compiled form stays under the size that `Regex::new`
/// allows.
pub uninterp spec fn regex_compiles(pattern: Seq<char>) -> bool;

/// Whether a regular expression compiled from `pattern` by `Regex::new`
/// finds a match anywhere in `haystack`: what `Regex::is_match` returns for
/// it.
pub uninterp spec fn regex_matches(pattern: Seq<char>, haystack: Seq<char>) -> bool;

/// `Regex::new` compiles a pattern. Assumed: whether it succeeds depends on
/// the text alone, and a regular expression that it returns matches as the
/// text it was given says. Nothing is assumed about which texts compile.
pub assume_specification[ Regex::new ](re: &str) -> (compiled: Result<Regex, regex::Error>)
    ensures
        compiled is Ok <==> regex_compiles(re@),
        compiled matches Ok(regex) ==> regex_pattern(regex) == re@,
;

/// `Regex::is_match` says whether the regular expression finds a match
/// anywhere in the haystack. Assumed: its answer depends only on the pattern
/// that the regular expression stands for and on the haystack.
pub assume_specification[ Regex::is_match ](re: &Regex, haystack: &str) -> (found: bool)
    ensures
        found == regex_matches(regex_pattern(*re), haystack@),
;

/// Opens a conflict: seven or more `<`, the word "conflict" in either
/// capitalisation, and "N of M".
pub const CONFLICT_START_PATTERN: &'static str = "^<{7,} [Cc]onflict \\d+ of \\d+$";

/// Closes a conflict: seven or more `>`, "conflict N of M" and "ends".
pub const CONFLICT_END_PATTERN: &'static str = "^>{7,} [Cc]onflict \\d+ of \\d+ ends$";

/// Heads a block of changes between two revisions: seven or more `%` and a
/// title.
pub const CHANGE_HEADER_PATTERN: &'static str = "^%{7,} .+$";

/// Heads a block with the contents of one side: seven or more `+` and a
/// title.
pub const CONTENTS_HEADER_PATTERN: &'static str = "^\\+{7,} .+$";

/// Continues a header: seven or more `\` followed by white space.
pub const CONTINUATION_PATTERN: &'static str = "^\\\\{7,}\\s";

/// What a line of a document is.
#[derive(Clone, Copy, Debug, PartialEq, Eq, Structural, Hash)]
pub enum LineKind {
    /// The line that opens a conflict.
    ConflictStart,
    /// The line that closes a conflict.
    ConflictEnd,
    /// The header of a block of changes between two revisions.
    ChangeHeader,
    /// The header of a block with the contents of one side.
    ContentsHeader,
    /// An annotation that follows a header and is discarded.
    Continuation,
    /// Any other line.
    Plain,
}

/// Whether `line` opens a conflict.
pub open spec fn is_conflict_start(line: Seq<char>) -> bool {
    regex_matches(CONFLICT_START_PATTERN@, line)
}

/// Whether `line` closes a conflict.
pub open spec fn is_conflict_end(line: Seq<char>) -> bool {
    regex_matches(CONFLICT_END_PATTERN@, line)
}

/// Whether `line` heads a block of changes.
pub open spec fn is_change_header(line: Seq<char>) -> bool {
    regex_matches(CHANGE_HEADER_PATTERN@, line)
}

/// Whether `line` heads a block of contents.
pub open spec fn is_contents_header(line: Seq<char>) -> bool {
    regex_matches(CONTENTS_HEADER_PATTERN@, line)
}

/// Whether `line` continues a header.
pub open spec fn is_continuation(line: Seq<char>) -> bool {
    regex_matches(CONTINUATION_PATTERN@, line)
}

/// Whether `line` is one of the lines at which the text of a block ends: a
/// header of either kind, the end of a conflict, or a continuation.
pub open spec fn is_known_line(line: Seq<char>) -> bool {
    is_change_header(line) || is_contents_header(line) || is_conflict_end(line)
        || is_continuation(line)
}

/// The kind of `line`: that of the first pattern that matches it, the
/// patterns taken in the order in which the scanner asks for them, and
/// `Plain` where none matches.
pub open spec fn line_kind(line: Seq<char>) -> LineKind {
    if is_change_header(line) {
        LineKind::ChangeHeader
    } else if is_contents_header(line) {
        LineKind::ContentsHeader
    } else if is_conflict_end(line) {
        LineKind::ConflictEnd
    } else if is_continuation(line) {
        LineKind::Continuation
    } else if is_conflict_start(line) {
        LineKind::ConflictStart
    } else {
        LineKind::Plain
    }
}

impl LineKind {
    /// Whether a line of this kind heads a block.
    pub open spec fn is_header(self) -> bool {
        self == LineKind::ChangeHeader || self == LineKind::ContentsHeader
    }

    /// Whether a line of this kind ends the text of a block.
    pub open spec fn is_known(self) -> bool {
        self == LineKind::ChangeHeader || self == LineKind::ContentsHeader || self
            == LineKind::ConflictEnd || self == LineKind::Continuation
    }

    /// Whether a line of this kind ends the text of a block.
    pub fn is_known_pattern(self) -> (known: bool)
        ensures
            known == self.is_known(),
    {
        match self {
            LineKind::ChangeHeader => true,
            LineKind::ContentsHeader => true,
            LineKind::ConflictEnd => true,
            LineKind::Continuation => true,
            LineKind::ConflictStart => false,
            LineKind::Plain => false,
        }
    }
}

/// A line ends the text of a block exactly when its kind says so.
pub proof fn lemma_known_line_kind(line: Seq<char>)
    ensures
        line_kind(line).is_known() == is_known_line(line),
        line_kind(line) == LineKind::ChangeHeader <==> is_change_header(line),
        line_kind(line) == LineKind::Plain <==> !is_known_line(line) && !is_conflict_start(line),
{
}

/// The kind of the first pattern that `Regex::new` does not compile, the
/// patterns taken in the order in which `LineKind` lists their kinds; none
/// where all five compile.
pub open spec fn first_uncompiled() -> Option<LineKind> {
    if !regex_compiles(CONFLICT_START_PATTERN@) {
        Some(LineKind::ConflictStart)
    } else if !regex_compiles(CONFLICT_END_PATTERN@) {
        Some(LineKind::ConflictEnd)
    } else if !regex_compiles(CHANGE_HEADER_PATTERN@) {
        Some(LineKind::ChangeHeader)
    } else if !regex_compiles(CONTENTS_HEADER_PATTERN@) {
        Some(LineKind::ContentsHeader)
    } else if !regex_compiles(CONTINUATION_PATTERN@) {
        Some(LineKind::Continuation)
    } else {
        None
    }
}

/// Whether `Regex::new` compiles all five patterns.
pub open spec fn patterns_compile() -> bool {
    first_uncompiled() is None
}

/// The pattern whose compilation failed, named by the kind of line that it
/// recognises.
#[derive(Clone, Copy, Debug, PartialEq, Eq, Structural)]
pub struct PatternError {
    pub kind: LineKind,
}

/// The five compiled patterns.
pub struct Classifier {
    conflict_start: Regex,
    conflict_end: Regex,
    change_header: Regex,
    contents_header: Regex,
    continuation: Regex,
}

impl Classifier {
    #[verifier::type_invariant]
    spec fn well_formed(self) -> bool {
        &&& regex_pattern(self.conflict_start) == CONFLICT_START_PATTERN@
        &&& regex_pattern(self.conflict_end) == CONFLICT_END_PATTERN@
        &&& regex_pattern(self.change_header) == CHANGE_HEADER_PATTERN@
        &&& regex_pattern(self.contents_header) == CONTENTS_HEADER_PATTERN@
        &&& regex_pattern(self.continuation) == CONTINUATION_PATTERN@
    }

    /// Compiles the five patterns. There is a classifier exactly when all
    /// five compile; otherwise the error names the first that does not.
    pub fn new() -> (classifier: Result<Classifier, PatternError>)
        ensures
            classifier is Ok <==> patterns_compile(),
            classifier matches Err(error) ==> first_uncompiled() == Some(error.kind),
    {
        let conflict_start = match Regex::new(CONFLICT_START_PATTERN) {
            Ok(regex) => regex,
            Err(_) => return Err(PatternError { kind: LineKind::ConflictStart }),
        };
        let conflict_end = match Regex::new(CONFLICT_END_PATTERN) {
            Ok(regex) => regex,
            Err(_) => return Err(PatternError { kind: LineKind::ConflictEnd }),
        };
        let change_header = match Regex::new(CHANGE_HEADER_PATTERN) {
            Ok(regex) => regex,
            Err(_) => return Err(PatternError { kind: LineKind::ChangeHeader }),
        };
        let contents_header = match Regex::new(CONTENTS_HEADER_PATTERN) {
            Ok(regex) => regex,
            Err(_) => return Err(PatternError { kind: LineKind::ContentsHeader }),
        };
        let continuation = match Regex::new(CONTINUATION_PATTERN) {
            Ok(regex) => regex,
            Err(_) => return Err(PatternError { kind: LineKind::Continuation }),
        };
        Ok(Classifier { conflict_start, conflict_end, change_header, contents_header, continuation })
    }

    /// Whether `line` opens a conflict.
    pub fn is_conflict_start(&self, line: &str) -> (found: bool)
        ensures
            found == is_conflict_start(line@),
    {
        proof {
            use_type_invariant(self);
        }
        self.conflict_start.is_match(line)
    }

    /// Whether `line` closes a conflict.
    pub fn is_conflict_end(&self, line: &str) -> (found: bool)
        ensures
            found == is_conflict_end(line@),
    {
        proof {
            use_type_invariant(self);
        }
        self.conflict_end.is_match(line)
    }

    /// Whether `line` heads a block of changes.
    pub fn is_change_header(&self, line: &str) -> (found: bool)
        ensures
            found == is_change_header(line@),
    {
        proof {
            use_type_invariant(self);
        }
        self.change_header.is_match(line)
    }

    /// Whether `line` heads a block of contents.
    pub fn is_contents_header(&self, line: &str) -> (found: bool)
        ensures
            found == is_contents_header(line@),
    {
        proof {
            use_type_invariant(self);
        }
        self.contents_header.is_match(line)
    }

    /// Whether `line` continues a header.
    pub fn is_continuation(&self, line: &str) -> (found: bool)
        ensures
            found == is_continuation(line@),
    {
        proof {
            use_type_invariant(self);
        }
        self.continuation.is_match(line)
    }

    /// Whether `line` ends the text of a block.
    pub fn is_known_pattern(&self, line: &str) -> (known: bool)
        ensures
            known == is_known_line(line@),
    {
        self.is_change_header(line) || self.is_contents_header(line) || self.is_conflict_end(line)
            || self.is_continuation(line)
    }

    /// The kind of `line`.
    pub fn classify(&self, line: &str) -> (kind: LineKind)
        ensures
            kind == line_kind(line@),
    {
        if self.is_change_header(line) {
            LineKind::ChangeHeader
        } else if self.is_contents_header(line) {
            LineKind::ContentsHeader
        } else if self.is_conflict_end(line) {
            LineKind::ConflictEnd
        } else if self.is_continuation(line) {
            LineKind::Continuation
        } else if self.is_conflict_start(line) {
            LineKind::ConflictStart
        } else {
            LineKind::Plain
        }
    }
}

} // verus!

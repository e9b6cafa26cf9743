use conflict_markers::pattern::{Classifier, LineKind};

fn classifier() -> Classifier {
    match Classifier::new() {
        Ok(classifier) => classifier,
        Err(error) => panic!("pattern did not compile: {:?}", error),
    }
}

#[test]
fn test_regex_patterns() {
    let classifier = classifier();
    let tests = [
        // Classic format
        (LineKind::ConflictStart, "<<<<<<< Conflict 1 of 2"),
        (LineKind::ConflictEnd, ">>>>>>> Conflict 2 of 2 ends"),
        (LineKind::ChangeHeader, "%%%%%%% Changes from base to side #1"),
        (LineKind::ChangeHeader, "%%%%%%% Changes from base #1 to side #1"),
        (LineKind::ContentsHeader, "+++++++ Contents of side #2"),
        // Detailed format
        (LineKind::ConflictStart, "<<<<<<< conflict 1 of 2"),
        (LineKind::ConflictEnd, ">>>>>>> conflict 2 of 2 ends"),
        (
            LineKind::ChangeHeader,
            r#"%%%%%%% diff from: rlvkpnrz 2f040964 (rebased revision's parent)"#,
        ),
        (LineKind::ContentsHeader, r#"+++++++ zsuskuln f7705e4f (rebased revision)"#),
        // Longer conflict markers
        (LineKind::ConflictStart, "<<<<<<<< conflict 1 of 2"),
        (LineKind::ConflictEnd, ">>>>>>>> conflict 1 of 2 ends"),
        (LineKind::ChangeHeader, "%%%%%%%% Changes from base to side #1"),
        (LineKind::ContentsHeader, "++++++++ Contents of side #2"),
    ];

    for (kind, haystack) in tests {
        let matched = match kind {
            LineKind::ConflictStart => classifier.is_conflict_start(haystack),
            LineKind::ConflictEnd => classifier.is_conflict_end(haystack),
            LineKind::ChangeHeader => classifier.is_change_header(haystack),
            LineKind::ContentsHeader => classifier.is_contents_header(haystack),
            LineKind::Continuation => classifier.is_continuation(haystack),
            LineKind::Plain => false,
        };
        assert!(matched, "expected pattern to match: {haystack}");
    }
}

#[test]
fn classify_names_the_pattern_that_matches() {
    let classifier = classifier();
    assert_eq!(classifier.classify("<<<<<<< Conflict 1 of 2"), LineKind::ConflictStart);
    assert_eq!(classifier.classify(">>>>>>> Conflict 1 of 2 ends"), LineKind::ConflictEnd);
    assert_eq!(classifier.classify("%%%%%%% Changes from base to side #1"), LineKind::ChangeHeader);
    assert_eq!(classifier.classify("+++++++ Contents of side #2"), LineKind::ContentsHeader);
    assert_eq!(classifier.classify("\\\\\\\\\\\\\\        to: side #1"), LineKind::Continuation);
    assert_eq!(classifier.classify("plain text"), LineKind::Plain);
    assert_eq!(classifier.classify(""), LineKind::Plain);
}

#[test]
fn markers_need_seven_repeats() {
    let classifier = classifier();
    assert_eq!(classifier.classify("<<<<<< Conflict 1 of 2"), LineKind::Plain);
    assert_eq!(classifier.classify(">>>>>> Conflict 1 of 2 ends"), LineKind::Plain);
    assert_eq!(classifier.classify("%%%%%% Changes"), LineKind::Plain);
    assert_eq!(classifier.classify("++++++ Contents"), LineKind::Plain);
    assert_eq!(classifier.classify("\\\\\\\\\\\\ to"), LineKind::Plain);
    assert_eq!(classifier.classify("<<<<<<<<<<<< Conflict 10 of 12"), LineKind::ConflictStart);
}

#[test]
fn markers_are_matched_against_the_whole_line() {
    let classifier = classifier();
    assert_eq!(classifier.classify(" <<<<<<< Conflict 1 of 2"), LineKind::Plain);
    assert_eq!(classifier.classify("<<<<<<< Conflict 1 of 2 "), LineKind::Plain);
    assert_eq!(classifier.classify("<<<<<<< Conflict one of 2"), LineKind::Plain);
    assert_eq!(classifier.classify("<<<<<<< CONFLICT 1 of 2"), LineKind::Plain);
    assert_eq!(classifier.classify(">>>>>>> Conflict 1 of 2"), LineKind::Plain);
    assert_eq!(classifier.classify("%%%%%%%"), LineKind::Plain);
    assert_eq!(classifier.classify("%%%%%%% "), LineKind::Plain);
    assert_eq!(classifier.classify("+++++++"), LineKind::Plain);
    assert_eq!(classifier.classify("+++++++x"), LineKind::Plain);
    assert_eq!(classifier.classify("\\\\\\\\\\\\\\"), LineKind::Plain);
    assert_eq!(classifier.classify("\\\\\\\\\\\\\\\tto"), LineKind::Continuation);
}

#[test]
fn known_patterns_are_the_four_that_end_a_block() {
    let classifier = classifier();
    assert!(classifier.is_known_pattern("%%%%%%% Changes from base to side #1"));
    assert!(classifier.is_known_pattern("+++++++ Contents of side #2"));
    assert!(classifier.is_known_pattern(">>>>>>> Conflict 1 of 2 ends"));
    assert!(classifier.is_known_pattern("\\\\\\\\\\\\\\ to: side #1"));
    assert!(!classifier.is_known_pattern("<<<<<<< Conflict 1 of 2"));
    assert!(!classifier.is_known_pattern("+added"));
    assert!(LineKind::ChangeHeader.is_known_pattern());
    assert!(LineKind::ContentsHeader.is_known_pattern());
    assert!(LineKind::ConflictEnd.is_known_pattern());
    assert!(LineKind::Continuation.is_known_pattern());
    assert!(!LineKind::ConflictStart.is_known_pattern());
    assert!(!LineKind::Plain.is_known_pattern());
}

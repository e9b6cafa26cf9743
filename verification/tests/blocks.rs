use conflict_markers::cursor::{piece_of_change, push_piece, Cursor};
use conflict_markers::document::Line;
use conflict_markers::pattern::LineKind;
use conflict_markers::types::{ChangeBlock, Conflict, Position, Range};

fn line(kind: LineKind, text: &str) -> Line {
    Line { kind, text: String::from(text) }
}

fn plain(text: &str) -> Line {
    line(LineKind::Plain, text)
}

fn cursor(lines: Vec<Line>) -> Cursor {
    match Cursor::new(lines) {
        Some(cursor) => cursor,
        None => panic!("the lines do not fit"),
    }
}

fn title(line: u32, width: u32) -> Range {
    Range::new(Position::new(line, 0), Position::new(line, width))
}

#[test]
fn cursor_steps_through_the_lines() {
    let mut cursor = cursor(vec![
        line(LineKind::ConflictStart, "start"),
        plain("text"),
        line(LineKind::ConflictEnd, "end"),
    ]);
    assert_eq!(cursor.kind(), None);
    assert_eq!(cursor.get_range_of_current_line(), None);
    assert_eq!(cursor.next(), Some(LineKind::ConflictStart));
    assert_eq!(cursor.kind(), Some(LineKind::ConflictStart));
    assert_eq!(cursor.get_range_of_current_line(), Some(title(0, 5)));
    assert_eq!(cursor.next(), Some(LineKind::Plain));
    assert_eq!(cursor.get_range_of_current_line(), Some(title(1, 4)));
    assert_eq!(cursor.next(), Some(LineKind::ConflictEnd));
    assert_eq!(cursor.get_range_of_current_line(), Some(title(2, 3)));
    assert_eq!(cursor.next(), None);
    assert_eq!(cursor.kind(), None);
    assert_eq!(cursor.get_range_of_current_line(), None);
    assert_eq!(cursor.next(), None);
}

#[test]
fn cursor_over_no_lines_has_no_current_line() {
    let mut cursor = cursor(vec![]);
    assert_eq!(cursor.next(), None);
    assert_eq!(cursor.get_range_of_current_line(), None);
    assert_eq!(cursor.parse_change_block(), None);
    assert_eq!(cursor.parse_contents_block(), None);
}

#[test]
fn block_parsers_do_nothing_before_the_first_step() {
    let mut cursor = cursor(vec![line(LineKind::ChangeHeader, "header"), line(LineKind::ConflictEnd, "end")]);
    assert_eq!(cursor.parse_change_block(), None);
    assert_eq!(cursor.kind(), None);
    assert_eq!(cursor.next(), Some(LineKind::ChangeHeader));
}

#[test]
fn skip_continuation_lines_stops_at_the_first_other_line() {
    let mut cursor = cursor(vec![
        line(LineKind::Continuation, "c1"),
        line(LineKind::Continuation, "c2"),
        plain("text"),
        line(LineKind::Continuation, "c3"),
    ]);
    cursor.skip_continuation_lines();
    assert_eq!(cursor.kind(), None);
    assert_eq!(cursor.next(), Some(LineKind::Continuation));
    cursor.skip_continuation_lines();
    assert_eq!(cursor.get_range_of_current_line(), Some(title(2, 4)));
    cursor.skip_continuation_lines();
    assert_eq!(cursor.get_range_of_current_line(), Some(title(2, 4)));
    assert_eq!(cursor.next(), Some(LineKind::Continuation));
    cursor.skip_continuation_lines();
    assert_eq!(cursor.kind(), None);
}

#[test]
fn change_block_keeps_drops_and_strips() {
    let mut cursor = cursor(vec![
        line(LineKind::ChangeHeader, "%%%%%%% header"),
        plain(" context"),
        plain("-removed"),
        plain("+added"),
        plain("++plus kept once"),
        plain("--never"),
        plain("+"),
        plain("-"),
        plain(""),
        plain("last"),
        line(LineKind::ConflictEnd, "end"),
    ]);
    cursor.next();
    let block = cursor.parse_change_block();
    assert_eq!(
        block,
        Some(ChangeBlock {
            title_range: title(0, 14),
            content: String::from(" context\nadded\n+plus kept once\n\n\nlast"),
        })
    );
    assert_eq!(cursor.kind(), Some(LineKind::ConflictEnd));
    assert_eq!(cursor.get_range_of_current_line(), Some(title(10, 3)));
}

#[test]
fn contents_block_keeps_every_line_as_it_is() {
    let mut cursor = cursor(vec![
        line(LineKind::ContentsHeader, "+++++++ header"),
        plain(" context"),
        plain("-removed"),
        plain("+added"),
        plain(""),
        plain("last"),
        line(LineKind::ChangeHeader, "next header"),
    ]);
    cursor.next();
    let block = cursor.parse_contents_block();
    assert_eq!(
        block,
        Some(ChangeBlock {
            title_range: title(0, 14),
            content: String::from(" context\n-removed\n+added\n\nlast"),
        })
    );
    assert_eq!(cursor.kind(), Some(LineKind::ChangeHeader));
}

#[test]
fn empty_lines_are_kept_wherever_they_stand() {
    let mut contents = cursor(vec![
        line(LineKind::ContentsHeader, "h"),
        plain(""),
        plain(""),
        plain("a"),
        plain(""),
        plain("b"),
        plain(""),
        line(LineKind::ConflictEnd, "end"),
    ]);
    contents.next();
    assert_eq!(
        contents.parse_contents_block(),
        Some(ChangeBlock { title_range: title(0, 1), content: String::from("\n\na\n\nb\n") })
    );
    let mut changes = cursor(vec![
        line(LineKind::ChangeHeader, "h"),
        plain("+"),
        plain(""),
        plain("-gone"),
        plain("+a"),
        line(LineKind::ConflictEnd, "end"),
    ]);
    changes.next();
    assert_eq!(
        changes.parse_change_block(),
        Some(ChangeBlock { title_range: title(0, 1), content: String::from("\n\na") })
    );
}

#[test]
fn empty_first_line_of_a_contents_block_is_kept() {
    let mut cursor = cursor(vec![
        line(LineKind::ContentsHeader, "+++++++ s"),
        plain(""),
        plain("a"),
        line(LineKind::ConflictEnd, ">>>>>>> Conflict 1 of 1 ends"),
    ]);
    cursor.next();
    assert_eq!(
        cursor.parse_contents_block(),
        Some(ChangeBlock { title_range: title(0, 9), content: String::from("\na") })
    );
}

#[test]
fn kept_lines_that_are_all_empty_give_their_line_feeds() {
    let mut changes = cursor(vec![
        line(LineKind::ChangeHeader, "h"),
        plain("+"),
        plain("-gone"),
        plain(""),
        plain("+"),
        line(LineKind::ConflictEnd, "end"),
    ]);
    changes.next();
    assert_eq!(
        changes.parse_change_block(),
        Some(ChangeBlock { title_range: title(0, 1), content: String::from("\n\n") })
    );
    let mut contents = cursor(vec![
        line(LineKind::ContentsHeader, "h"),
        plain(""),
        line(LineKind::ConflictEnd, "end"),
    ]);
    contents.next();
    assert_eq!(
        contents.parse_contents_block(),
        Some(ChangeBlock { title_range: title(0, 1), content: String::new() })
    );
}

#[test]
fn removed_lines_leave_no_line_feed() {
    let mut changes = cursor(vec![
        line(LineKind::ChangeHeader, "h"),
        plain("-first"),
        plain("a"),
        plain("-between"),
        plain("-between"),
        plain("+b"),
        plain("-last"),
        line(LineKind::ConflictEnd, "end"),
    ]);
    changes.next();
    assert_eq!(
        changes.parse_change_block(),
        Some(ChangeBlock { title_range: title(0, 1), content: String::from("a\nb") })
    );
}

#[test]
fn block_without_text() {
    let mut cursor = cursor(vec![
        line(LineKind::ChangeHeader, "h1"),
        line(LineKind::ContentsHeader, "h2"),
        line(LineKind::ConflictEnd, "end"),
    ]);
    cursor.next();
    assert_eq!(
        cursor.parse_change_block(),
        Some(ChangeBlock { title_range: title(0, 2), content: String::new() })
    );
    assert_eq!(
        cursor.parse_contents_block(),
        Some(ChangeBlock { title_range: title(1, 2), content: String::new() })
    );
    assert_eq!(cursor.kind(), Some(LineKind::ConflictEnd));
}

#[test]
fn only_removed_lines_give_an_empty_text() {
    let mut cursor = cursor(vec![
        line(LineKind::ChangeHeader, "h"),
        plain("-a"),
        plain("-b"),
        line(LineKind::ConflictEnd, "end"),
    ]);
    cursor.next();
    assert_eq!(
        cursor.parse_change_block(),
        Some(ChangeBlock { title_range: title(0, 1), content: String::new() })
    );
}

#[test]
fn continuations_after_the_header_are_passed_over() {
    let mut cursor = cursor(vec![
        line(LineKind::ChangeHeader, "header"),
        line(LineKind::Continuation, "note 1"),
        line(LineKind::Continuation, "note 2"),
        plain("+text"),
        line(LineKind::ConflictEnd, "end"),
    ]);
    cursor.next();
    assert_eq!(
        cursor.parse_change_block(),
        Some(ChangeBlock { title_range: title(0, 6), content: String::from("text") })
    );
    assert_eq!(cursor.get_range_of_current_line(), Some(title(4, 3)));
}

#[test]
fn continuation_inside_the_text_ends_the_block() {
    let mut cursor = cursor(vec![
        line(LineKind::ContentsHeader, "header"),
        plain("before"),
        line(LineKind::Continuation, "note"),
        plain("after"),
        line(LineKind::ConflictEnd, "end"),
    ]);
    cursor.next();
    assert_eq!(
        cursor.parse_contents_block(),
        Some(ChangeBlock { title_range: title(0, 6), content: String::from("before") })
    );
    assert_eq!(cursor.kind(), Some(LineKind::Continuation));
    assert_eq!(cursor.get_range_of_current_line(), Some(title(2, 4)));
}

#[test]
fn block_that_is_never_ended_uses_up_the_lines() {
    let mut change = cursor(vec![line(LineKind::ChangeHeader, "header"), plain("+a"), plain("b")]);
    change.next();
    assert_eq!(change.parse_change_block(), None);
    assert_eq!(change.kind(), None);
    assert_eq!(change.next(), None);

    let mut contents = cursor(vec![line(LineKind::ContentsHeader, "header")]);
    contents.next();
    assert_eq!(contents.parse_contents_block(), None);
    assert_eq!(contents.kind(), None);

    let mut notes = cursor(vec![
        line(LineKind::ContentsHeader, "header"),
        line(LineKind::Continuation, "note"),
    ]);
    notes.next();
    assert_eq!(notes.parse_contents_block(), None);
    assert_eq!(notes.kind(), None);
}

#[test]
fn conflict_start_inside_a_block_is_text() {
    let mut cursor = cursor(vec![
        line(LineKind::ContentsHeader, "header"),
        line(LineKind::ConflictStart, "start"),
        line(LineKind::ConflictEnd, "end"),
    ]);
    cursor.next();
    assert_eq!(
        cursor.parse_contents_block(),
        Some(ChangeBlock { title_range: title(0, 6), content: String::from("start") })
    );
}

#[test]
fn title_range_counts_utf16_code_units() {
    let mut cursor = cursor(vec![
        line(LineKind::ChangeHeader, "%%%%%%% \u{1F600} side \u{e9}"),
        plain("+\u{1F600}"),
        line(LineKind::ConflictEnd, "\u{10000}\u{10FFFF}"),
    ]);
    cursor.next();
    assert_eq!(
        cursor.parse_change_block(),
        Some(ChangeBlock { title_range: title(0, 17), content: String::from("\u{1F600}") })
    );
    assert_eq!(cursor.get_range_of_current_line(), Some(title(2, 4)));
}

#[test]
fn parse_diff_marker_reads_blocks_up_to_the_closing_line() {
    let mut cursor = cursor(vec![
        plain("before"),
        line(LineKind::ConflictStart, "open"),
        line(LineKind::ChangeHeader, "changes"),
        line(LineKind::Continuation, "note"),
        plain("-old"),
        plain("+new"),
        line(LineKind::ContentsHeader, "contents"),
        plain("other"),
        line(LineKind::ConflictEnd, "close it"),
        plain("after"),
    ]);
    cursor.next();
    cursor.next();
    assert_eq!(
        cursor.parse_diff_marker(),
        Some(Conflict {
            range: Range::new(Position::new(1, 0), Position::new(8, 8)),
            title_range: title(1, 4),
            blocks: vec![
                ChangeBlock { title_range: title(2, 7), content: String::from("new") },
                ChangeBlock { title_range: title(6, 8), content: String::from("other") },
            ],
        })
    );
    assert_eq!(cursor.kind(), Some(LineKind::ConflictEnd));
    assert_eq!(cursor.next(), Some(LineKind::Plain));
}

#[test]
fn parse_diff_marker_without_blocks_closes_at_the_next_line() {
    let mut cursor = cursor(vec![line(LineKind::ConflictStart, "open"), plain("anything"), plain("more")]);
    cursor.next();
    assert_eq!(
        cursor.parse_diff_marker(),
        Some(Conflict {
            range: Range::new(Position::new(0, 0), Position::new(1, 8)),
            title_range: title(0, 4),
            blocks: vec![],
        })
    );
    assert_eq!(cursor.kind(), Some(LineKind::Plain));
    assert_eq!(cursor.get_range_of_current_line(), Some(title(1, 8)));
}

#[test]
fn parse_diff_marker_gives_nothing_where_the_lines_are_used_up() {
    let mut last_line = cursor(vec![line(LineKind::ConflictStart, "open")]);
    last_line.next();
    assert_eq!(last_line.parse_diff_marker(), None);
    assert_eq!(last_line.kind(), None);

    let mut unended = cursor(vec![
        line(LineKind::ConflictStart, "open"),
        line(LineKind::ContentsHeader, "contents"),
        plain("text"),
        line(LineKind::ChangeHeader, "changes"),
        plain("+text"),
    ]);
    unended.next();
    assert_eq!(unended.parse_diff_marker(), None);
    assert_eq!(unended.kind(), None);
    assert_eq!(unended.next(), None);
}

#[test]
fn piece_of_change_follows_the_first_character() {
    assert_eq!(piece_of_change("-removed"), None);
    assert_eq!(piece_of_change("-"), None);
    assert_eq!(piece_of_change("--"), None);
    assert_eq!(piece_of_change("+added"), Some("added"));
    assert_eq!(piece_of_change("+"), Some(""));
    assert_eq!(piece_of_change("++"), Some("+"));
    assert_eq!(piece_of_change("+-"), Some("-"));
    assert_eq!(piece_of_change("+\u{1F600}x"), Some("\u{1F600}x"));
    assert_eq!(piece_of_change(" context"), Some(" context"));
    assert_eq!(piece_of_change("a+b"), Some("a+b"));
    assert_eq!(piece_of_change("\u{2212}minus sign"), Some("\u{2212}minus sign"));
    assert_eq!(piece_of_change(""), Some(""));
}

#[test]
fn push_piece_parts_lines_with_a_line_feed() {
    let mut content = String::new();
    push_piece(&mut content, "", true);
    assert_eq!(content, "");
    push_piece(&mut content, "a", false);
    assert_eq!(content, "\na");
    push_piece(&mut content, "", false);
    assert_eq!(content, "\na\n");
    push_piece(&mut content, "b", false);
    assert_eq!(content, "\na\n\nb");
    let mut other = String::new();
    push_piece(&mut other, "x", true);
    assert_eq!(other, "x");
    push_piece(&mut other, "y", false);
    assert_eq!(other, "x\ny");
}

#[test]
fn in_bounds_changes_nothing() {
    let mut cursor = cursor(vec![plain("a")]);
    cursor.in_bounds();
    assert_eq!(cursor.kind(), None);
    assert_eq!(cursor.next(), Some(LineKind::Plain));
    cursor.in_bounds();
    assert_eq!(cursor.get_range_of_current_line(), Some(title(0, 1)));
}

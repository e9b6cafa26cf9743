use conflict_markers::lines::split_lines;
use conflict_markers::utf16::{checked_utf16_len, get_utf16_len};

fn std_lines(text: &str) -> Vec<String> {
    text.lines().map(String::from).collect()
}

#[test]
fn split_lines_agrees_with_std() {
    let documents = [
        "",
        "\n",
        "\r\n",
        "\r",
        "a",
        "a\n",
        "a\nb",
        "a\r\nb\r\n",
        "a\rb\nc",
        "a\r\r\nb",
        "a\n\nb\n\n",
        "\n\na",
        "a\r",
        "a\n\r",
        "\r\r",
        "one\r\ntwo\nthree\r",
        "h\u{e9}llo\n\u{1F600}\r\nend",
    ];
    for document in documents {
        assert_eq!(split_lines(document), std_lines(document), "document {:?}", document);
    }
}

#[test]
fn split_lines_exact() {
    assert_eq!(split_lines(""), Vec::<String>::new());
    assert_eq!(split_lines("\n"), vec![String::new()]);
    assert_eq!(split_lines("a\r\nb"), vec![String::from("a"), String::from("b")]);
    assert_eq!(split_lines("a\r\r\n"), vec![String::from("a\r")]);
    assert_eq!(split_lines("a\nb\r"), vec![String::from("a"), String::from("b\r")]);
}

#[test]
fn utf16_len_counts_code_units() {
    assert_eq!(get_utf16_len(""), 0);
    assert_eq!(get_utf16_len("abc"), 3);
    assert_eq!(get_utf16_len("h\u{e9}llo"), 5);
    assert_eq!(get_utf16_len("\u{ffff}"), 1);
    assert_eq!(get_utf16_len("\u{10000}"), 2);
    assert_eq!(get_utf16_len("a\u{1F600}b"), 4);
    assert_eq!(checked_utf16_len("a\u{1F600}b"), Some(4));
}

#[test]
fn utf16_len_agrees_with_std() {
    let texts = ["", "plain", "\u{1F600}\u{1F601}", "\u{d7ff}\u{e000}\u{10ffff}", "mixed \u{4e2d}\u{6587} \u{1F680}"];
    for text in texts {
        assert_eq!(get_utf16_len(text) as usize, text.encode_utf16().count());
    }
}

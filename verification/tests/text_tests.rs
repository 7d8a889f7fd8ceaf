use kugiri::block::strip_trailing_newlines;
use kugiri::markers::{is_marker, leading_whitespace};
use kugiri::text::{chars_of, is_whitespace, join_lines, split_lines, string_of};
use kugiri::trim::is_marker_prefixed;
use kugiri::{join_lines_preserve_trailing_newline, trim, wrap};

fn lines_as_strings(text: &str) -> Vec<String> {
    split_lines(&chars_of(text)).iter().map(string_of).collect()
}

#[test]
fn characters_survive_the_way_into_a_vector_and_back() {
    for text in ["", "plain", "line\nfeed", "tab\there", "é ü 漢字 \u{1F600}", "\r\n"] {
        let chars = chars_of(text);
        assert_eq!(chars, text.chars().collect::<Vec<char>>());
        assert_eq!(string_of(&chars), text);
    }
}

#[test]
fn white_space_is_what_the_standard_library_says() {
    for code in 0..=0x10FFFFu32 {
        if let Some(c) = char::from_u32(code) {
            assert_eq!(is_whitespace(c), c.is_whitespace(), "U+{:04X}", code);
        }
    }
}

#[test]
fn lines_are_those_of_the_standard_library() {
    for text in [
        "",
        "\n",
        "\n\n",
        "a",
        "a\n",
        "a\nb",
        "a\n\nb\n",
        "a\r\nb\r\n",
        "a\r",
        "a\r\n\r\n",
        "a\r\r\nb",
        "\r",
        "\r\n",
        "a\rb\nc",
        "no feed at the end\r\nlast",
        "é\n漢\n",
    ] {
        let expected: Vec<String> = text.lines().map(|l| l.to_string()).collect();
        assert_eq!(lines_as_strings(text), expected, "{:?}", text);
    }
}

#[test]
fn a_carriage_return_goes_only_before_a_line_feed() {
    assert_eq!(lines_as_strings("a\r\nb\r"), vec!["a", "b\r"]);
    assert_eq!(lines_as_strings("a\r\r\n"), vec!["a\r"]);
}

#[test]
fn joined_lines_have_a_line_feed_between_them() {
    let lines: Vec<Vec<char>> = vec![chars_of("a"), chars_of(""), chars_of("b")];
    assert_eq!(string_of(&join_lines(&lines)), "a\n\nb");
    assert_eq!(string_of(&join_lines(&vec![chars_of("only")])), "only");
    assert_eq!(string_of(&join_lines(&vec![chars_of("")])), "");
    assert_eq!(string_of(&join_lines(&Vec::new())), "");
}

#[test]
fn join_adds_the_final_line_feed_of_the_text() {
    let lines = vec!["a".to_string(), "b".to_string()];
    assert_eq!(join_lines_preserve_trailing_newline(lines.clone(), "x\n"), "a\nb\n");
    assert_eq!(join_lines_preserve_trailing_newline(lines.clone(), "x"), "a\nb");
    assert_eq!(join_lines_preserve_trailing_newline(lines.clone(), ""), "a\nb");
    assert_eq!(join_lines_preserve_trailing_newline(lines, "\n"), "a\nb\n");
    assert_eq!(join_lines_preserve_trailing_newline(vec![], "\n"), "\n");
    assert_eq!(join_lines_preserve_trailing_newline(vec![String::new()], "x"), "");
}

#[test]
fn trailing_line_feeds_are_stripped_and_nothing_else() {
    for text in ["", "\n", "\n\n\n", "a", "a\n", "a\n\n", "\na\n", "a \n", "a\r\n", "a\n\r"] {
        assert_eq!(
            string_of(&strip_trailing_newlines(&chars_of(text))),
            text.trim_end_matches('\n')
        );
    }
}

#[test]
fn leading_white_space_is_counted() {
    assert_eq!(leading_whitespace(&chars_of("")), 0);
    assert_eq!(leading_whitespace(&chars_of("x ")), 0);
    assert_eq!(leading_whitespace(&chars_of("  x")), 2);
    assert_eq!(leading_whitespace(&chars_of(" \t\u{2003}x y")), 3);
    assert_eq!(leading_whitespace(&chars_of("   ")), 3);
}

#[test]
fn a_marker_line_is_the_marker_after_its_indent() {
    let marker = chars_of("<!-- m -->");
    assert!(is_marker(&chars_of("<!-- m -->"), &marker));
    assert!(is_marker(&chars_of(" \t <!-- m -->"), &marker));
    assert!(!is_marker(&chars_of("<!-- m --> "), &marker));
    assert!(!is_marker(&chars_of("<!-- m --"), &marker));
    assert!(!is_marker(&chars_of("x<!-- m -->"), &marker));
    assert!(!is_marker(&chars_of(""), &marker));
    assert!(is_marker(&chars_of("   "), &chars_of("")));
}

#[test]
fn a_line_begins_as_a_marker_whatever_follows() {
    assert!(is_marker_prefixed(&chars_of("<!-- KUGIRI-BEGIN: x -->")));
    assert!(is_marker_prefixed(&chars_of("<!-- KUGIRI-END:")));
    assert!(is_marker_prefixed(&chars_of("<!-- KUGIRI-INSERT: anything at all")));
    assert!(!is_marker_prefixed(&chars_of(" <!-- KUGIRI-BEGIN: x -->")));
    assert!(!is_marker_prefixed(&chars_of("<!-- KUGIRI-BEGIN")));
    assert!(!is_marker_prefixed(&chars_of("<!-- KUGIRI-OTHER: x -->")));
    assert!(!is_marker_prefixed(&chars_of("")));
}

#[test]
fn trim_keeps_indented_markers_and_blank_lines() {
    let text = "a\n\n  <!-- KUGIRI-BEGIN: x -->\n<!-- KUGIRI-BEGIN: x -->\n\nb\n<!-- KUGIRI-END: y -->\n";
    assert_eq!(trim(text), "a\n\n  <!-- KUGIRI-BEGIN: x -->\n\nb\n");
}

#[test]
fn wrap_strips_every_trailing_line_feed() {
    assert_eq!(
        wrap("a\n\n\n", "w"),
        "<!-- KUGIRI-BEGIN: w -->\na\n<!-- KUGIRI-END: w -->"
    );
    assert_eq!(
        wrap("  a\nb  ", "w"),
        "<!-- KUGIRI-BEGIN: w -->\n  a\nb  \n<!-- KUGIRI-END: w -->"
    );
}

use kugiri::{extract, find_section, insert, remove, trim, update, upsert, wrap, EditError};

const SAMPLE: &str = "Header\n<!-- KUGIRI-BEGIN: a -->\nX\n<!-- KUGIRI-END: a -->\nFooter";

#[test]
fn update_replaces_the_content_only() {
    assert_eq!(
        update(SAMPLE, "a", "Y").unwrap(),
        "Header\n<!-- KUGIRI-BEGIN: a -->\nY\n<!-- KUGIRI-END: a -->\nFooter"
    );
}

#[test]
fn extract_returns_the_content() {
    assert_eq!(extract(SAMPLE, "a").unwrap(), "X");
}

#[test]
fn extract_of_a_missing_section_fails() {
    assert_eq!(
        extract(SAMPLE, "missing"),
        Err(EditError::SectionNotFound { id: "missing".to_string() })
    );
}

#[test]
fn wrapped_content_is_extracted_again() {
    for content in ["", "one line", "two\nlines", "blank\n\nbetween", "ends with feeds\n\n\n", "  kept indent"] {
        let wrapped = wrap(content, "sec");
        assert_eq!(extract(&wrapped, "sec").unwrap(), content.trim_end_matches('\n'));
    }
}

#[test]
fn wrapped_content_with_a_carriage_return_before_the_break_loses_it() {
    let wrapped = wrap("a\r\nb", "sec");
    assert_eq!(extract(&wrapped, "sec").unwrap(), "a\nb");
}

#[test]
fn updated_content_is_extracted_again() {
    let text = "Top\n    <!-- KUGIRI-BEGIN: s -->\n    old\n    <!-- KUGIRI-END: s -->\nBottom\n";
    for content in ["", "new", "first\nsecond", "first\n\nthird", "feed at the end\n"] {
        let updated = update(text, "s", content).unwrap();
        assert_eq!(extract(&updated, "s").unwrap(), content.trim_end_matches('\n'));
    }
}

#[test]
fn updated_content_is_indented_as_the_begin_marker() {
    let text = "Top\n  <!-- KUGIRI-BEGIN: s -->\n  old\n  <!-- KUGIRI-END: s -->\nBottom\n";
    assert_eq!(
        update(text, "s", "first\n\nthird\n").unwrap(),
        "Top\n  <!-- KUGIRI-BEGIN: s -->\n  first\n\n  third\n  <!-- KUGIRI-END: s -->\nBottom\n"
    );
}

#[test]
fn update_with_empty_content_leaves_one_empty_line() {
    assert_eq!(
        update(SAMPLE, "a", "").unwrap(),
        "Header\n<!-- KUGIRI-BEGIN: a -->\n\n<!-- KUGIRI-END: a -->\nFooter"
    );
}

#[test]
fn removed_section_is_not_found_again() {
    let removed = remove(SAMPLE, "a").unwrap();
    assert_eq!(removed, "Header\nFooter");
    assert!(find_section(&removed, "a").is_none());
    assert_eq!(
        extract(&removed, "a"),
        Err(EditError::SectionNotFound { id: "a".to_string() })
    );
}

#[test]
fn removing_the_first_of_two_sections_leaves_the_second() {
    let text = "<!-- KUGIRI-BEGIN: a -->\n1\n<!-- KUGIRI-END: a -->\n<!-- KUGIRI-BEGIN: a -->\n2\n<!-- KUGIRI-END: a -->";
    let removed = remove(text, "a").unwrap();
    assert_eq!(removed, "<!-- KUGIRI-BEGIN: a -->\n2\n<!-- KUGIRI-END: a -->");
    assert_eq!(extract(&removed, "a").unwrap(), "2");
}

#[test]
fn trim_twice_is_trim_once() {
    for text in [
        "",
        "\n",
        "plain",
        "plain\n",
        SAMPLE,
        "<!-- KUGIRI-BEGIN: a -->\n",
        "<!-- KUGIRI-INSERT: a -->",
        "a\n\n<!-- KUGIRI-END: x -->",
        "\n<!-- KUGIRI-END: x -->",
        "a\r\nb\r\n<!-- KUGIRI-BEGIN: a -->\r\nc\r\n",
    ] {
        let once = trim(text);
        assert_eq!(trim(&once), once);
    }
}

#[test]
fn trim_twice_differs_where_a_stray_carriage_return_ends_a_line() {
    let once = trim("a\r\r\n");
    assert_eq!(once, "a\r\n");
    assert_eq!(trim(&once), "a\n");
}

#[test]
fn every_operation_keeps_the_final_line_feed() {
    for text in [SAMPLE.to_string(), format!("{}\n", SAMPLE), format!("{}\n\n", SAMPLE)] {
        let ends = text.ends_with('\n');
        assert_eq!(update(&text, "a", "Y\n").unwrap().ends_with('\n'), ends);
        assert_eq!(insert(&text, "b", "Y", Some("a"), None).unwrap().ends_with('\n'), ends);
        assert_eq!(insert(&text, "b", "Y", None, Some("a")).unwrap().ends_with('\n'), ends);
        assert_eq!(upsert(&text, "a", "Y", None, None).unwrap().ends_with('\n'), ends);
        assert_eq!(upsert(&text, "b", "Y", None, Some("a")).unwrap().ends_with('\n'), ends);
        assert_eq!(remove(&text, "a").unwrap().ends_with('\n'), ends);
        assert_eq!(trim(&text).ends_with('\n'), ends);
    }
}

#[test]
fn insert_after_the_last_line_keeps_the_missing_line_feed() {
    let text = "<!-- KUGIRI-INSERT: here -->";
    assert_eq!(
        insert(text, "n", "body", None, Some("here")).unwrap(),
        "<!-- KUGIRI-INSERT: here -->\n\n<!-- KUGIRI-BEGIN: n -->\nbody\n<!-- KUGIRI-END: n -->"
    );
}

#[test]
fn remove_before_a_blank_last_line_ends_with_a_line_feed() {
    let text = "a\n\n<!-- KUGIRI-BEGIN: s -->\n<!-- KUGIRI-END: s -->";
    assert_eq!(remove(text, "s").unwrap(), "a\n");
    assert_eq!(trim(text), "a\n");
}

#[test]
fn insert_after_places_the_section_behind_the_anchor() {
    let text = "one\n<!-- KUGIRI-BEGIN: A -->\ntwo\n<!-- KUGIRI-END: A -->\nthree\nfour\n";
    let result = insert(text, "new", "C1\nC2", None, Some("A")).unwrap();
    assert_eq!(
        result,
        "one\n<!-- KUGIRI-BEGIN: A -->\ntwo\n<!-- KUGIRI-END: A -->\n\n<!-- KUGIRI-BEGIN: new -->\nC1\nC2\n<!-- KUGIRI-END: new -->\nthree\nfour\n"
    );
    let before: Vec<&str> = text.lines().collect();
    let after: Vec<&str> = result.lines().collect();
    assert_eq!(after.len(), before.len() + 5);
    assert_eq!(after[..4], before[..4]);
    assert_eq!(after[4], "");
    assert_eq!(after[5], "<!-- KUGIRI-BEGIN: new -->");
    assert_eq!(after[8], "<!-- KUGIRI-END: new -->");
    assert_eq!(after[9..], before[4..]);
}

#[test]
fn insert_before_places_the_section_in_front_of_the_anchor() {
    let text = "one\n  <!-- KUGIRI-BEGIN: A -->\n  two\n  <!-- KUGIRI-END: A -->\nthree";
    assert_eq!(
        insert(text, "new", "C1\n\nC2\n\n", Some("A"), None).unwrap(),
        "one\n  <!-- KUGIRI-BEGIN: new -->\n  C1\n\n  C2\n  <!-- KUGIRI-END: new -->\n\n  <!-- KUGIRI-BEGIN: A -->\n  two\n  <!-- KUGIRI-END: A -->\nthree"
    );
}

#[test]
fn insert_at_an_insertion_point() {
    let text = "top\n\t<!-- KUGIRI-INSERT: here -->\nbottom\n";
    assert_eq!(
        insert(text, "n", "body", Some("here"), None).unwrap(),
        "top\n\t<!-- KUGIRI-BEGIN: n -->\n\tbody\n\t<!-- KUGIRI-END: n -->\n\n\t<!-- KUGIRI-INSERT: here -->\nbottom\n"
    );
    assert_eq!(
        insert(text, "n", "body", None, Some("here")).unwrap(),
        "top\n\t<!-- KUGIRI-INSERT: here -->\n\n\t<!-- KUGIRI-BEGIN: n -->\n\tbody\n\t<!-- KUGIRI-END: n -->\nbottom\n"
    );
}

#[test]
fn insert_does_not_look_for_the_new_identifier() {
    let result = insert(SAMPLE, "a", "again", None, Some("a")).unwrap();
    assert_eq!(
        result,
        "Header\n<!-- KUGIRI-BEGIN: a -->\nX\n<!-- KUGIRI-END: a -->\n\n<!-- KUGIRI-BEGIN: a -->\nagain\n<!-- KUGIRI-END: a -->\nFooter"
    );
}

#[test]
fn upsert_updates_and_ignores_the_anchors() {
    let expected = "Header\n<!-- KUGIRI-BEGIN: a -->\nY\n<!-- KUGIRI-END: a -->\nFooter";
    assert_eq!(upsert(SAMPLE, "a", "Y", None, None).unwrap(), expected);
    assert_eq!(upsert(SAMPLE, "a", "Y", Some("x"), Some("y")).unwrap(), expected);
    assert_eq!(upsert(SAMPLE, "a", "Y", Some("nowhere"), None).unwrap(), expected);
}

#[test]
fn upsert_inserts_as_insert_does() {
    assert_eq!(
        upsert(SAMPLE, "b", "Y", None, Some("a")),
        insert(SAMPLE, "b", "Y", None, Some("a"))
    );
    assert_eq!(
        upsert(SAMPLE, "b", "Y", Some("a"), None),
        insert(SAMPLE, "b", "Y", Some("a"), None)
    );
    assert_eq!(
        upsert(SAMPLE, "b", "Y", Some("a"), Some("a")),
        Err(EditError::InvalidAnchorSpec { both: true })
    );
    assert_eq!(
        upsert(SAMPLE, "b", "Y", None, Some("nowhere")),
        Err(EditError::AnchorNotFound { id: "nowhere".to_string() })
    );
}

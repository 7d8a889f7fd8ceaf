use kugiri::{find_marker_for_anchor, find_section, make_begin_marker, make_end_marker, make_insert_marker};


#[test]
fn test_find_section_exists() {
    let text = r#"# README

<!-- KUGIRI-BEGIN: test-section -->
This is the content
of the test section
<!-- KUGIRI-END: test-section -->

More content after"#;

    let section = find_section(text, "test-section").expect("Section should be found");
    assert_eq!(section.id, "test-section");
    assert_eq!(section.content, "This is the content\nof the test section");
    assert_eq!(section.start_line, 2);
    assert_eq!(section.end_line, 5);
    assert_eq!(section.indent, "");
}

#[test]
fn test_find_section_with_indent() {
    let text = r#"# README

  <!-- KUGIRI-BEGIN: indented -->
  This is indented
  content here
  <!-- KUGIRI-END: indented -->

More content"#;

    let section = find_section(text, "indented").expect("Section should be found");
    assert_eq!(section.id, "indented");
    assert_eq!(section.content, "This is indented\ncontent here");
    assert_eq!(section.indent, "  ");
}

#[test]
fn test_find_section_not_exists() {
    let text = "Some text without markers";
    assert!(find_section(text, "non-existent").is_none());
}

#[test]
fn test_find_marker_for_anchor_with_insert() {
    let text = r#"# README

  <!-- KUGIRI-INSERT: insert-point -->

More content"#;

    let marker = find_marker_for_anchor(text, "insert-point").expect("Marker should be found");
    assert_eq!(marker.id, "insert-point");
    assert_eq!(marker.indent, "  ");
    assert_eq!(marker.start_line, 2);
    assert_eq!(marker.end_line, 2);
    assert_eq!(marker.content, "");
}

#[test]
fn test_markers() {
    assert_eq!(make_begin_marker("test"), "<!-- KUGIRI-BEGIN: test -->");
    assert_eq!(make_end_marker("test"), "<!-- KUGIRI-END: test -->");
    assert_eq!(make_insert_marker("test"), "<!-- KUGIRI-INSERT: test -->");
}

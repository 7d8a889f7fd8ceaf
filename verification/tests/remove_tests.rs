use kugiri::remove;


#[test]
fn test_remove_section() {
    let text = r#"Header

<!-- KUGIRI-BEGIN: to-remove -->
Content to remove
<!-- KUGIRI-END: to-remove -->

Footer"#;

    let result = remove(text, "to-remove").unwrap();

    assert!(result.contains("Header"));
    assert!(result.contains("Footer"));
    assert!(!result.contains("KUGIRI-BEGIN: to-remove"));
    assert!(!result.contains("Content to remove"));
    assert!(!result.contains("KUGIRI-END: to-remove"));
}

#[test]
fn test_remove_section_not_found() {
    let text = "Some text";
    let result = remove(text, "non-existent");
    assert!(result.is_err());
    assert!(result.unwrap_err().to_string().contains("not found"));
}

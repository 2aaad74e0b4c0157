use feroha::manifest::{escape_toml_str, estimate_tokens, extract_first_paragraph};

#[test]
fn test_estimate_tokens() {
    assert_eq!(estimate_tokens("hello"), 1);
    assert_eq!(estimate_tokens("hello world"), 2);
    assert_eq!(estimate_tokens(""), 0);
    assert_eq!(estimate_tokens("你好"), 2);
    assert_eq!(estimate_tokens("你好世界"), 4);
    assert_eq!(estimate_tokens("hello你好"), 3);
}

#[test]
fn test_extract_first_paragraph() {
    assert_eq!(extract_first_paragraph("---\ntitle: Test\n---\n\n# Heading\n\nThis is the first paragraph.\n\nSecond paragraph."), "This is the first paragraph.");
    assert_eq!(
        extract_first_paragraph("# Heading\n\nFirst para here."),
        "First para here."
    );
    assert_eq!(extract_first_paragraph(""), "");
}

#[test]
fn first_paragraph_is_cut_to_two_hundred_characters() {
    let long = "x".repeat(250);
    assert_eq!(extract_first_paragraph(&long).len(), 200);
}

#[test]
fn later_dash_lines_do_not_reopen_front_matter() {
    assert_eq!(extract_first_paragraph("---\na\n---\n---\nbody"), "body");
}

#[test]
fn toml_strings_escape_backslashes_and_quotes() {
    assert_eq!(escape_toml_str(r#"a\b"c"#), r#"a\\b\"c"#);
}

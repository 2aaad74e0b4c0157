use feroha::paths::{has_internal_segment, is_content_markdown_path, validate_human_surface_path};

#[test]
fn validate_human_surface_path_allows_normal_relative_paths() {
    assert!(validate_human_surface_path("notes/project.md").is_ok());
    assert!(validate_human_surface_path("Projects/Ideas").is_ok());
}

#[test]
fn validate_human_surface_path_rejects_internal_namespaces() {
    assert!(validate_human_surface_path(".dualtrack/research/result.md").is_err());
    assert!(validate_human_surface_path(".harness/runs/state.md").is_err());
}

#[test]
fn validate_human_surface_path_rejects_nested_hidden_and_private_segments() {
    assert!(validate_human_surface_path("notes/.archive/result.md").is_err());
    assert!(validate_human_surface_path("notes/_private/result.md").is_err());
}

#[test]
fn validate_human_surface_path_rejects_absolute_parent_and_empty_paths() {
    assert!(validate_human_surface_path(r"C:\vault\note.md").is_err());
    assert!(validate_human_surface_path("/vault/note.md").is_err());
    assert!(validate_human_surface_path("notes/../secret.md").is_err());
    assert!(validate_human_surface_path("").is_err());
}

#[test]
fn validate_human_surface_path_rejects_backslash_separators() {
    assert!(validate_human_surface_path(r"notes\project.md").is_err());
}

#[test]
fn validate_human_surface_path_messages_name_the_fault() {
    assert_eq!(
        validate_human_surface_path("").unwrap_err(),
        "Human note path cannot be empty"
    );
    assert_eq!(
        validate_human_surface_path("C:notes").unwrap_err(),
        "Human note path must be relative: C:notes"
    );
    assert_eq!(
        validate_human_surface_path("a/../b").unwrap_err(),
        "Human note path cannot escape the vault: a/../b"
    );
    assert_eq!(
        validate_human_surface_path("a//_b").unwrap_err(),
        "Human note path cannot use an internal namespace: a//_b"
    );
    assert_eq!(
        validate_human_surface_path("a\\b").unwrap_err(),
        "Human note path must use forward slash separators: a\\b"
    );
}

#[test]
fn content_markdown_path_filter_excludes_internal_and_unsafe_paths() {
    assert!(is_content_markdown_path("notes/source.md"));
    assert!(!is_content_markdown_path(".dualtrack/research/result.md"));
    assert!(!is_content_markdown_path("notes/.hidden.md"));
    assert!(!is_content_markdown_path("_templates/source.md"));
    assert!(!is_content_markdown_path("notes/image.png"));
    assert!(!is_content_markdown_path("../outside.md"));
}

#[test]
fn content_markdown_path_accepts_current_dir_and_trailing_slash() {
    assert!(is_content_markdown_path("./notes/source.md"));
    assert!(is_content_markdown_path("notes/source.md/"));
    assert!(!is_content_markdown_path(""));
    assert!(!is_content_markdown_path("/abs/source.md"));
    assert!(!is_content_markdown_path("notes/"));
}

#[test]
fn internal_segments_are_found_anywhere() {
    assert!(has_internal_segment(&vec!["notes".to_string(), "_x".to_string()]));
    assert!(!has_internal_segment(&vec!["notes".to_string(), "x.md".to_string()]));
}

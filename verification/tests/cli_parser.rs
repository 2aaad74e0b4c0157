use feroha::cli::{parse, CliCommand, ExplainLevel, SummarizeStyle};

#[test]
fn test_parse_search() {
    let cmd = parse(r#"/agent search --query "Rust async""#).unwrap();
    match cmd {
        CliCommand::Search { query, top_k } => {
            assert_eq!(query, "Rust async");
            assert_eq!(top_k, 5);
        }
        _ => panic!("Expected Search command"),
    }
}

#[test]
fn test_parse_deep_dive() {
    let cmd = parse(r#"/agent deep-dive [[Rust/lifetimes]] --depth 3"#).unwrap();
    match cmd {
        CliCommand::DeepDive { concept, depth } => {
            assert_eq!(concept, "Rust/lifetimes");
            assert_eq!(depth, 3);
        }
        _ => panic!("Expected DeepDive command"),
    }
}

#[test]
fn test_parse_summarize_with_style() {
    let cmd = parse(r#"/agent summarize --target "My Note" --style paragraph"#).unwrap();
    match cmd {
        CliCommand::Summarize { target, style } => {
            assert_eq!(target, "My Note");
            assert!(matches!(style, SummarizeStyle::Paragraph));
        }
        _ => panic!("Expected Summarize command"),
    }
}

#[test]
fn test_parse_unknown_verb() {
    let result = parse("/agent foobar");
    assert!(result.is_err());
}

#[test]
fn test_parse_status() {
    let cmd = parse("/agent status").unwrap();
    assert!(matches!(cmd, CliCommand::Status));
}

#[test]
fn test_parse_dream() {
    let cmd = parse("/agent dream").unwrap();
    assert!(matches!(cmd, CliCommand::Dream));
}

#[test]
fn parse_explain_defaults_to_intermediate_level() {
    let cmd = parse("/agent explain [[Ownership]]").unwrap();
    match cmd {
        CliCommand::Explain { concept, level } => {
            assert_eq!(concept, "Ownership");
            assert!(matches!(level, ExplainLevel::Intermediate));
        }
        _ => panic!("Expected Explain command"),
    }
}

#[test]
fn parse_summarize_defaults_to_bullet_style() {
    let cmd = parse("/agent summarize --target [[Daily]]").unwrap();
    match cmd {
        CliCommand::Summarize { target, style } => {
            assert_eq!(target, "Daily");
            assert!(matches!(style, SummarizeStyle::Bullet));
        }
        _ => panic!("Expected Summarize command"),
    }
}

#[test]
fn summarize_target_written_as_a_link_is_one_target() {
    match parse("/agent summarize --target [[My Note]]").unwrap() {
        CliCommand::Summarize { target, style } => {
            assert_eq!(target, "My Note");
            assert!(matches!(style, SummarizeStyle::Bullet));
        }
        _ => panic!("Expected Summarize command"),
    }
    match parse("/agent fetch-papers --topic rust --link-to=[[Reading List]] --max 3").unwrap() {
        CliCommand::FetchPapers { topic, max, link_to } => {
            assert_eq!(topic, "rust");
            assert_eq!(max, 3);
            assert_eq!(link_to.as_deref(), Some("Reading List"));
        }
        _ => panic!("Expected FetchPapers command"),
    }
}

use feroha::lean_kernel::RelationType;
use feroha::translator::{LeanShapedTranslator, DEFAULT_LEAN_PROMPT};

#[test]
fn test_parse_valid_json() {
    let response = r#"{
        "propositions": [
            {
                "pid": { "id": "P1", "content_hash": "abc12345", "human_readable": "Gravity exists" },
                "content": "Gravity is a fundamental force that attracts objects with mass.",
                "source_agent_id": "scientist",
                "confidence": 0.95
            },
            {
                "pid": { "id": "P2", "content_hash": "def67890", "human_readable": "Mass bends spacetime" },
                "content": "Massive objects bend the fabric of spacetime.",
                "source_agent_id": "scientist",
                "confidence": 0.9
            }
        ],
        "relations": [
            {
                "from": { "id": "P1", "content_hash": "abc12345", "human_readable": "Gravity exists" },
                "to": { "id": "P2", "content_hash": "def67890", "human_readable": "Mass bends spacetime" },
                "relation_type": "Implies",
                "strength": 0.85
            }
        ]
    }"#;

    let result = LeanShapedTranslator::parse_response(response, "test_agent");
    assert!(
        result.success,
        "Expected successful parse, got error: {:?}",
        result.error
    );
    assert!(result.raw_response.is_some());

    let graph = result.graph.unwrap();
    assert_eq!(graph.propositions.len(), 2);
    assert_eq!(graph.propositions[0].pid.id, "P1");
    assert_eq!(
        graph.propositions[0].content,
        "Gravity is a fundamental force that attracts objects with mass."
    );
    assert_eq!(graph.propositions[1].pid.id, "P2");
    assert_eq!(graph.relations.len(), 1);
    assert_eq!(graph.relations[0].relation_type, RelationType::Implies);
    assert_eq!(graph.source_agent_id, "test_agent");
}

#[test]
fn test_parse_invalid_json() {
    let response = "this is not json at all {{{";

    let result = LeanShapedTranslator::parse_response(response, "test_agent");
    assert!(!result.success);
    assert!(result.graph.is_none());
    assert!(result.error.is_some());
    assert!(result.error.unwrap().contains("JSON parse error"));
}

#[test]
fn test_parse_empty_response() {
    let response = r#"{
        "propositions": [],
        "relations": []
    }"#;

    let result = LeanShapedTranslator::parse_response(response, "test_agent");
    assert!(!result.success);
    assert!(result.graph.is_none());
    assert_eq!(
        result.error.unwrap(),
        "No propositions extracted from response"
    );
}

#[test]
fn test_parse_markdown_wrapped_json() {
    let response = r#"Here is my analysis:

```json
{
"propositions": [
    {
        "pid": { "id": "P1", "content_hash": "hash0001", "human_readable": "Water boils at 100C" },
        "content": "Water boils at 100 degrees Celsius at sea level.",
        "source_agent_id": "verifier",
        "confidence": 0.99
    }
],
"relations": []
}
```

That's my translation."#;

    let result = LeanShapedTranslator::parse_response(response, "test_agent");
    assert!(
        result.success,
        "Expected success with markdown-wrapped JSON, got: {:?}",
        result.error
    );
    let graph = result.graph.unwrap();
    assert_eq!(graph.propositions.len(), 1);
    assert_eq!(graph.propositions[0].pid.id, "P1");
    assert_eq!(
        graph.propositions[0].content,
        "Water boils at 100 degrees Celsius at sea level."
    );
}

#[test]
fn test_parse_no_json_in_response() {
    let response = "I'm sorry, I cannot process this request.";

    let result = LeanShapedTranslator::parse_response(response, "test_agent");
    assert!(!result.success);
    assert!(result.error.unwrap().contains("No JSON found"));
}

#[test]
fn test_parse_relations_only_response() {
    let response = r#"{
        "propositions": [],
        "relations": [
            {
                "from": { "id": "P1", "content_hash": "h1", "human_readable": "A" },
                "to": { "id": "P2", "content_hash": "h2", "human_readable": "B" },
                "relation_type": "Contradicts",
                "strength": 0.7
            }
        ]
    }"#;

    let result = LeanShapedTranslator::parse_response(response, "test_agent");
    assert!(!result.success);
    assert!(result.error.unwrap().contains("No propositions extracted"));
}

#[test]
fn test_parse_unknown_relation_defaults_to_supports() {
    let response = r#"{
        "propositions": [
            {
                "pid": { "id": "P1", "content_hash": "h1", "human_readable": "Test" },
                "content": "Test content",
                "source_agent_id": "agent",
                "confidence": 0.5
            },
            {
                "pid": { "id": "P2", "content_hash": "h2", "human_readable": "Test2" },
                "content": "Test content 2",
                "source_agent_id": "agent",
                "confidence": 0.5
            }
        ],
        "relations": [
            {
                "from": { "id": "P1", "content_hash": "h1", "human_readable": "Test" },
                "to": { "id": "P2", "content_hash": "h2", "human_readable": "Test2" },
                "relation_type": "UnknownRelation",
                "strength": 0.5
            }
        ]
    }"#;

    let result = LeanShapedTranslator::parse_response(response, "test_agent");
    assert!(result.success);
    let graph = result.graph.unwrap();
    assert_eq!(graph.relations.len(), 1);
    assert_eq!(graph.relations[0].relation_type, RelationType::Supports);
}

#[test]
fn test_parse_missing_confidence_defaults() {
    let response = r#"{
        "propositions": [
            {
                "pid": { "id": "P1", "content_hash": "h1", "human_readable": "Test" },
                "content": "Test content",
                "source_agent_id": "agent"
            }
        ],
        "relations": []
    }"#;

    let result = LeanShapedTranslator::parse_response(response, "test_agent");
    assert!(result.success);
    let graph = result.graph.unwrap();
    assert_eq!(graph.propositions.len(), 1);
}
#[test]
fn test_prompt_template_default() {
    let translator = LeanShapedTranslator::new(None);
    assert_eq!(translator.prompt_template(), DEFAULT_LEAN_PROMPT);
}

#[test]
fn test_prompt_template_custom() {
    let custom = "Custom prompt".to_string();
    let translator = LeanShapedTranslator::new(Some(custom.clone()));
    assert_eq!(translator.prompt_template(), custom);
}

#[test]
fn parse_reads_missing_hash_and_label_as_empty_and_skips_incomplete_items() {
    let response = r#"{"propositions": [{"pid": {"id": "P1"}, "content": "c"}, {"pid": {"id": 3}, "content": "x"}, {"content": "y"}],
        "relations": [{"from": {"id": "P1"}, "relation_type": "Implies"}, {"from": {"id": "P1"}, "to": {"id": "P1"}, "relation_type": "DependsOn"}]}"#;
    let result = LeanShapedTranslator::parse_response(response, "a");
    let graph = result.graph.unwrap();
    assert_eq!(graph.propositions.len(), 1);
    assert_eq!(graph.propositions[0].pid.content_hash, "");
    assert_eq!(graph.propositions[0].source_agent_id, "a");
    assert_eq!(graph.relations.len(), 1);
    assert_eq!(graph.relations[0].relation_type, RelationType::DependsOn);
    assert_eq!(result.raw_response.unwrap(), response);
}

#[test]
fn parse_response_at_stamps_the_graph_with_the_given_time() {
    let response = r#"{"propositions": [{"pid": {"id": "P1"}, "content": "x"}], "relations": []}"#;
    let result = LeanShapedTranslator::parse_response_at(response, "a", 1234);
    assert!(result.success);
    assert_eq!(result.graph.unwrap().timestamp, 1234);
}

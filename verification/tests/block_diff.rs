use feroha::ast_diff::{diff_blocks, BlockMatching, ContentBlock, DiffOp, MatchType};
use feroha::block_id::generate_block_id;

fn make_block(text: &str) -> ContentBlock {
    ContentBlock {
        id: generate_block_id(text),
        text: text.to_string(),
        parent_heading: None,
        position: 0,
        links: Vec::new(),
    }
}

#[test]
fn test_same_content_no_diff() {
    let a = vec![make_block("Hello")];
    let b = vec![make_block("Hello")];
    let ops = diff_blocks(&a, &b);
    assert!(ops.is_empty());
}

#[test]
fn test_modified_block() {
    let a = vec![make_block("Hello")];
    let b = vec![make_block("Hello World")];
    let ops = diff_blocks(&a, &b);
    assert!(!ops.is_empty());
    assert!(
        ops.iter().any(|op| matches!(op, DiffOp::DeleteBlock { .. }))
            || ops.iter().any(|op| matches!(op, DiffOp::InsertBlock { .. }))
    );
}

#[test]
fn test_insert_block() {
    let a = vec![make_block("A")];
    let b = vec![make_block("A"), make_block("B")];
    let ops = diff_blocks(&a, &b);
    assert!(ops.iter().any(|op| matches!(op, DiffOp::InsertBlock { .. })));
}

#[test]
fn same_id_with_new_text_is_a_modification() {
    let a = vec![ContentBlock { id: "x".to_string(), text: "old".to_string(), parent_heading: None, position: 0, links: vec![] }];
    let b = vec![ContentBlock { id: "x".to_string(), text: "new".to_string(), parent_heading: None, position: 0, links: vec![] }];
    assert_eq!(
        diff_blocks(&a, &b),
        vec![DiffOp::ModifyBlock {
            block_id: "x".to_string(),
            old_text: "old".to_string(),
            new_text: "new".to_string()
        }]
    );
}

fn matching_block(id: &str, text: &str, position: usize) -> feroha::ast_diff::ContentBlock {
    feroha::ast_diff::ContentBlock {
        id: id.to_string(),
        text: text.to_string(),
        parent_heading: None,
        position,
        links: Vec::new(),
    }
}

#[test]
fn blocks_match_by_id_then_by_text_then_stay_unmatched() {
    let original = vec![
        matching_block("a", "alpha", 0),
        matching_block("b", "beta", 1),
        matching_block("c", "gamma", 2),
    ];
    let suggested = vec![
        matching_block("x", "beta", 0),
        matching_block("a", "changed", 1),
        matching_block("y", "new", 2),
    ];
    let mut m = BlockMatching::by_id_and_hash(&original, &suggested);
    assert!(m.original_used(0) && m.original_used(1) && !m.original_used(2));
    assert!(m.suggested_used(0) && m.suggested_used(1) && !m.suggested_used(2));
    m.record_semantic(2, 2, 0.5f32.to_bits());
    let all = m.finish();
    assert_eq!(all.len(), 3);
    assert_eq!((all[0].original_idx, all[0].suggested_idx, all[0].match_type), (Some(0), Some(1), MatchType::Exact));
    assert_eq!(all[0].confidence_bits, 1.0f32.to_bits());
    assert_eq!((all[1].original_idx, all[1].suggested_idx, all[1].match_type), (Some(1), Some(0), MatchType::ContentHash));
    assert_eq!(all[1].confidence_bits, 0.95f32.to_bits());
    assert_eq!(all[2].match_type, MatchType::Semantic { score_bits: 0.5f32.to_bits() });
}

#[test]
fn unmatched_blocks_come_suggested_first_then_original() {
    let original = vec![matching_block("a", "one", 0)];
    let suggested = vec![matching_block("b", "two", 0)];
    let all = BlockMatching::by_id_and_hash(&original, &suggested).finish();
    assert_eq!(all.len(), 2);
    assert_eq!((all[0].original_idx, all[0].suggested_idx, all[0].match_type), (None, Some(0), MatchType::Unmatched));
    assert_eq!((all[1].original_idx, all[1].suggested_idx, all[1].match_type), (Some(0), None, MatchType::Unmatched));
}

#[test]
fn diff_law_on_concrete_lists() {
    let original = vec![matching_block("a", "one", 0), matching_block("b", "two", 1)];
    let suggested = vec![matching_block("b", "two!", 0), matching_block("c", "three", 1)];
    let ops = diff_blocks(&original, &suggested);
    assert!(ops.iter().any(|o| matches!(o, DiffOp::DeleteBlock { block_id } if block_id == "a")));
    assert!(ops.iter().any(|o| matches!(o, DiffOp::InsertBlock { block_id, .. } if block_id == "c")));
    assert!(diff_blocks(&original, &original).is_empty());
}

use feroha::ast_diff::DiffOp;
use feroha::ghost::{GhostBlock, GhostNote, GhostOp, GhostStatus};
use feroha::merge::{
    apply_merge, ConflictResolver, ConflictType, MergeConflict, MergeError, Resolution,
    ResolutionStrategy,
};

fn ghost(id: &str, block_id: &str, content: &str, operation: GhostOp) -> GhostNote {
    GhostNote {
        id: id.to_string(),
        task_id: None,
        source_note: "test.md".to_string(),
        task_description: "Test".to_string(),
        suggested_blocks: vec![GhostBlock {
            block_id: block_id.to_string(),
            content: content.to_string(),
            operation,
            after_block_id: None,
            heading_context: String::new(),
            context: vec![],
            verified: None,
            verification_result: None,
        }],
        created_at: 0,
        status: GhostStatus::Pending,
        priority: 50,
        expires_at: None,
        related_ghosts: vec![],
        feedback_history: vec![],
        accepted_blocks: vec![],
        rejected_blocks: vec![],
    }
}

#[test]
fn test_simple_text_replace() {
    let original = "# Hello\n\nThis is old text.";
    let ops = vec![DiffOp::ModifyBlock {
        block_id: "test".to_string(),
        old_text: "old text".to_string(),
        new_text: "new text".to_string(),
    }];
    let result = apply_merge(original, &ops).unwrap();
    assert!(result.contains("new text"));
    assert!(!result.contains("old text"));
}

#[test]
fn test_delete_block() {
    let original = "# Hello\n\n<!--^abc123-->\nSome content here\n\nOther paragraph";
    let ops = vec![DiffOp::DeleteBlock {
        block_id: "abc123".to_string(),
    }];
    let result = apply_merge(original, &ops).unwrap();
    assert!(!result.contains("abc123"));
    assert!(!result.contains("Some content here"));
    assert!(result.contains("Other paragraph"));
}

#[test]
fn test_delete_block_at_start() {
    let original = "<!--^start-->\nFirst paragraph\n\nSecond paragraph";
    let ops = vec![DiffOp::DeleteBlock {
        block_id: "start".to_string(),
    }];
    let result = apply_merge(original, &ops).unwrap();
    assert!(!result.contains("start"));
    assert!(!result.contains("First paragraph"));
    assert!(result.contains("Second paragraph"));
}

#[test]
fn test_insert_link() {
    let original = "# Hello\n\n<!--^block1-->\nSome content\n\nOther paragraph";
    let ops = vec![DiffOp::InsertLink {
        block_id: "block1".to_string(),
        target: "target_page".to_string(),
    }];
    let result = apply_merge(original, &ops).unwrap();
    assert!(result.contains("[[target_page]]"));
    assert!(result.contains("Other paragraph"));
}

#[test]
fn test_delete_link_wiki() {
    let original = "Check [[my_link]] for details";
    let ops = vec![DiffOp::DeleteLink {
        block_id: "any".to_string(),
        target: "my_link".to_string(),
    }];
    let result = apply_merge(original, &ops).unwrap();
    assert!(!result.contains("[[my_link]]"));
    assert!(result.contains("my_link"));
}

#[test]
fn test_delete_link_wiki_alias() {
    let original = "Check [[my_link|custom text]] for details";
    let ops = vec![DiffOp::DeleteLink {
        block_id: "any".to_string(),
        target: "my_link".to_string(),
    }];
    let result = apply_merge(original, &ops).unwrap();
    assert!(!result.contains("[[my_link"));
    assert!(result.contains("custom text"));
}

#[test]
fn test_delete_link_markdown() {
    let original = "Check [click here](http://example.com) for details";
    let ops = vec![DiffOp::DeleteLink {
        block_id: "any".to_string(),
        target: "http://example.com".to_string(),
    }];
    let result = apply_merge(original, &ops).unwrap();
    assert!(!result.contains("](http://example.com)"));
    assert!(result.contains("click here"));
}

#[test]
fn merge_applies_edits_in_order_with_exact_text() {
    let original = "# Hello\n\n<!--^b1-->\nBody\n\nTail";
    let ops = vec![
        DiffOp::ModifyBlock {
            block_id: "b1".to_string(),
            old_text: "Body".to_string(),
            new_text: "New body".to_string(),
        },
        DiffOp::InsertLink {
            block_id: "b1".to_string(),
            target: "Other".to_string(),
        },
        DiffOp::InsertBlock {
            position: 9,
            block_id: "b2".to_string(),
            text: "Appended".to_string(),
        },
    ];
    assert_eq!(
        apply_merge(original, &ops).unwrap(),
        "# Hello\n\n<!--^b1-->\nNew body\n[[Other]]\n\nTail\n\nAppended"
    );
    assert_eq!(
        apply_merge("# Hello\n\n<!--^x-->\nGone\n\nStays", &[DiffOp::DeleteBlock { block_id: "x".to_string() }]).unwrap(),
        "# Hello\n\nStays"
    );
    assert_eq!(apply_merge("unchanged", &[]).unwrap(), "unchanged");
}

#[test]
fn test_conflict_detection_no_conflict() {
    let resolver = ConflictResolver::new(ResolutionStrategy::UserManual);
    let ghost_a = ghost("ghost_a", "block1", "Content A", GhostOp::Modify);
    let ghost_b = ghost("ghost_b", "block2", "Content B", GhostOp::Modify);
    let conflicts = resolver.detect_conflicts(&[ghost_a, ghost_b]);
    assert!(conflicts.is_empty());
}

#[test]
fn test_conflict_detection_overlapping() {
    let resolver = ConflictResolver::new(ResolutionStrategy::UserManual);
    let ghost_a = ghost("ghost_a", "block1", "Content A", GhostOp::Modify);
    let ghost_b = ghost("ghost_b", "block1", "Content B", GhostOp::Modify);
    let conflicts = resolver.detect_conflicts(&[ghost_a, ghost_b]);
    assert_eq!(conflicts.len(), 1);
    assert!(matches!(
        conflicts[0].conflict_type,
        ConflictType::OverlappingEdit { .. }
    ));
}

#[test]
fn conflict_detection_reports_delete_against_edit() {
    let resolver = ConflictResolver::default();
    let ghost_a = ghost("ghost_a", "block1", "", GhostOp::Delete);
    let ghost_b = ghost("ghost_b", "block1", "Content B", GhostOp::Modify);
    let conflicts = resolver.detect_conflicts(&[ghost_a, ghost_b]);
    assert_eq!(conflicts.len(), 2);
    assert_eq!(
        conflicts[1].conflict_type,
        ConflictType::ContradictorySuggestion {
            reason: "Ghost ghost_a deletes block that Ghost ghost_b modifies".to_string()
        }
    );
}

#[test]
fn test_conflict_resolver_default() {
    let resolver = ConflictResolver::default();
    assert!(matches!(resolver.strategy, ResolutionStrategy::UserManual));
}

#[test]
fn auto_merge_shows_both_sides_and_keeps_existing_resolutions() {
    let resolver = ConflictResolver::new(ResolutionStrategy::AutoMerge);
    let mut conflicts = vec![
        MergeConflict {
            block_id: "b".to_string(),
            conflict_type: ConflictType::OverlappingEdit {
                text_a: "A".to_string(),
                text_b: "B".to_string(),
            },
            ghost_a: "ga".to_string(),
            ghost_b: "gb".to_string(),
            resolution: None,
        },
        MergeConflict {
            block_id: "c".to_string(),
            conflict_type: ConflictType::ContradictorySuggestion { reason: "r".to_string() },
            ghost_a: "ga".to_string(),
            ghost_b: "gb".to_string(),
            resolution: Some(Resolution::AcceptA),
        },
    ];
    resolver.auto_resolve(&mut conflicts);
    assert_eq!(
        conflicts[0].resolution,
        Some(Resolution::MergeBoth {
            merged_text: "<<<<<<< Ghost A\nA\n=======\nB\n>>>>>>> Ghost B".to_string()
        })
    );
    assert_eq!(conflicts[1].resolution, Some(Resolution::AcceptA));
    assert_eq!(
        ConflictResolver::new(ResolutionStrategy::LastWriterWins).resolve(&conflicts[1]),
        Resolution::AcceptB
    );
}

#[test]
fn merge_error_messages() {
    assert_eq!(
        MergeError::BlockNotFound("b1".to_string()).message(),
        "Block b1 not found in original"
    );
    assert_eq!(MergeError::Conflict("b2".to_string()).message(), "Merge conflict at block b2");
}

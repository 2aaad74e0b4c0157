use feroha::bridge::BridgeProposalStatus;
use feroha::ghost::{
    accept_ghost_feedback, bridge_status_for_ghost_status, reject_ghost_blocks, status_for_counts,
    GhostBlock, GhostNote, GhostOp, GhostStatus,
};

fn block(id: &str) -> GhostBlock {
    GhostBlock {
        block_id: id.to_string(),
        content: format!("Suggested {}", id),
        operation: GhostOp::Modify,
        after_block_id: None,
        heading_context: String::new(),
        context: vec![],
        verified: None,
        verification_result: None,
    }
}

fn review(suggested: &[&str]) -> GhostNote {
    GhostNote {
        id: "ghost_1".to_string(),
        task_id: None,
        source_note: "Target.md".to_string(),
        task_description: "Tighten the note".to_string(),
        suggested_blocks: suggested.iter().map(|s| block(s)).collect(),
        created_at: 1,
        status: GhostStatus::Pending,
        priority: 50,
        expires_at: None,
        related_ghosts: vec![],
        feedback_history: vec![],
        accepted_blocks: vec![],
        rejected_blocks: vec![],
    }
}

#[test]
fn final_ghost_statuses_map_to_bridge_resolution_statuses() {
    assert_eq!(
        bridge_status_for_ghost_status(&GhostStatus::Accepted),
        Some(BridgeProposalStatus::Approved)
    );
    assert_eq!(
        bridge_status_for_ghost_status(&GhostStatus::Rejected),
        Some(BridgeProposalStatus::Rejected)
    );
    assert_eq!(bridge_status_for_ghost_status(&GhostStatus::Pending), None);
    assert_eq!(
        bridge_status_for_ghost_status(&GhostStatus::PartiallyAccepted),
        None
    );
}

#[test]
fn accepting_ghost_blocks_updates_feedback_without_merging_note_text() {
    let mut ghost = review(&["block-1"]);
    let accepted = accept_ghost_feedback(&mut ghost, &vec!["block-1".to_string()]);
    assert_eq!(accepted, 1);
    assert_eq!(ghost.accepted_blocks, vec!["block-1"]);
    assert!(matches!(ghost.status, GhostStatus::Accepted));
}

#[test]
fn accepting_ignores_unknown_and_repeated_blocks() {
    let mut ghost = review(&["a", "b"]);
    ghost.rejected_blocks.push("a".to_string());
    let accepted = accept_ghost_feedback(&mut ghost, &vec!["a".to_string(), "zzz".to_string(), "a".to_string()]);
    assert_eq!(accepted, 1);
    assert_eq!(ghost.accepted_blocks, vec!["a"]);
    assert!(ghost.rejected_blocks.is_empty());
    assert_eq!(ghost.status, GhostStatus::PartiallyAccepted);
}

#[test]
fn rejecting_without_a_list_rejects_every_suggested_block() {
    let mut ghost = review(&["a", "b"]);
    accept_ghost_feedback(&mut ghost, &vec!["a".to_string()]);
    let rejected = reject_ghost_blocks(&mut ghost, None);
    assert_eq!(rejected, 2);
    assert_eq!(ghost.rejected_blocks, vec!["a", "b"]);
    assert!(ghost.accepted_blocks.is_empty());
    assert_eq!(ghost.status, GhostStatus::Rejected);
}

#[test]
fn review_status_follows_the_counts() {
    assert_eq!(status_for_counts(0, 0, 0), GhostStatus::Pending);
    assert_eq!(status_for_counts(2, 0, 0), GhostStatus::Pending);
    assert_eq!(status_for_counts(2, 1, 0), GhostStatus::PartiallyAccepted);
    assert_eq!(status_for_counts(2, 2, 0), GhostStatus::Accepted);
    assert_eq!(status_for_counts(2, 0, 2), GhostStatus::Rejected);
}

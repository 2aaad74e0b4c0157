use feroha::context::{ContextFragment, ContextLayer, ContextSource};
use feroha::ghost::{
    ConflictSeverity, ConflictType, GhostBlock, GhostNote, GhostOp, GhostStatus, GhostStore,
};
use feroha::lean_kernel::{Proposition, PropositionGraph, PropositionId, PropositionRelation, RelationType};

fn fragment(key: &str, value: &str) -> ContextFragment {
    let v: serde_json::Value = serde_json::from_str(value).unwrap();
    ContextFragment {
        id: key.to_string(),
        key: key.to_string(),
        hash: ContextFragment::compute_hash(key, &v),
        value: v,
        source: ContextSource::Agent,
        layer: ContextLayer::Session,
        created_at: 0,
        ttl: None,
    }
}

fn ghost(id: &str, source: &str, context: Vec<ContextFragment>) -> GhostNote {
    GhostNote {
        id: id.to_string(),
        task_id: None,
        source_note: source.to_string(),
        task_description: "t".to_string(),
        suggested_blocks: vec![GhostBlock {
            block_id: format!("{}-b", id),
            content: "c".to_string(),
            operation: GhostOp::Insert,
            after_block_id: None,
            heading_context: String::new(),
            context,
            verified: None,
            verification_result: None,
        }],
        created_at: 0,
        status: GhostStatus::Pending,
        priority: 50,
        expires_at: None,
        related_ghosts: vec![],
        feedback_history: vec![],
        accepted_blocks: vec![],
        rejected_blocks: vec![],
    }
}

#[test]
fn ghost_store_paths() {
    let store = GhostStore::new("/v/.dualtrack");
    assert_eq!(store.store_dir(), "/v/.dualtrack/ghosts");
    assert_eq!(store.ghost_file_path("ghost_1"), "/v/.dualtrack/ghosts/ghost_1.json");
}

#[test]
fn conflicts_group_ghosts_by_note_and_rate_drift() {
    let store = GhostStore::new("/v/.dualtrack");
    let ghosts = vec![
        ghost("g1", "A.md", vec![fragment("k", "1"), fragment("j", "1")]),
        ghost("g2", "B.md", vec![]),
        ghost("g3", "A.md", vec![fragment("k", "2"), fragment("j", "1")]),
        ghost("g4", "A.md", vec![]),
    ];
    let reports = store.detect_conflicts(&ghosts, None);
    assert_eq!(reports.len(), 2);
    assert_eq!(reports[0].source_note, "A.md");
    assert_eq!(reports[0].severity, ConflictSeverity::Warning);
    assert_eq!(reports[0].conflicting_ghosts[0].ghost_ids, vec!["g1", "g3", "g4"]);
    assert_eq!(reports[0].conflicting_ghosts[0].conflict_type, ConflictType::SameTarget);
    assert_eq!(reports[1].conflicting_ghosts[0].ghost_ids, vec!["g1", "g3"]);
    assert_eq!(reports[1].conflicting_ghosts[0].conflict_type, ConflictType::OverlappingBlocks);
    assert_eq!(reports[1].severity, ConflictSeverity::Warning);
    assert!(store.detect_conflicts(&ghosts, Some("B.md")).is_empty());
}

fn pid(id: &str) -> PropositionId {
    PropositionId { id: id.to_string(), content_hash: id.to_string(), human_readable: id.to_string() }
}

#[test]
fn failed_verification_blocks_the_ghost() {
    let store = GhostStore::new("/v/.dualtrack");
    let graph = PropositionGraph {
        propositions: vec![Proposition { pid: pid("A"), content: "A".to_string(), source_agent_id: "x".to_string() }],
        relations: vec![PropositionRelation { from: pid("A"), to: pid("B"), relation_type: RelationType::Implies }],
        source_agent_id: "x".to_string(),
        timestamp: 0,
    };
    let mut g = Some(ghost("g1", "A.md", vec![]));
    let result = store.verify_ghost(&mut g, &graph);
    assert!(!result.passed);
    let g = g.unwrap();
    assert_eq!(g.suggested_blocks[0].verified, Some(false));
    assert!(g.suggested_blocks[0].verification_result.is_some());
    assert_eq!(g.status, GhostStatus::Blocked { reason: "Verification failed: 1 violations".to_string() });
    let mut none: Option<GhostNote> = None;
    assert!(!store.verify_ghost(&mut none, &graph).passed);
}

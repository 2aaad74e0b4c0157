use feroha::bridge::{
    BridgeProposalSource, BridgeProposalStatus, EvidenceKind, ImpactScope, ProposalActionKind,
    ProposalRisk, SourceRefKind,
};
use feroha::proposals::{BridgeProposal, TrustSnapshot};

fn json(text: &str) -> serde_json::Value {
    serde_json::from_str(text).unwrap()
}

#[test]
fn task_proposal_contains_approve_action() {
    let proposal =
        BridgeProposal::for_task("task_1", "Research Bayes", TrustSnapshot::default(), 1);

    assert_eq!(proposal.source, BridgeProposalSource::Tool);
    assert_eq!(proposal.source_ref.id, "task_1");
    assert!(proposal
        .actions
        .iter()
        .any(|action| action.kind == ProposalActionKind::ApproveTask));
}

#[test]
fn ghost_proposal_is_high_risk_when_it_modifies_note() {
    let proposal =
        BridgeProposal::for_ghost("ghost_1", "Target.md", 3, TrustSnapshot::default(), 1);

    assert_eq!(proposal.source, BridgeProposalSource::GhostNote);
    assert_eq!(proposal.risk, ProposalRisk::High);
    assert!(proposal
        .actions
        .iter()
        .any(|action| action.kind == ProposalActionKind::OpenDiff));
}

#[test]
fn scientist_proposal_is_high_risk_with_violations() {
    let proposal = BridgeProposal::for_scientist_result(
        "task_1",
        "Deep research",
        4,
        1,
        vec!["Note.md".to_string()],
        TrustSnapshot::default(),
        1,
    );

    assert_eq!(proposal.source, BridgeProposalSource::Scientist);
    assert_eq!(proposal.risk, ProposalRisk::High);
}

#[test]
fn dream_proposal_groups_insights_without_write_impact() {
    let proposal = BridgeProposal::for_dream_cycle(
        "dream_1",
        2,
        vec!["A.md".to_string()],
        TrustSnapshot::default(),
        1,
    );

    assert_eq!(proposal.source, BridgeProposalSource::Dream);
    assert_eq!(proposal.risk, ProposalRisk::Low);
    assert!(!proposal.impact.modifies_notes);
}

#[test]
fn scheduler_proposal_uses_scheduler_source_with_task_actions() {
    let proposal =
        BridgeProposal::for_scheduler_task("task_1", "dream-auto", TrustSnapshot::default(), 1);

    assert_eq!(proposal.source, BridgeProposalSource::Scheduler);
    assert_eq!(proposal.source_ref.kind, SourceRefKind::SchedulerJob);
    assert_eq!(proposal.source_ref.id, "task_1");
    assert!(proposal
        .actions
        .iter()
        .any(|action| action.kind == ProposalActionKind::ApproveTask));
    assert!(proposal
        .actions
        .iter()
        .any(|action| action.kind == ProposalActionKind::Reject));
}

#[test]
fn risk_classifier_is_conservative() {
    assert_eq!(
        BridgeProposal::classify_risk(
            &ImpactScope {
                modifies_notes: true,
                ..ImpactScope::default()
            },
            false,
        ),
        ProposalRisk::High
    );
    assert_eq!(
        BridgeProposal::classify_risk(
            &ImpactScope {
                exports_data: true,
                ..ImpactScope::default()
            },
            false,
        ),
        ProposalRisk::High
    );
    assert_eq!(
        BridgeProposal::classify_risk(
            &ImpactScope {
                external_side_effect: true,
                ..ImpactScope::default()
            },
            false,
        ),
        ProposalRisk::High
    );
    assert_eq!(
        BridgeProposal::classify_risk(&ImpactScope::default(), true),
        ProposalRisk::High
    );
    assert_eq!(
        BridgeProposal::classify_risk(
            &ImpactScope {
                notes: vec!["a.md".to_string(), "b.md".to_string()],
                ..ImpactScope::default()
            },
            false,
        ),
        ProposalRisk::Medium
    );
    assert_eq!(
        BridgeProposal::classify_risk(
            &ImpactScope {
                creates_files: true,
                ..ImpactScope::default()
            },
            false,
        ),
        ProposalRisk::Medium
    );
    assert_eq!(
        BridgeProposal::classify_risk(&ImpactScope::default(), false),
        ProposalRisk::Low
    );
}

#[test]
fn proposal_texts_ids_and_payloads() {
    let ghost = BridgeProposal::for_ghost("ghost_1", "Target.md", 3, TrustSnapshot::default(), 7);
    assert!(ghost.id.starts_with("bridge_"));
    assert_eq!(ghost.id.len(), 7 + 32);
    assert!(!ghost.id[7..].contains('-'));
    assert_eq!(ghost.intent, "审阅 3 个 Ghost 建议块");
    assert_eq!(ghost.summary, "AI 为 `Target.md` 创建了 3 个待审阅建议块。");
    assert_eq!(ghost.status, BridgeProposalStatus::Pending);
    assert_eq!(ghost.created_at, 7);
    assert_eq!(ghost.actions[0].payload, json(r#"{"ghost_id": "ghost_1"}"#));
    assert_eq!(ghost.evidence[0].kind, EvidenceKind::Diff);
    assert_eq!(ghost.source_ref.path.as_deref(), Some("Target.md"));

    let sched = BridgeProposal::for_scheduler_task("task_1", "dream-auto", TrustSnapshot::default(), 1);
    assert_eq!(sched.intent, "审查定时任务: dream-auto");
    assert_eq!(sched.summary, "Scheduler 触发了 `dream-auto`，需要人类确认后执行。");
    assert_eq!(
        sched.actions[0].payload,
        json(r#"{"task_id": "task_1", "job_id": "dream-auto"}"#)
    );

    let sci = BridgeProposal::for_scientist_result("t", "Topic", 4, 0, vec!["A.md".to_string(), "B.md".to_string()], TrustSnapshot::default(), 1);
    assert_eq!(sci.risk, ProposalRisk::Medium);
    assert_eq!(sci.summary, "Scientist 提取了 4 条 claims，发现 0 个验证问题。");
    assert_eq!(sci.evidence[0].excerpt.as_deref(), Some("claims=4, violations=0"));
    assert_eq!(sci.actions[1].payload, json("{}"));

    let dream = BridgeProposal::for_dream_cycle("d", 2, vec![], TrustSnapshot::default(), 1);
    assert_eq!(dream.summary, "Dream cycle 生成了 2 条可回看洞察。");
    assert_eq!(dream.evidence[0].excerpt.as_deref(), Some("insights=2"));

    let t = TrustSnapshot::default();
    assert_eq!(f32::from_bits(t.score_bits), 0.5);
    assert_eq!(t.recommended_mode, "manual");
}

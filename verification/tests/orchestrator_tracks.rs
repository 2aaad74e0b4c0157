use feroha::dispatch::{NetworkPolicy, SandboxPolicy};
use feroha::orchestrator::{
    audit_decision, build_track_prompt, format_reasons, is_regressive_reason, track_count,
    track_details, track_focuses, track_packets, AuditAction, OrchestratorEvent,
    OrchestratorEventType,
};
use feroha::regression::EpochEndReason;

fn verify_sandbox() -> SandboxPolicy {
    SandboxPolicy {
        network_policy: NetworkPolicy::Disabled,
        max_runtime_secs: 600,
        requires_bridge: true,
        tool_allowlist: vec!["proposition_kernel".to_string(), "read_note".to_string()],
        read_roots: vec!["**/*.md".to_string()],
        write_roots: vec![],
    }
}

fn event(agent: &str, event_type: OrchestratorEventType) -> OrchestratorEvent {
    OrchestratorEvent {
        epoch: 1,
        agent_id: agent.to_string(),
        event_type,
        timestamp: 7,
        detail: None,
    }
}

#[test]
fn test_spawn_parallel_tracks() {
    let packets = track_packets("agent1", "intent", &vec!["claim1".to_string()], &vec![], &verify_sandbox());
    assert_eq!(packets.len(), 3, "Should spawn exactly 3 tracks");
    assert_eq!(packets[0].track_id, "agent1_track_0");
    assert_eq!(packets[1].track_id, "agent1_track_1");
    assert_eq!(packets[2].track_id, "agent1_track_2");
}

#[test]
fn test_spawn_parallel_track_packets_include_materials_and_sandbox() {
    let packets = track_packets(
        "agent1",
        "Audit Bayesian note",
        &vec!["Claim A: posterior updates prior".to_string()],
        &vec!["Bayes.md#intro".to_string()],
        &verify_sandbox(),
    );

    assert_eq!(packets.len(), 3);
    assert_eq!(packets[0].track_id, "agent1_track_0");
    assert_eq!(packets[0].parent_task_id, "agent1");
    assert_eq!(packets[0].focus, "correctness");
    assert!(packets[0].prompt.contains("Claim A"));
    assert_eq!(packets[0].source_refs, vec!["Bayes.md#intro"]);
    assert!(packets[0].sandbox_policy.allows_tool("proposition_kernel"));
    assert!(!packets[0].sandbox_policy.allows_tool("ghost_write"));
    assert!(packets[0].sandbox_policy.write_roots.is_empty());
}

#[test]
fn test_status_track_count() {
    let events = vec![event("agent1", OrchestratorEventType::ParallelTracksSpawned)];
    assert_eq!(track_count(&events), 1, "Track count should reflect spawned tracks");
}

#[test]
fn track_count_subtracts_finished_tracks_and_never_goes_negative() {
    let events = vec![
        event("a", OrchestratorEventType::ParallelTracksSpawned),
        event("a", OrchestratorEventType::ParallelTracksSpawned),
        event("a_track_0", OrchestratorEventType::TrackCompleted),
        event("a", OrchestratorEventType::AuditPassed),
    ];
    assert_eq!(track_count(&events), 1);
    let ended = vec![
        event("a_track_0", OrchestratorEventType::TrackFailed),
        event("a_track_1", OrchestratorEventType::TrackCancelled),
        event("a", OrchestratorEventType::ParallelTracksSpawned),
    ];
    assert_eq!(track_count(&ended), 0);
}

#[test]
fn track_details_lists_finished_tracks_in_order() {
    let events = vec![
        event("a", OrchestratorEventType::ParallelTracksSpawned),
        event("a_track_0", OrchestratorEventType::TrackCompleted),
        event("a_track_1", OrchestratorEventType::TrackCancelled),
        event("a_track_2", OrchestratorEventType::TrackFailed),
    ];
    let details = track_details(&events);
    assert_eq!(details.len(), 2);
    assert_eq!(details[0].track_id, "a_track_0");
    assert_eq!(details[0].status, "completed");
    assert_eq!(details[0].parent_agent, "a_track_0");
    assert_eq!(details[0].focus, "");
    assert_eq!(details[1].track_id, "a_track_2");
    assert_eq!(details[1].status, "failed");
}

#[test]
fn regressive_reasons_are_plateaus_risk_loops_and_budget() {
    assert!(is_regressive_reason(&EpochEndReason::NoveltyPlateau));
    assert!(is_regressive_reason(&EpochEndReason::EvidencePlateau));
    assert!(is_regressive_reason(&EpochEndReason::ToolLoop));
    assert!(is_regressive_reason(&EpochEndReason::ContradictionRiskHigh));
    assert!(is_regressive_reason(&EpochEndReason::BudgetExhausted));
    assert!(!is_regressive_reason(&EpochEndReason::DreamCoverageReached));
    assert!(!is_regressive_reason(&EpochEndReason::HumanInterrupted));
}

#[test]
fn reasons_are_joined_by_commas_or_none() {
    assert_eq!(format_reasons(&vec![]), "none");
    assert_eq!(
        format_reasons(&vec![EpochEndReason::NoveltyPlateau, EpochEndReason::ToolLoop]),
        "novelty_plateau,tool_loop"
    );
    assert_eq!(format_reasons(&vec![EpochEndReason::BudgetExhausted]), "budget_exhausted");
}

#[test]
fn audit_before_auditing_starts_is_healthy() {
    let d = audit_decision(true, true, false, true, 0, 3);
    assert_eq!(d.action, AuditAction::Healthy);
    assert_eq!(d.regression_count, None);
}

#[test]
fn consecutive_regressions_terminate_with_auto_terminate() {
    let first = audit_decision(false, true, false, true, 0, 2);
    assert_eq!(first.action, AuditAction::Degraded);
    assert_eq!(first.regression_count, Some(1));
    assert!(first.degrade);
    let second = audit_decision(false, true, false, true, 1, 2);
    assert_eq!(second.action, AuditAction::Terminated);
    assert_eq!(second.regression_count, Some(2));
    assert!(second.start_cooldown);
}

#[test]
fn regression_only_degrades_without_auto_terminate() {
    let d = audit_decision(false, true, false, false, 5, 2);
    assert_eq!(d.action, AuditAction::Degraded);
    assert_eq!(d.regression_count, None);
    assert!(!d.degrade);
    assert!(!d.start_cooldown);
}

#[test]
fn cooldown_skips_the_audit() {
    let d = audit_decision(false, true, true, true, 4, 2);
    assert_eq!(d.action, AuditAction::Cooldown);
    assert!(!d.degrade);
}

#[test]
fn healthy_epoch_resets_regression_count() {
    let d = audit_decision(false, false, false, true, 1, 3);
    assert_eq!(d.action, AuditAction::Healthy);
    assert_eq!(d.regression_count, Some(0));
}

#[test]
fn track_prompt_lists_claims_and_sources_or_says_none() {
    let p = build_track_prompt("correctness", "Check it", &vec![], &vec!["S.md".to_string()], "t1", "Why");
    assert_eq!(
        p,
        "Orchestrator material packet\n\nParent task: t1\nIntent: Why\nFocus: correctness\nInstruction: Check it\n\nClaims:\n- No claims extracted\n\nSources:\n- S.md\n\nReturn a verification report. Do not edit files directly."
    );
    let focuses = track_focuses();
    assert_eq!(focuses.len(), 3);
    assert_eq!(focuses[1].0, "consistency");
    assert_eq!(focuses[2].0, "verification");
}

use feroha::bridge::{
    listed_status, plan_bridge_action, status_after_handler, store_for_dualtrack_dir,
    ActionHandler, ActionPlan, BridgeProposalStatus, BridgeProposalStore, ProposalAction,
    ProposalActionKind, SourceRef, SourceRefKind,
};

fn action(id: &str, kind: ProposalActionKind, payload: &str) -> ProposalAction {
    ProposalAction {
        id: id.to_string(),
        label: id.to_string(),
        kind,
        payload: serde_json::from_str(payload).unwrap(),
    }
}

fn task_source() -> SourceRef {
    SourceRef { kind: SourceRefKind::Task, id: "task_1".to_string(), path: None }
}

#[test]
fn execute_archive_action_updates_status() {
    let plan = plan_bridge_action("p1", BridgeProposalStatus::Pending, &task_source(),
        &action("archive", ProposalActionKind::Archive, "{}"), false, false, false);
    assert_eq!(plan, ActionPlan::Update { status: BridgeProposalStatus::Archived, handler: None, error_after: None });
}

#[test]
fn approve_task_rejects_payload_source_mismatch() {
    let plan = plan_bridge_action("p1", BridgeProposalStatus::Pending, &task_source(),
        &action("approve", ProposalActionKind::ApproveTask, r#"{"task_id": "task_2"}"#), true, false, false);
    match plan {
        ActionPlan::Fail(error) => assert!(error.contains("does not match proposal source")),
        _ => panic!("expected a refusal"),
    }
}

#[test]
fn approved_proposals_cannot_execute_approval_again() {
    let plan = plan_bridge_action("p1", BridgeProposalStatus::Approved, &task_source(),
        &action("approve", ProposalActionKind::ApproveTask, r#"{"task_id": "task_1"}"#), true, false, false);
    assert_eq!(
        plan,
        ActionPlan::Fail("Bridge proposal p1 is Approved; cannot execute action approve".to_string())
    );
}

#[test]
fn reject_ghost_invokes_ghost_reject_handler() {
    let source = SourceRef { kind: SourceRefKind::GhostNote, id: "ghost_1".to_string(), path: Some("Target.md".to_string()) };
    let plan = plan_bridge_action("p1", BridgeProposalStatus::Pending, &source,
        &action("reject", ProposalActionKind::Reject, r#"{"ghost_id": "ghost_1"}"#), false, true, true);
    assert_eq!(plan, ActionPlan::Update {
        status: BridgeProposalStatus::Rejected,
        handler: Some(ActionHandler::RejectGhost),
        error_after: None
    });
}

#[test]
fn approval_paths_and_navigation() {
    let ok = plan_bridge_action("p1", BridgeProposalStatus::Pending, &task_source(),
        &action("approve", ProposalActionKind::ApproveTask, r#"{"task_id": "task_1"}"#), true, false, false);
    assert_eq!(ok, ActionPlan::Update { status: BridgeProposalStatus::Approved, handler: Some(ActionHandler::ApproveTask), error_after: None });
    let no_handler = plan_bridge_action("p1", BridgeProposalStatus::Pending, &task_source(),
        &action("approve", ProposalActionKind::ApproveTask, r#"{"task_id": "task_1"}"#), false, false, false);
    assert_eq!(no_handler, ActionPlan::Update {
        status: BridgeProposalStatus::Approved,
        handler: None,
        error_after: Some("approve_task action requires an approval handler".to_string())
    });
    let missing = plan_bridge_action("p1", BridgeProposalStatus::Pending, &task_source(),
        &action("approve", ProposalActionKind::ApproveTask, "{}"), true, false, false);
    assert_eq!(missing, ActionPlan::Fail("approve_task action missing task_id".to_string()));
    let nav = plan_bridge_action("p1", BridgeProposalStatus::Pending, &task_source(),
        &action("open", ProposalActionKind::OpenDiff, r#"{"ghost_id": "g9"}"#), false, false, false);
    assert_eq!(nav, ActionPlan::Navigate { target_panel: "diff".to_string(), target_id: "g9".to_string() });
    let trace = plan_bridge_action("p1", BridgeProposalStatus::Pending, &task_source(),
        &action("trace", ProposalActionKind::OpenTrace, "{}"), false, false, false);
    assert_eq!(trace, ActionPlan::Navigate { target_panel: "tasks".to_string(), target_id: "task_1".to_string() });
    let apply = plan_bridge_action("p1", BridgeProposalStatus::Pending, &task_source(),
        &action("apply", ProposalActionKind::ApplyGhost, "{}"), false, false, false);
    assert!(matches!(apply, ActionPlan::Fail(_)));
    assert_eq!(status_after_handler(BridgeProposalStatus::Rejected, false), BridgeProposalStatus::Pending);
    assert_eq!(status_after_handler(BridgeProposalStatus::Rejected, true), BridgeProposalStatus::Rejected);
}

#[test]
fn store_paths_and_listing_filter() {
    assert_eq!(store_for_dualtrack_dir("/v/.dualtrack").root(), "/v/.dualtrack/bridge");
    assert_eq!(BridgeProposalStore::new("/v/b/").file_path(), "/v/b/proposals.json");
    assert!(listed_status(BridgeProposalStatus::Pending, None));
    assert!(!listed_status(BridgeProposalStatus::Archived, None));
    assert!(listed_status(BridgeProposalStatus::Archived, Some(BridgeProposalStatus::Archived)));
    assert!(!listed_status(BridgeProposalStatus::Pending, Some(BridgeProposalStatus::Approved)));
}

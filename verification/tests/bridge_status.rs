use feroha::bridge::{
    parse_direct_status_update, parse_status, source_ref_is_task_like, BridgeProposalStatus,
    SourceRefKind,
};

#[test]
fn parse_status_rejects_unknown_values() {
    assert!(parse_status("pending").is_ok());
    assert!(parse_status("archived").is_ok());
    assert!(parse_status("nonsense").is_err());
}

#[test]
fn direct_status_update_rejects_execution_states() {
    assert!(parse_direct_status_update("archived").is_ok());
    assert!(parse_direct_status_update("rejected").is_err());
    assert!(parse_direct_status_update("approved").is_err());
    assert!(parse_direct_status_update("applied").is_err());
}

#[test]
fn parse_status_ignores_ascii_case_and_quotes_unknown_names() {
    assert_eq!(parse_status("ApPrOvEd").unwrap(), BridgeProposalStatus::Approved);
    assert_eq!(
        parse_status("Nonsense").unwrap_err(),
        "Unknown bridge proposal status: Nonsense"
    );
}

#[test]
fn status_names_read_back() {
    for status in [
        BridgeProposalStatus::Pending,
        BridgeProposalStatus::Approved,
        BridgeProposalStatus::Rejected,
        BridgeProposalStatus::Applied,
        BridgeProposalStatus::Archived,
    ] {
        assert_eq!(BridgeProposalStatus::parse(status.as_str()).unwrap(), status);
    }
}

#[test]
fn direct_status_update_names_the_refused_status() {
    assert_eq!(
        parse_direct_status_update("approved").unwrap_err(),
        "Bridge proposal status 'approved' requires a bridge action"
    );
    assert_eq!(
        parse_direct_status_update("ARCHIVED").unwrap(),
        BridgeProposalStatus::Archived
    );
}

#[test]
fn task_like_sources_are_tasks_and_scheduler_jobs() {
    assert!(source_ref_is_task_like(&SourceRefKind::Task));
    assert!(source_ref_is_task_like(&SourceRefKind::SchedulerJob));
    assert!(!source_ref_is_task_like(&SourceRefKind::GhostNote));
    assert!(!source_ref_is_task_like(&SourceRefKind::ToolCall));
}

use feroha::audit_ledger::{AuditLedger, AuditThresholds};
use feroha::orchestrator::{AuditAction, OrchestratorEventType};
use feroha::regression::EpochEndReason;

fn thresholds() -> AuditThresholds {
    AuditThresholds {
        min_epoch_before_audit: 2,
        auto_terminate: true,
        max_consecutive_regressions: 2,
        termination_cooldown_ms: 1000,
    }
}

#[test]
fn early_epochs_pass_without_measuring() {
    let mut l = AuditLedger::new();
    let a = l.audit_epoch("agent", true, &vec![EpochEndReason::ToolLoop], "m", &thresholds(), 10);
    assert_eq!(a, AuditAction::Healthy);
    assert_eq!(l.epoch_count(), 1);
    assert_eq!(l.agent("agent").epochs, 1);
    assert_eq!(l.events().len(), 1);
    assert_eq!(l.events()[0].event_type, OrchestratorEventType::AuditPassed);
    assert_eq!(l.events()[0].detail, None);
    assert_eq!(l.events()[0].timestamp, 10);
}

#[test]
fn consecutive_regressions_degrade_then_terminate_with_cooldown() {
    let mut l = AuditLedger::new();
    let th = thresholds();
    assert_eq!(l.audit_epoch("a", false, &vec![], "m", &th, 1), AuditAction::Healthy);
    let second = l.audit_epoch("a", false, &vec![EpochEndReason::NoveltyPlateau], "semantic=0.900", &th, 2);
    assert_eq!(second, AuditAction::Degraded);
    assert_eq!(l.agent("a").regression_count, 1);
    assert_eq!(l.degraded_agents(), vec!["a".to_string()]);
    let ev = l.events();
    assert_eq!(ev.len(), 3);
    assert_eq!(ev[1].event_type, OrchestratorEventType::RegressionDetected);
    assert_eq!(ev[1].detail.as_deref(), Some("semantic=0.900 reasons=novelty_plateau"));
    assert_eq!(ev[1].epoch, 2);
    assert_eq!(ev[2].event_type, OrchestratorEventType::AgentDegraded);
    let third = l.audit_epoch("a", true, &vec![], "x", &th, 3);
    assert_eq!(third, AuditAction::Terminated);
    assert_eq!(l.agent("a").cooldown_until, Some(1003));
    assert_eq!(l.agent("a").regression_count, 2);
    assert!(l.is_in_cooldown("a", 1002));
    assert!(!l.is_in_cooldown("a", 1003));
    assert_eq!(l.audit_epoch("a", true, &vec![], "x", &th, 500), AuditAction::Cooldown);
    assert_eq!(l.events().len(), 4);
}

#[test]
fn healthy_epoch_clears_regressions_and_logs_reasons() {
    let mut l = AuditLedger::new();
    let th = thresholds();
    l.audit_epoch("a", false, &vec![], "m", &th, 1);
    l.audit_epoch("a", true, &vec![], "m", &th, 2);
    assert_eq!(l.agent("a").regression_count, 1);
    let r = l.audit_epoch("a", false, &vec![EpochEndReason::DreamCoverageReached], "m", &th, 3);
    assert_eq!(r, AuditAction::Healthy);
    assert_eq!(l.agent("a").regression_count, 0);
    let last = l.events().last().unwrap().clone();
    assert_eq!(last.event_type, OrchestratorEventType::AuditPassed);
    assert_eq!(last.detail.as_deref(), Some("reasons=dream_coverage_reached"));
}

#[test]
fn without_auto_terminate_a_regression_only_reports_degraded() {
    let mut l = AuditLedger::new();
    let th = AuditThresholds { auto_terminate: false, min_epoch_before_audit: 0, ..thresholds() };
    assert_eq!(l.audit_epoch("a", true, &vec![], "m", &th, 1), AuditAction::Degraded);
    assert!(l.degraded_agents().is_empty());
    assert_eq!(l.agent("a").regression_count, 0);
}

#[test]
fn manual_termination_and_reinstatement() {
    let mut l = AuditLedger::new();
    assert!(l.terminate_agent("a", 50, 100));
    assert!(!l.terminate_agent("a", 50, 100));
    assert!(l.is_in_cooldown("a", 120));
    assert_eq!(l.events()[0].detail.as_deref(), Some("Manually terminated"));
    assert!(l.reinstate_agent("a", 130));
    assert!(!l.is_in_cooldown("a", 120));
    assert!(l.degraded_agents().is_empty());
    assert_eq!(l.events()[1].detail.as_deref(), Some("Manually reinstated"));
    assert!(!l.reinstate_agent("a", 140));
    assert!(l.degrade_agent("b", 1));
    assert!(!l.degrade_agent("b", 2));
}

use feroha::runtime_service::{
    begin_task_completion, fail_unverified_step, open_dispatch, promote_verified_step,
    record_completion, record_dispatch_queued, record_dispatch_unsupported, record_task_failure,
    record_task_running, recoverable_dispatches, repair_runtime_events, sync_task_status,
    task_source_refs, render_semantic_workflow_memory, CompletionObservation, ResultEntry, SchedulerTaskStatus,
};
use feroha::runtime_events::WorkflowRuntimeEventChain;
use feroha::workflow::{
    AgentRegistry, AgentRegistryEntry, ArtifactRef, ArtifactType, ControlPolicy, GoalAlignment,
    GoalContract, RetentionPolicy, RetryPolicy, RunStatus, StepReportStatus, VerificationOutcome,
    WorkflowError, WorkflowIr, WorkflowRunState, WorkflowStatus, WorkflowStep, WorkflowStepKind,
    WorkflowStepMode, WorkflowStepStatus,
};
use feroha::workflow_runtime::{
    WorkflowDispatchRecord, WorkflowDispatchStatus, WorkflowRuntimeBundle, WorkflowTaskContext,
};

fn json(text: &str) -> serde_json::Value {
    serde_json::from_str(text).unwrap()
}

fn goal() -> GoalContract {
    GoalContract {
        goal_id: "goal_research".to_string(),
        goal_text: "Map the evidence".to_string(),
        success_definition: vec!["Evidence is mapped".to_string()],
        non_goals: vec![],
        constraints: json("{}"),
        context_scope: vec![],
        approval_policy: json("{}"),
        budget: json("{}"),
        created_at: "1".to_string(),
    }
}

fn registry() -> AgentRegistry {
    AgentRegistry::from_agents(vec![AgentRegistryEntry {
        agent_type: "researcher".to_string(),
        allowed_tools: vec!["WebSearch".to_string()],
        denied_tools: vec![],
        default_mode: WorkflowStepMode::ReadOnly,
        max_parallelism: 1,
        can_delegate: false,
    }])
}

fn research_step() -> WorkflowStep {
    WorkflowStep {
        step_id: "S001".to_string(),
        title: "Research".to_string(),
        kind: WorkflowStepKind::Research,
        agent_type: "researcher".to_string(),
        mode: WorkflowStepMode::ReadOnly,
        task: "Map Bayesian evidence".to_string(),
        inputs: json("{}"),
        dependencies: vec![],
        acceptance_criteria: vec!["A dispatch record is persisted".to_string()],
        goal_alignment: GoalAlignment {
            success_clauses: vec![0],
            why_necessary: "Evidence first".to_string(),
        },
        retry_policy: RetryPolicy { max_attempts: 1, backoff_ms: 0 },
        status: WorkflowStepStatus::Ready,
    }
}

fn bundle() -> WorkflowRuntimeBundle {
    let workflow = WorkflowIr {
        workflow_id: "wf_research".to_string(),
        goal_id: "goal_research".to_string(),
        version: 1,
        parent_version: None,
        status: WorkflowStatus::Running,
        global_context: json("{}"),
        control_policy: ControlPolicy {
            max_parallel_steps: 1,
            replan_on_verification_fail: true,
            max_patch_chain: 1,
        },
        steps: vec![research_step()],
        created_by: "orchestrator".to_string(),
        created_at: "1".to_string(),
    };
    let run = WorkflowRunState::for_workflow("run_a", &workflow, "100");
    WorkflowRuntimeBundle {
        goal: goal(),
        workflow,
        run,
        registry: registry(),
        dispatches: vec![],
        artifacts: vec![],
        step_reports: vec![],
        verification_findings: vec![],
        updated_at: "100".to_string(),
    }
}

fn context() -> WorkflowTaskContext {
    WorkflowTaskContext {
        workflow_id: "wf_research".to_string(),
        run_id: "run_a".to_string(),
        step_id: "S001".to_string(),
        attempt: 1,
        acceptance_criteria: vec!["A dispatch record is persisted".to_string()],
    }
}

fn names(chain: &WorkflowRuntimeEventChain) -> Vec<String> {
    chain.events.iter().map(|e| e.event_name.clone()).collect()
}

/// A run whose research step was dispatched and queued as `task_1`.
fn queued_bundle() -> (WorkflowRuntimeBundle, feroha::dispatch::StepDispatch) {
    let mut b = bundle();
    let dispatch = b.run.ready_dispatches(&b.workflow, &b.registry).unwrap().remove(0);
    let (dispatch, chain) = open_dispatch(&mut b, dispatch, 110);
    assert_eq!(names(&chain.unwrap()), vec!["workflow.step.dispatched"]);
    record_dispatch_queued(&mut b, &dispatch, "task_1", 120).unwrap();
    (b, dispatch)
}

fn working_artifact() -> ArtifactRef {
    ArtifactRef {
        artifact_id: "working_task_1".to_string(),
        artifact_type: ArtifactType::Other,
        uri: ".dualtrack/research/results/task_1/result.md".to_string(),
        hash: "abc".to_string(),
        mime_type: "text/markdown".to_string(),
        producer_step_id: "S001".to_string(),
        retention_policy: RetentionPolicy::Run,
        created_at: "200".to_string(),
    }
}

fn observation(entries: Vec<ResultEntry>) -> CompletionObservation {
    CompletionObservation {
        working_artifact: Some(working_artifact()),
        result_content: Some(
            "## Findings\n\nEvidence-backed conclusion.\n\n## Acceptance Check\n\n- [x] A dispatch record is persisted"
                .to_string(),
        ),
        trace_complete: true,
        context_present: true,
        entries,
        claim_count: 1,
        confidence_bits: 0.9f32.to_bits(),
    }
}

fn evidence_entry() -> ResultEntry {
    ResultEntry {
        source: "web".to_string(),
        title: "Bayesian evidence".to_string(),
        url: Some("https://example.test/evidence".to_string()),
    }
}

#[test]
fn dispatch_is_opened_once_and_queued_with_its_task() {
    let (mut b, dispatch) = queued_bundle();
    assert_eq!(b.dispatches.len(), 1);
    assert_eq!(b.dispatches[0].status, WorkflowDispatchStatus::Queued);
    assert_eq!(b.dispatches[0].task_id.as_deref(), Some("task_1"));
    assert_eq!(b.workflow.steps[0].status, WorkflowStepStatus::Running);
    assert_eq!(b.run.active_step_ids, vec!["S001".to_string()]);
    assert_eq!(b.updated_at, "120");
    let (_, again) = open_dispatch(&mut b, dispatch, 130);
    assert!(again.is_none());
    assert_eq!(b.dispatches.len(), 1);
    assert_eq!(b.updated_at, "120");
}

#[test]
fn running_scheduler_task_moves_the_record_once() {
    let (mut b, _) = queued_bundle();
    let sync = sync_task_status(&mut b, 0, "task_1", &SchedulerTaskStatus::Running, 150).unwrap();
    assert!(sync.changed);
    assert_eq!(names(&sync.chain), vec!["workflow.step.running"]);
    assert_eq!(b.dispatches[0].status, WorkflowDispatchStatus::Running);
    assert_eq!(b.dispatches[0].detail.as_deref(), Some("scheduler task is running"));
    assert_eq!(b.updated_at, "150");
    let again = sync_task_status(&mut b, 0, "task_1", &SchedulerTaskStatus::Running, 160).unwrap();
    assert!(!again.changed);
    assert_eq!(b.updated_at, "150");
}

#[test]
fn reported_scheduler_task_keeps_short_detail_and_leaves_active_steps() {
    let (mut b, _) = queued_bundle();
    let sync = sync_task_status(&mut b, 0, "task_1", &SchedulerTaskStatus::Done, 150).unwrap();
    assert!(sync.changed);
    assert_eq!(names(&sync.chain), vec!["workflow.step.reported"]);
    assert_eq!(b.dispatches[0].status, WorkflowDispatchStatus::Reported);
    assert_eq!(b.dispatches[0].detail.as_deref(), Some("research result recorded"));
    assert_eq!(b.workflow.steps[0].status, WorkflowStepStatus::Reported);
    assert!(b.run.active_step_ids.is_empty());
    assert_eq!(b.run.status, RunStatus::Running);
}

#[test]
fn failed_and_cancelled_scheduler_tasks_fail_the_run() {
    let (mut b, _) = queued_bundle();
    let status = SchedulerTaskStatus::Error { message: "network down".to_string() };
    let sync = sync_task_status(&mut b, 0, "task_1", &status, 150).unwrap();
    assert!(sync.changed);
    assert_eq!(names(&sync.chain), vec!["workflow.step.failed"]);
    assert_eq!(b.dispatches[0].status, WorkflowDispatchStatus::Failed);
    assert_eq!(b.dispatches[0].detail.as_deref(), Some("network down"));
    assert_eq!(b.workflow.steps[0].status, WorkflowStepStatus::Failed);
    assert_eq!(b.run.status, RunStatus::Failed);

    let (mut c, _) = queued_bundle();
    let sync = sync_task_status(&mut c, 0, "task_1", &SchedulerTaskStatus::Cancelled, 150).unwrap();
    assert_eq!(c.dispatches[0].detail.as_deref(), Some("scheduler task was cancelled"));
    assert_eq!(c.run.status, RunStatus::Failed);
    assert_eq!(names(&sync.chain), vec!["workflow.step.failed"]);
}

#[test]
fn sync_of_a_record_whose_step_is_gone_is_refused() {
    let (mut b, _) = queued_bundle();
    b.dispatches[0].step_id = "S404".to_string();
    let err = sync_task_status(&mut b, 0, "task_1", &SchedulerTaskStatus::Running, 150).unwrap_err();
    assert!(matches!(err, WorkflowError::RuntimeStateParse(ref m) if m == "dispatch record references missing step S404"));
    assert_eq!(b.dispatches[0].status, WorkflowDispatchStatus::Queued);
}

#[test]
fn task_running_and_failure_are_recorded_for_the_runs_task() {
    let (mut b, _) = queued_bundle();
    let chain = record_task_running(&mut b, "task_1", &context(), 140).unwrap();
    assert_eq!(names(&chain), vec!["workflow.step.running"]);
    assert_eq!(b.dispatches[0].status, WorkflowDispatchStatus::Running);
    assert_eq!(b.updated_at, "140");

    let chains = record_task_failure(&mut b, "task_1", &context(), "task_failed", "boom", 150).unwrap();
    assert_eq!(chains.len(), 2);
    assert_eq!(names(&chains[0]), vec!["workflow.step.failed"]);
    assert_eq!(names(&chains[1]), vec!["workflow.run.failed"]);
    assert_eq!(b.dispatches[0].detail.as_deref(), Some("boom"));
    assert_eq!(b.workflow.status, WorkflowStatus::Aborted);
    assert_eq!(b.run.status, RunStatus::Failed);
    assert_eq!(b.run.ended_at.as_deref(), Some("150"));
}

#[test]
fn a_task_of_another_dispatch_is_refused() {
    let (mut b, _) = queued_bundle();
    let err = record_task_running(&mut b, "task_other", &context(), 140).unwrap_err();
    assert!(matches!(err, WorkflowError::RuntimeStateParse(ref m)
        if m == "workflow task task_other does not match dispatch task Some(\"task_1\")"));
    assert_eq!(b.dispatches[0].status, WorkflowDispatchStatus::Queued);
}

#[test]
fn completion_of_an_unfinished_task_is_refused() {
    let (b, _) = queued_bundle();
    let err = begin_task_completion(&b, "task_1", &SchedulerTaskStatus::Running, &context()).unwrap_err();
    assert!(matches!(err, WorkflowError::RuntimeStateParse(ref m) if m == "workflow task task_1 is not completed"));
    let err = begin_task_completion(&b, "../task_1", &SchedulerTaskStatus::Done, &context()).unwrap_err();
    assert!(matches!(err, WorkflowError::RuntimeStateParse(_)));
}

#[test]
fn verified_research_is_promoted_and_the_run_succeeds() {
    let (mut b, _) = queued_bundle();
    let dispatch = begin_task_completion(&b, "task_1", &SchedulerTaskStatus::Done, &context()).unwrap();
    let out = record_completion(&mut b, "task_1", &context(), &dispatch, observation(vec![evidence_entry()]), 200).unwrap();
    assert!(out.verified);
    assert_eq!(out.chains.len(), 2);
    assert_eq!(names(&out.chains[0]), vec!["workflow.step.reported"]);
    assert_eq!(b.step_reports.len(), 1);
    let report = &b.step_reports[0];
    assert_eq!(report.report_id, "report_run_a_S001_a1");
    assert_eq!(report.status, StepReportStatus::Completed);
    assert_eq!(report.evidence.len(), 1);
    assert_eq!(report.evidence[0].file, "https://example.test/evidence");
    assert!(report.risks.is_empty());
    assert_eq!(report.resource_usage, json(r#"{"claim_count": 1, "evidence_reference_count": 1}"#));
    assert_eq!(f32::from_bits(report.confidence_bits), 0.9);
    assert!(b.verification_findings.iter().all(|f| f.result == VerificationOutcome::Pass));
    assert_eq!(b.dispatches[0].status, WorkflowDispatchStatus::Reported);
    assert!(b.run.active_step_ids.is_empty());

    let mut semantic = working_artifact();
    semantic.artifact_id = "semantic_S001".to_string();
    semantic.uri = ".dualtrack/memory/semantic/workflows/wf_research/run_a/S001.md".to_string();
    let chains = promote_verified_step(&mut b, &dispatch, "task_1", &working_artifact(), semantic, 200).unwrap();
    assert_eq!(chains.len(), 3);
    assert_eq!(names(&chains[0]), vec!["workflow.step.verified"]);
    assert_eq!(names(&chains[1]), vec!["workflow.semantic.promoted"]);
    assert_eq!(names(&chains[2]), vec!["workflow.run.succeeded"]);
    assert_eq!(b.workflow.steps[0].status, WorkflowStepStatus::Verified);
    assert_eq!(b.workflow.status, WorkflowStatus::Completed);
    assert_eq!(b.run.status, RunStatus::Succeeded);
    assert!(b.artifacts.iter().any(|a| a.uri.starts_with(".dualtrack/memory/semantic/workflows/")));
    assert!(b.artifacts.iter().any(|a| a.uri.ends_with("/result.md")));
}

#[test]
fn research_without_evidence_keeps_its_working_artifact_and_fails_the_run() {
    let (mut b, _) = queued_bundle();
    let dispatch = begin_task_completion(&b, "task_1", &SchedulerTaskStatus::Done, &context()).unwrap();
    let out = record_completion(&mut b, "task_1", &context(), &dispatch, observation(vec![]), 200).unwrap();
    assert!(!out.verified);
    assert_eq!(out.failure_reason, "evidence_missing");
    assert!(b.verification_findings.iter().any(|f| f.reason_code == "evidence_missing"));
    assert_eq!(b.step_reports[0].risks, vec!["evidence_missing".to_string()]);
    assert!(b.artifacts.iter().any(|a| a.uri.ends_with("/result.md")));

    let chain = fail_unverified_step(&mut b, "S001", &out.failure_reason, 200).unwrap();
    assert_eq!(names(&chain), vec!["workflow.run.failed"]);
    assert_eq!(b.workflow.steps[0].status, WorkflowStepStatus::Failed);
    assert_eq!(b.workflow.status, WorkflowStatus::Aborted);
    assert_eq!(b.run.status, RunStatus::Failed);
    assert_eq!(b.run.ended_at.as_deref(), Some("200"));
}

#[test]
fn a_second_completion_replaces_the_report_and_findings_of_the_attempt() {
    let (mut b, dispatch) = queued_bundle();
    record_completion(&mut b, "task_1", &context(), &dispatch, observation(vec![]), 200).unwrap();
    let first_findings = b.verification_findings.len();
    record_completion(&mut b, "task_1", &context(), &dispatch, observation(vec![evidence_entry()]), 210).unwrap();
    assert_eq!(b.step_reports.len(), 1);
    assert_eq!(b.verification_findings.len(), first_findings);
    assert_eq!(b.artifacts.len(), 1);
    assert_eq!(b.updated_at, "210");
}

#[test]
fn completion_without_a_dispatch_record_is_refused_and_changes_nothing() {
    let (mut b, dispatch) = queued_bundle();
    let mut other = context();
    other.attempt = 2;
    let err = record_completion(&mut b, "task_1", &other, &dispatch, observation(vec![]), 200).unwrap_err();
    assert!(matches!(err, WorkflowError::RuntimeStateParse(ref m)
        if m == "workflow task task_1 references missing dispatch for step S001"));
    assert!(b.step_reports.is_empty());
}

#[test]
fn unsupported_dispatch_is_durable_with_its_reason() {
    let mut b = bundle();
    let dispatch = b.run.ready_dispatches(&b.workflow, &b.registry).unwrap().remove(0);
    let (dispatch, _) = open_dispatch(&mut b, dispatch, 110);
    let chain = record_dispatch_unsupported(&mut b, &dispatch, "unsupported_workflow_capability", "no adapter", 115);
    assert_eq!(names(&chain), vec!["workflow.step.unsupported"]);
    assert_eq!(b.dispatches.len(), 1);
    assert_eq!(b.dispatches[0].status, WorkflowDispatchStatus::Unsupported);
    assert_eq!(b.dispatches[0].detail.as_deref(), Some("unsupported_workflow_capability: no adapter"));
    assert_eq!(b.dispatches[0].task_id, None);
}

#[test]
fn ledger_repair_lists_each_records_events_in_order() {
    let (mut b, _) = queued_bundle();
    b.dispatches.push(WorkflowDispatchRecord {
        step_id: "S001".to_string(),
        attempt: 2,
        task_id: None,
        status: WorkflowDispatchStatus::Unsupported,
        detail: Some("unsupported_workflow_capability: no adapter".to_string()),
    });
    let plan = repair_runtime_events(&b);
    assert!(plan.error.is_none());
    let all: Vec<Vec<String>> = plan.chains.iter().map(names).collect();
    assert_eq!(
        all,
        vec![
            vec!["workflow.run.created".to_string()],
            vec!["workflow.step.dispatched".to_string()],
            vec!["workflow.step.queued".to_string()],
            vec!["workflow.step.dispatched".to_string()],
            vec!["workflow.step.unsupported".to_string()],
        ]
    );

    b.dispatches[1].step_id = "S404".to_string();
    let plan = repair_runtime_events(&b);
    assert_eq!(plan.chains.len(), 3);
    assert!(matches!(plan.error, Some(WorkflowError::RuntimeStateParse(_))));
}

#[test]
fn open_records_without_a_live_task_are_recoverable() {
    let (mut b, _) = queued_bundle();
    b.dispatches.push(WorkflowDispatchRecord {
        step_id: "S002".to_string(),
        attempt: 1,
        task_id: None,
        status: WorkflowDispatchStatus::Dispatched,
        detail: None,
    });
    b.dispatches.push(WorkflowDispatchRecord {
        step_id: "S003".to_string(),
        attempt: 1,
        task_id: Some("task_3".to_string()),
        status: WorkflowDispatchStatus::Reported,
        detail: None,
    });
    let live = vec!["task_1".to_string()];
    assert_eq!(recoverable_dispatches(&b, &live), vec![("S002".to_string(), 1)]);
    assert_eq!(
        recoverable_dispatches(&b, &vec![]),
        vec![("S001".to_string(), 1), ("S002".to_string(), 1)]
    );
}

#[test]
fn source_refs_prefer_urls_then_titles_and_come_once() {
    let entries = vec![
        ResultEntry { source: "web".to_string(), title: "A".to_string(), url: Some(" https://a.test ".to_string()) },
        ResultEntry { source: "web".to_string(), title: "Bayes".to_string(), url: Some("  ".to_string()) },
        ResultEntry { source: "local".to_string(), title: "  ".to_string(), url: None },
        ResultEntry { source: "web".to_string(), title: "A".to_string(), url: Some("https://a.test".to_string()) },
    ];
    assert_eq!(task_source_refs(&entries), vec!["https://a.test".to_string(), "web:Bayes".to_string()]);
}

#[test]
fn semantic_memory_note_lists_claims_sources_and_criteria() {
    let working = ArtifactRef {
        artifact_id: "art_1".to_string(),
        artifact_type: ArtifactType::Other,
        uri: "dream/working/report.md".to_string(),
        hash: "abc".to_string(),
        mime_type: "text/markdown".to_string(),
        producer_step_id: "S001".to_string(),
        retention_policy: RetentionPolicy::Run,
        created_at: "1".to_string(),
    };
    let text = render_semantic_workflow_memory(
        "wf_1",
        "run_1",
        "task_1",
        &working,
        "0.900",
        "hybrid",
        &vec!["c1".to_string(), "c2".to_string()],
        &vec!["s1".to_string(), "s2".to_string()],
        &vec!["k1".to_string()],
    );
    assert_eq!(
        text,
        "# Verified Workflow Knowledge\n\n- Workflow ID: `wf_1`\n- Run ID: `run_1`\n- Task ID: `task_1`\n- Working artifact: `dream/working/report.md`\n- Working artifact hash: `abc`\n- Confidence: 0.900\n- Verification kernel: `hybrid`\n\n## Claims\n\n- c1\n- c2\n\n## Evidence Chain\n\n- c1 -> s1, s2\n- c2 -> s1, s2\n\n## Acceptance Criteria\n\n- [x] k1\n"
    );
    let bare = render_semantic_workflow_memory("w", "r", "t", &working, "0.000", "k", &vec!["c".to_string()], &vec![], &vec![]);
    assert!(bare.contains("- c -> no source reference"));
}

use feroha::completion::{
    build_completion_findings, checked_acceptance_criteria, decimal_text, normalize_contract_text,
    upsert_artifact, CompletionChecks,
};
use feroha::dispatch::{infer_network_policy, root_from_glob, NetworkPolicy};
use feroha::workflow::{
    default_worktree_path, patch_decision_verb, runtime_secs_for_mode, safe_runtime_component,
    step_report_event_severity, verification_event_name, verification_event_severity,
    AgentRegistry, AgentRegistryEntry, ArtifactRef, ArtifactType, ControlPolicy, GoalAlignment,
    GoalContract, RetentionPolicy, RetryPolicy, RunStatus, StepReportStatus, VerificationLevel,
    VerificationOutcome, WorkflowError, WorkflowIr, WorkflowRunState, WorkflowRuntimeEventStore,
    WorkflowStatus, WorkflowStep, WorkflowStepKind, WorkflowStepMode, WorkflowStepStatus,
};
use feroha::workflow_runtime::{
    add_active_step, dispatch_record, dispatch_record_is_terminal, failed_dispatch_detail,
    mark_dispatch_queued, mark_dispatch_unsupported, remove_active_step, set_dispatch_state,
    set_workflow_step_status, unsupported_dispatch_detail, validate_bundle_contract,
    validate_task_runtime_context, dispatch_from_step, WorkflowDispatchRecord,
    WorkflowDispatchStatus, WorkflowRuntimeBundle, WorkflowRuntimeStore, WorkflowTaskContext,
};

fn json(text: &str) -> serde_json::Value {
    serde_json::from_str(text).unwrap()
}

fn goal_contract() -> GoalContract {
    GoalContract {
        goal_id: "goal_demo".to_string(),
        goal_text: "Improve harness workflow runtime".to_string(),
        success_definition: vec![
            "Workflow is schema-valid".to_string(),
            "Verifier findings can request a patch".to_string(),
        ],
        non_goals: vec![],
        constraints: json(r#"{"allow_new_dependency": false}"#),
        context_scope: vec!["src-tauri/src/harness/**".to_string()],
        approval_policy: json(r#"{"before_shell": true}"#),
        budget: json(r#"{"max_iterations": 3}"#),
        created_at: "2026-06-03T00:00:00Z".to_string(),
    }
}

fn registry() -> AgentRegistry {
    AgentRegistry::from_agents(vec![
        AgentRegistryEntry {
            agent_type: "repo_researcher".to_string(),
            allowed_tools: vec!["Read".to_string(), "Grep".to_string()],
            denied_tools: vec!["Write".to_string()],
            default_mode: WorkflowStepMode::ReadOnly,
            max_parallelism: 2,
            can_delegate: false,
        },
        AgentRegistryEntry {
            agent_type: "code_writer".to_string(),
            allowed_tools: vec!["Read".to_string(), "Edit".to_string()],
            denied_tools: vec!["Shell".to_string()],
            default_mode: WorkflowStepMode::WritePatch,
            max_parallelism: 1,
            can_delegate: false,
        },
    ])
}

fn step(step_id: &str, agent_type: &str, dependencies: Vec<String>) -> WorkflowStep {
    WorkflowStep {
        step_id: step_id.to_string(),
        title: format!("Step {}", step_id),
        kind: WorkflowStepKind::Implement,
        agent_type: agent_type.to_string(),
        mode: WorkflowStepMode::WritePatch,
        task: "Produce a patch-shaped result, not a direct global decision.".to_string(),
        inputs: json(r#"{"files": ["src-tauri/src/harness/**"]}"#),
        dependencies,
        acceptance_criteria: vec!["Return a structured step report".to_string()],
        goal_alignment: GoalAlignment {
            success_clauses: vec![1],
            why_necessary: "Defines the executable workflow contract".to_string(),
        },
        retry_policy: RetryPolicy { max_attempts: 2, backoff_ms: 1000 },
        status: WorkflowStepStatus::Pending,
    }
}

fn workflow() -> WorkflowIr {
    WorkflowIr {
        workflow_id: "wf_goal_demo".to_string(),
        goal_id: "goal_demo".to_string(),
        version: 1,
        parent_version: None,
        status: WorkflowStatus::Running,
        global_context: json(r#"{"repo_summary": "FeroHa harness"}"#),
        control_policy: ControlPolicy {
            max_parallel_steps: 2,
            replan_on_verification_fail: true,
            max_patch_chain: 3,
        },
        steps: vec![
            step("S001", "repo_researcher", vec![]),
            step("S002", "code_writer", vec!["S001".to_string()]),
        ],
        created_by: "orchestrator@v1".to_string(),
        created_at: "2026-06-03T00:01:00Z".to_string(),
    }
}

#[test]
fn run_state_dispatches_only_ready_steps_with_verified_dependencies_and_sandbox() {
    let mut wf = workflow();
    wf.steps[0].status = WorkflowStepStatus::Verified;
    wf.steps[1].status = WorkflowStepStatus::Ready;
    let mut second_writer = step("S003", "code_writer", vec!["S001".to_string()]);
    second_writer.status = WorkflowStepStatus::Ready;
    wf.steps.push(second_writer);
    let mut blocked_by_unverified_dep = step("S004", "code_writer", vec!["S002".to_string()]);
    blocked_by_unverified_dep.status = WorkflowStepStatus::Ready;
    wf.steps.push(blocked_by_unverified_dep);
    let mut read_only = step("S005", "repo_researcher", vec!["S001".to_string()]);
    read_only.mode = WorkflowStepMode::ReadOnly;
    read_only.status = WorkflowStepStatus::Ready;
    wf.steps.push(read_only);

    let run = WorkflowRunState::for_workflow("run_demo", &wf, "2026-06-03T00:04:00Z");
    let dispatches = run.ready_dispatches(&wf, &registry()).unwrap();
    assert_eq!(
        dispatches.iter().map(|d| d.step_id.as_str()).collect::<Vec<_>>(),
        vec!["S002", "S005"]
    );
    let writer = dispatches.iter().find(|d| d.step_id == "S002").unwrap();
    assert_eq!(writer.workflow_id, "wf_goal_demo");
    assert_eq!(writer.run_id, "run_demo");
    assert_eq!(writer.capability, WorkflowStepKind::Implement);
    assert_eq!(writer.inputs, json(r#"{"files": ["src-tauri/src/harness/**"]}"#));
    assert_eq!(
        writer.artifact_contract.expected_output,
        "Produce a patch-shaped result, not a direct global decision."
    );
    assert_eq!(writer.artifact_contract.acceptance_criteria, vec!["Return a structured step report"]);
    assert_eq!(writer.artifact_contract.success_clauses, vec![1]);
    assert!(writer.sandbox_policy.allows_tool("Edit"));
    assert!(!writer.sandbox_policy.allows_tool("Shell"));
    assert_eq!(writer.sandbox_policy.write_roots, vec![".harness/worktrees/run_demo/S002".to_string()]);
    assert_eq!(writer.sandbox_policy.read_roots, vec!["src-tauri/src/harness".to_string()]);
    assert_eq!(writer.sandbox_policy.max_runtime_secs, 900);
    assert!(writer.sandbox_policy.requires_bridge);
    assert_eq!(writer.sandbox_policy.network_policy, NetworkPolicy::Disabled);
    let researcher = dispatches.iter().find(|d| d.step_id == "S005").unwrap();
    assert!(researcher.sandbox_policy.write_roots.is_empty());
    assert!(researcher.sandbox_policy.allows_tool("Read"));
    assert!(!researcher.sandbox_policy.allows_tool("Write"));
}

#[test]
fn ready_dispatches_respects_budget_status_and_identity() {
    let mut wf = workflow();
    wf.steps[0].status = WorkflowStepStatus::Ready;
    let mut run = WorkflowRunState::for_workflow("run_demo", &wf, "t");
    run.active_step_ids = vec!["S009".to_string(), "S010".to_string()];
    assert!(run.ready_dispatches(&wf, &registry()).unwrap().is_empty());

    let mut paused = WorkflowRunState::for_workflow("run_demo", &wf, "t");
    paused.status = RunStatus::Paused;
    assert!(paused.ready_dispatches(&wf, &registry()).unwrap().is_empty());

    let mut other = WorkflowRunState::for_workflow("run_demo", &wf, "t");
    other.workflow_version = 7;
    assert_eq!(
        other.ready_dispatches(&wf, &registry()).unwrap_err(),
        WorkflowError::RunWorkflowMismatch {
            run_workflow_id: "wf_goal_demo".to_string(),
            run_workflow_version: 7,
            workflow_id: "wf_goal_demo".to_string(),
            workflow_version: 1
        }
    );

    let mut unknown = workflow();
    unknown.steps[0].status = WorkflowStepStatus::Ready;
    unknown.steps[0].agent_type = "ghost_agent".to_string();
    let run = WorkflowRunState::for_workflow("run_demo", &unknown, "t");
    assert_eq!(
        run.ready_dispatches(&unknown, &registry()).unwrap_err(),
        WorkflowError::UnknownAgentType("ghost_agent".to_string())
    );
}

#[test]
fn run_state_for_workflow_maps_write_steps_to_worktrees() {
    let run = WorkflowRunState::for_workflow("run_demo", &workflow(), "2026-06-03T00:04:00Z");
    assert_eq!(run.status, RunStatus::Running);
    assert_eq!(run.context_digest_version, 1);
    assert_eq!(
        run.worktree_map,
        vec![
            ("S001".to_string(), ".harness/worktrees/run_demo/S001".to_string()),
            ("S002".to_string(), ".harness/worktrees/run_demo/S002".to_string())
        ]
    );
    assert_eq!(default_worktree_path("r", "s"), ".harness/worktrees/r/s");
}

#[test]
fn runtime_event_store_rejects_padded_run_ids() {
    assert_eq!(
        WorkflowRuntimeEventStore::event_log_path("/tmp/vault", " run_demo "),
        Err(WorkflowError::UnsafeRuntimeComponent(" run_demo ".to_string()))
    );
}

#[test]
fn runtime_event_store_rejects_dotted_run_ids() {
    for run_id in ["run.demo", "run_demo.", ".run_demo"] {
        assert_eq!(
            WorkflowRuntimeEventStore::event_log_path("/tmp/vault", run_id),
            Err(WorkflowError::UnsafeRuntimeComponent(run_id.to_string()))
        );
    }
}

#[test]
fn runtime_paths_sit_below_the_run_directory() {
    assert_eq!(
        WorkflowRuntimeEventStore::event_log_path("/tmp/vault", "run_demo").unwrap(),
        "/tmp/vault/.harness/runs/run_demo/events.jsonl"
    );
    assert_eq!(
        WorkflowRuntimeStore::new("/tmp/vault/").runtime_path("run-1").unwrap(),
        "/tmp/vault/.harness/runs/run-1/runtime.json"
    );
    assert_eq!(
        WorkflowRuntimeStore::new("vault").runtime_path("../escape"),
        Err(WorkflowError::UnsafeRuntimeComponent("../escape".to_string()))
    );
    assert_eq!(safe_runtime_component("run_1-a").unwrap(), "run_1-a");
    assert!(safe_runtime_component("").is_err());
    assert!(safe_runtime_component("a/b").is_err());
}

fn bundle(goal: GoalContract, wf: WorkflowIr, run: WorkflowRunState) -> WorkflowRuntimeBundle {
    WorkflowRuntimeBundle {
        goal,
        workflow: wf,
        run,
        registry: registry(),
        dispatches: vec![],
        artifacts: vec![],
        step_reports: vec![],
        verification_findings: vec![],
        updated_at: "0".to_string(),
    }
}

#[test]
fn runtime_bundle_contract_checks_goal_run_and_workflow() {
    let wf = workflow();
    let run = WorkflowRunState::for_workflow("run_demo", &wf, "t");
    assert_eq!(validate_bundle_contract(&bundle(goal_contract(), wf.clone(), run.clone())), Ok(()));
    let mut goal = goal_contract();
    goal.goal_id = "goal_other".to_string();
    assert_eq!(
        validate_bundle_contract(&bundle(goal, wf.clone(), run.clone())).unwrap_err(),
        WorkflowError::GoalMismatch {
            workflow_goal_id: "goal_demo".to_string(),
            contract_goal_id: "goal_other".to_string()
        }
    );
    let mut stale = run.clone();
    stale.workflow_id = "wf_other".to_string();
    assert!(matches!(
        validate_bundle_contract(&bundle(goal_contract(), wf, stale)),
        Err(WorkflowError::RunWorkflowMismatch { .. })
    ));
}

#[test]
fn dispatch_records_are_queued_marked_and_checked() {
    let wf = workflow();
    let run = WorkflowRunState::for_workflow("run_demo", &wf, "t");
    let mut b = bundle(goal_contract(), wf.clone(), run.clone());
    let step = wf.steps[0].clone();
    let dispatch = dispatch_from_step(&run, &b.registry, &step, 1).unwrap();
    assert_eq!(dispatch.step_id, step.step_id);
    assert_eq!(dispatch.artifact_contract.expected_output, step.task);
    assert_eq!(dispatch_record(&b.dispatches, &dispatch.step_id, 1), None);

    mark_dispatch_queued(&mut b, &dispatch, "task_9", 1700000000123);
    assert_eq!(b.updated_at, "1700000000123");
    let i = dispatch_record(&b.dispatches, &dispatch.step_id, 1).unwrap();
    assert_eq!(b.dispatches[i].status, WorkflowDispatchStatus::Queued);
    assert_eq!(b.dispatches[i].task_id.as_deref(), Some("task_9"));
    assert_eq!(b.dispatches[i].detail.as_deref(), Some("submitted and approved by orchestrator"));
    assert!(!dispatch_record_is_terminal(&b.dispatches[i]));

    let context = WorkflowTaskContext {
        workflow_id: wf.workflow_id.clone(),
        run_id: run.run_id.clone(),
        step_id: dispatch.step_id.clone(),
        attempt: 1,
        acceptance_criteria: vec![],
    };
    assert_eq!(validate_task_runtime_context(&b, "task_9", &context), Ok(()));
    assert_eq!(
        validate_task_runtime_context(&b, "task_x", &context),
        Err(WorkflowError::RuntimeStateParse(
            "workflow task task_x does not match dispatch task Some(\"task_9\")".to_string()
        ))
    );
    let mut other = context.clone();
    other.attempt = 2;
    assert_eq!(
        validate_task_runtime_context(&b, "task_9", &other),
        Err(WorkflowError::RuntimeStateParse(
            "workflow task task_9 references missing dispatch for step S001".to_string()
        ))
    );

    mark_dispatch_unsupported(&mut b, &dispatch, "unsupported_kind", "No adapter", 5);
    assert_eq!(b.dispatches.len(), 1);
    assert_eq!(b.dispatches[0].status, WorkflowDispatchStatus::Unsupported);
    assert_eq!(b.dispatches[0].task_id, None);
    assert!(dispatch_record_is_terminal(&b.dispatches[0]));
    assert_eq!(
        unsupported_dispatch_detail(&b.dispatches[0]),
        ("unsupported_kind".to_string(), "No adapter".to_string())
    );
    assert_eq!(b.updated_at, "5");
}

#[test]
fn dispatch_details_and_state_changes() {
    let mut record = WorkflowDispatchRecord {
        step_id: "S1".to_string(),
        attempt: 1,
        task_id: None,
        status: WorkflowDispatchStatus::Running,
        detail: None,
    };
    assert_eq!(
        unsupported_dispatch_detail(&record),
        (
            "unsupported_workflow_capability".to_string(),
            "Workflow step is not supported by the current runtime adapter.".to_string()
        )
    );
    record.detail = Some("no separator".to_string());
    assert_eq!(
        unsupported_dispatch_detail(&record),
        ("unsupported_workflow_capability".to_string(), "no separator".to_string())
    );
    record.detail = Some("scheduler task was cancelled".to_string());
    assert_eq!(
        failed_dispatch_detail(&record),
        ("task_cancelled".to_string(), "scheduler task was cancelled".to_string())
    );
    record.detail = None;
    assert_eq!(failed_dispatch_detail(&record), ("task_failed".to_string(), String::new()));

    assert!(set_dispatch_state(&mut record, WorkflowDispatchStatus::Failed, Some("x".to_string())));
    assert!(!set_dispatch_state(&mut record, WorkflowDispatchStatus::Failed, Some("x".to_string())));
    assert_eq!(record.status, WorkflowDispatchStatus::Failed);
}

#[test]
fn step_status_and_active_steps() {
    let mut wf = workflow();
    assert_eq!(set_workflow_step_status(&mut wf, "S002", WorkflowStepStatus::Running), Ok(true));
    assert_eq!(wf.steps[1].status, WorkflowStepStatus::Running);
    assert_eq!(set_workflow_step_status(&mut wf, "S002", WorkflowStepStatus::Running), Ok(false));
    assert_eq!(
        set_workflow_step_status(&mut wf, "S404", WorkflowStepStatus::Running),
        Err(WorkflowError::RuntimeStateParse("dispatch record references missing step S404".to_string()))
    );
    let mut active = vec!["S1".to_string()];
    assert!(add_active_step(&mut active, "S2"));
    assert!(!add_active_step(&mut active, "S2"));
    assert_eq!(active, vec!["S1".to_string(), "S2".to_string()]);
    assert!(remove_active_step(&mut active, "S1"));
    assert!(!remove_active_step(&mut active, "S1"));
    assert_eq!(active, vec!["S2".to_string()]);
}

#[test]
fn event_names_and_severities() {
    assert_eq!(step_report_event_severity(&StepReportStatus::Completed), "INFO");
    assert_eq!(step_report_event_severity(&StepReportStatus::Blocked), "WARN");
    assert_eq!(step_report_event_severity(&StepReportStatus::Failed), "ERROR");
    assert_eq!(verification_event_name(&VerificationOutcome::CannotVerify), "workflow.verification.cannot_verify");
    assert_eq!(verification_event_severity(&VerificationOutcome::Fail), "ERROR");
    assert_eq!(runtime_secs_for_mode(&WorkflowStepMode::TestOnly), 600);
    assert_eq!(patch_decision_verb(false), "rejected");
}

#[test]
fn globs_and_tools_shape_the_sandbox() {
    assert_eq!(root_from_glob("  src/harness/**  ").unwrap(), "src/harness");
    assert_eq!(root_from_glob("**/*.md").unwrap(), ".");
    assert_eq!(root_from_glob("notes/").unwrap(), "notes");
    assert_eq!(root_from_glob("   "), None);
    assert_eq!(infer_network_policy(&vec!["web_search".to_string()]), NetworkPolicy::Allowed);
    assert_eq!(infer_network_policy(&vec!["arxiv_search".to_string()]), NetworkPolicy::AcademicOnly);
    assert_eq!(infer_network_policy(&vec!["Read".to_string()]), NetworkPolicy::Disabled);
}

fn artifact(id: &str, uri: &str) -> ArtifactRef {
    ArtifactRef {
        artifact_id: id.to_string(),
        artifact_type: ArtifactType::Other,
        uri: uri.to_string(),
        hash: String::new(),
        mime_type: "text/markdown".to_string(),
        producer_step_id: "S001".to_string(),
        retention_policy: RetentionPolicy::Run,
        created_at: "t".to_string(),
    }
}

#[test]
fn upsert_artifact_replaces_same_id_or_uri() {
    let mut artifacts = vec![artifact("a", "u1"), artifact("b", "u2"), artifact("c", "u3")];
    upsert_artifact(&mut artifacts, artifact("a2", "u2"));
    assert_eq!(
        artifacts.iter().map(|a| a.artifact_id.as_str()).collect::<Vec<_>>(),
        vec!["a", "c", "a2"]
    );
}

#[test]
fn contract_text_and_checked_criteria() {
    assert_eq!(normalize_contract_text("  Return   a\tstructured\nreport "), "Return a structured report");
    let report = "# Report\n- [x] ignored\n## acceptance CHECK\n- [x] Return  a structured step report\n- [ ] Not done\n- [X] Second\n## Other\n- [x] Outside";
    assert_eq!(
        checked_acceptance_criteria(report),
        vec!["Return a structured step report".to_string(), "Second".to_string()]
    );
    assert_eq!(decimal_text(1207).iter().collect::<String>(), "1207");
}

#[test]
fn completion_findings_pass_and_fail_each_check() {
    let mut s = step("S001", "repo_researcher", vec![]);
    s.acceptance_criteria = vec!["Return a structured step report".to_string(), "Cite sources".to_string()];
    let checks = CompletionChecks {
        run_id: "run_demo".to_string(),
        task_id: "task_1".to_string(),
        step: s,
        working_artifact: Some(artifact("a", "u")),
        result_content: Some("   ".to_string()),
        trace_complete: true,
        context_present: true,
        evidence_present: false,
        claims_present: true,
        checked_criteria: vec!["Return a structured step report".to_string()],
        evidence_refs: vec!["ref-1".to_string()],
    };
    let findings = build_completion_findings(&checks);
    assert_eq!(findings.len(), 8);
    assert_eq!(findings[0].verification_id, "verify_run_demo_S001_working_artifact");
    assert_eq!(findings[0].result, VerificationOutcome::Pass);
    assert!(findings[0].failed_clauses.is_empty());
    assert_eq!(findings[1].result, VerificationOutcome::Fail);
    assert_eq!(findings[1].reason_code, "empty_research_result");
    assert_eq!(findings[1].minimal_fix_surface, vec![".dualtrack/research/results/task_1/result.md"]);
    assert_eq!(findings[1].failed_clauses, vec![1]);
    assert_eq!(findings[2].level, VerificationLevel::Step);
    assert_eq!(findings[4].summary, "Retrieval evidence references are missing.");
    assert_eq!(findings[6].verification_id, "verify_run_demo_S001_acceptance_1");
    assert_eq!(findings[6].result, VerificationOutcome::Pass);
    assert_eq!(findings[7].summary, "Acceptance criterion 2 is not checked.");
    assert!(findings[7].failed_clauses.is_empty());
    assert_eq!(findings[7].minimal_fix_surface, vec!["Cite sources"]);
    assert_eq!(findings[7].evidence_refs, vec!["ref-1"]);
}

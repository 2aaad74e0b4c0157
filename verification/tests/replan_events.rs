use feroha::replan::{
    EvidenceRef, OrchestratorOutput, OrchestratorReplanRequest, StepReport, StepReportsDigest,
};
use feroha::runtime_events::{EventValue, HarnessEvent, WorkflowRuntimeEventChain};
use feroha::workflow::{
    AgentRegistry, AgentRegistryEntry, ArtifactRef, ArtifactType, ControlPolicy, GoalAlignment,
    GoalContract, PatchBasis, RetentionPolicy, RetryPolicy, StepReportStatus, SuggestedNextStep,
    VerificationFinding, VerificationLevel, VerificationOutcome, WorkflowError, WorkflowIr,
    WorkflowPatch, WorkflowPatchOp, WorkflowRunState, WorkflowStatus, WorkflowStep,
    WorkflowStepKind, WorkflowStepMode, WorkflowStepStatus,
};

fn json(text: &str) -> serde_json::Value {
    serde_json::from_str(text).unwrap()
}

fn goal_contract() -> GoalContract {
    GoalContract {
        goal_id: "goal_demo".to_string(),
        goal_text: "Improve harness workflow runtime".to_string(),
        success_definition: vec![
            "Workflow is schema-valid".to_string(),
            "Verifier findings can request a patch".to_string(),
        ],
        non_goals: vec![],
        constraints: json(r#"{"allow_new_dependency": false}"#),
        context_scope: vec!["src-tauri/src/harness/**".to_string()],
        approval_policy: json(r#"{"before_shell": true}"#),
        budget: json(r#"{"max_iterations": 3}"#),
        created_at: "2026-06-03T00:00:00Z".to_string(),
    }
}

fn registry() -> AgentRegistry {
    AgentRegistry::from_agents(vec![
        AgentRegistryEntry {
            agent_type: "repo_researcher".to_string(),
            allowed_tools: vec!["Read".to_string(), "Grep".to_string()],
            denied_tools: vec!["Write".to_string()],
            default_mode: WorkflowStepMode::ReadOnly,
            max_parallelism: 2,
            can_delegate: false,
        },
        AgentRegistryEntry {
            agent_type: "code_writer".to_string(),
            allowed_tools: vec!["Read".to_string(), "Edit".to_string()],
            denied_tools: vec!["Shell".to_string()],
            default_mode: WorkflowStepMode::WritePatch,
            max_parallelism: 1,
            can_delegate: false,
        },
        AgentRegistryEntry {
            agent_type: "test_runner".to_string(),
            allowed_tools: vec!["Read".to_string(), "Shell".to_string()],
            denied_tools: vec!["Edit".to_string()],
            default_mode: WorkflowStepMode::TestOnly,
            max_parallelism: 1,
            can_delegate: false,
        },
    ])
}

fn step(step_id: &str, agent_type: &str, dependencies: Vec<String>) -> WorkflowStep {
    WorkflowStep {
        step_id: step_id.to_string(),
        title: format!("Step {}", step_id),
        kind: WorkflowStepKind::Implement,
        agent_type: agent_type.to_string(),
        mode: WorkflowStepMode::WritePatch,
        task: "Produce a patch-shaped result, not a direct global decision.".to_string(),
        inputs: json(r#"{"files": ["src-tauri/src/harness/**"]}"#),
        dependencies,
        acceptance_criteria: vec!["Return a structured step report".to_string()],
        goal_alignment: GoalAlignment {
            success_clauses: vec![1],
            why_necessary: "Defines the executable workflow contract".to_string(),
        },
        retry_policy: RetryPolicy {
            max_attempts: 2,
            backoff_ms: 1000,
        },
        status: WorkflowStepStatus::Pending,
    }
}

fn workflow() -> WorkflowIr {
    WorkflowIr {
        workflow_id: "wf_goal_demo".to_string(),
        goal_id: "goal_demo".to_string(),
        version: 1,
        parent_version: None,
        status: WorkflowStatus::Running,
        global_context: json(r#"{"repo_summary": "FeroHa harness"}"#),
        control_policy: ControlPolicy {
            max_parallel_steps: 2,
            replan_on_verification_fail: true,
            max_patch_chain: 3,
        },
        steps: vec![
            step("S001", "repo_researcher", vec![]),
            step("S002", "code_writer", vec!["S001".to_string()]),
        ],
        created_by: "orchestrator@v1".to_string(),
        created_at: "2026-06-03T00:01:00Z".to_string(),
    }
}

fn attr<'a>(event: &'a HarnessEvent, key: &str) -> &'a EventValue {
    &event.attributes.iter().find(|(k, _)| k == key).unwrap().1
}

fn text(v: &EventValue) -> &str {
    match v {
        EventValue::Text(s) => s.as_str(),
        _ => panic!("not text"),
    }
}

fn failed_report(report_id: &str, summary: &str, confidence: f32) -> StepReport {
    StepReport {
        report_id: report_id.to_string(),
        step_id: "S002".to_string(),
        attempt: 1,
        status: StepReportStatus::Failed,
        summary: summary.to_string(),
        artifacts: vec![],
        evidence: vec![],
        risks: vec!["Needs runtime replan".to_string()],
        blocked_by: vec![],
        suggested_next_steps: vec![],
        resource_usage: json(r#"{"token_total": 700}"#),
        confidence_bits: confidence.to_bits(),
    }
}

fn finding(id: &str, result: VerificationOutcome, clauses: Vec<usize>) -> VerificationFinding {
    VerificationFinding {
        verification_id: id.to_string(),
        level: VerificationLevel::Step,
        target: "S002".to_string(),
        result,
        failed_clauses: clauses,
        reason_code: "missing_runtime_state".to_string(),
        summary: "Verifier cannot confirm runtime state persistence.".to_string(),
        evidence_refs: vec!["sr_S002_a1".to_string()],
        minimal_fix_surface: vec!["Persist runtime state before patch request".to_string()],
    }
}

#[test]
fn step_reports_digest_keeps_evidence_risks_and_blockers_without_embedding_artifacts() {
    let report = StepReport {
        report_id: "sr_S002_a1".to_string(),
        step_id: "S002".to_string(),
        attempt: 1,
        status: StepReportStatus::Partial,
        summary: "Implemented the first patch but route guard evidence is missing.".to_string(),
        artifacts: vec![ArtifactRef {
            artifact_id: "art_test_report".to_string(),
            artifact_type: ArtifactType::TestReport,
            uri: ".harness/runs/run_1/artifacts/test-report.json".to_string(),
            hash: "sha256:abc".to_string(),
            mime_type: "application/json".to_string(),
            producer_step_id: "S002".to_string(),
            retention_policy: RetentionPolicy::Workflow,
            created_at: "2026-06-03T00:02:00Z".to_string(),
        }],
        evidence: vec![EvidenceRef {
            file: "src/main.rs".to_string(),
            lines: vec![12, 20],
            claim: "Patch touched runtime entrypoint".to_string(),
        }],
        risks: vec!["Route guard is still unverified".to_string()],
        blocked_by: vec!["Need verifier finding".to_string()],
        suggested_next_steps: vec![SuggestedNextStep {
            proposal: "Add a verifier step for route guard".to_string(),
            reason: "Goal clause 2 lacks evidence".to_string(),
        }],
        resource_usage: json(r#"{"token_total": 1200}"#),
        confidence_bits: 0.72f32.to_bits(),
    };

    let digest = StepReportsDigest::from_reports(&vec![report]);

    assert_eq!(digest.entries.len(), 1);
    assert_eq!(digest.entries[0].artifact_ids, vec!["art_test_report"]);
    assert_eq!(
        digest.entries[0].evidence_claims,
        vec!["Patch touched runtime entrypoint"]
    );
    assert_eq!(
        digest.entries[0].risks,
        vec!["Route guard is still unverified"]
    );
    assert_eq!(digest.entries[0].blocked_by, vec!["Need verifier finding"]);
    assert_eq!(digest.entries[0].suggested_next_steps, vec!["Add a verifier step for route guard"]);
    assert_eq!(f32::from_bits(digest.entries[0].confidence_bits), 0.72);
}

#[test]
fn orchestrator_output_accepts_only_schema_valid_create_patch_or_cannot_proceed() {
    let create = OrchestratorOutput::WorkflowCreate {
        workflow: workflow(),
    };
    assert!(create.validate(&goal_contract(), &registry()).is_ok());

    let empty_patch = OrchestratorOutput::WorkflowPatch {
        patch: WorkflowPatch {
            patch_id: "patch_empty".to_string(),
            workflow_id: "wf_goal_demo".to_string(),
            from_version: 1,
            to_version: 2,
            basis: PatchBasis {
                failed_steps: vec![],
                failed_goal_clauses: vec![],
            },
            ops: vec![],
            rationale: "No real runtime change".to_string(),
            predicted_impact: json("{}"),
        },
    };
    assert_eq!(
        empty_patch
            .validate(&goal_contract(), &registry())
            .unwrap_err(),
        WorkflowError::EmptyPatch("patch_empty".to_string())
    );

    let blocked = OrchestratorOutput::CannotProceed {
        reason_code: "budget_exceeded".to_string(),
        summary: "The requested patch chain exceeds max_patch_chain.".to_string(),
    };
    assert!(blocked.validate(&goal_contract(), &registry()).is_ok());
}

#[test]
fn cannot_proceed_needs_reason_and_summary() {
    let blank = OrchestratorOutput::CannotProceed {
        reason_code: "  ".to_string(),
        summary: "Something".to_string(),
    };
    assert_eq!(
        blank.validate(&goal_contract(), &registry()),
        Err(WorkflowError::InvalidCannotProceed)
    );
    let patch = OrchestratorOutput::WorkflowPatch {
        patch: WorkflowPatch {
            patch_id: "p1".to_string(),
            workflow_id: "wf_goal_demo".to_string(),
            from_version: 1,
            to_version: 2,
            basis: PatchBasis {
                failed_steps: vec![],
                failed_goal_clauses: vec![],
            },
            ops: vec![WorkflowPatchOp::ReplaceStepStatus {
                step_id: "S001".to_string(),
                status: WorkflowStepStatus::Ready,
            }],
            rationale: "r".to_string(),
            predicted_impact: json("{}"),
        },
    };
    assert!(patch.validate(&goal_contract(), &registry()).is_ok());
}

#[test]
fn harness_event_keeps_what_it_was_given() {
    let event = HarnessEvent::new(
        "2026-06-03T00:03:00Z",
        "WARN",
        "verification.failed",
        "Goal verifier failed clause 2",
        vec![
            ("workflow_id".to_string(), EventValue::Text("wf_goal_demo".to_string())),
            ("verification_id".to_string(), EventValue::Text("vf_goal_demo_001".to_string())),
        ],
    );

    assert_eq!(event.severity_text, "WARN");
    assert_eq!(event.event_name, "verification.failed");
    assert_eq!(text(attr(&event, "workflow_id")), "wf_goal_demo");
}

#[test]
fn replan_request_uses_digest_inputs_instead_of_raw_step_outputs() {
    let mut wf = workflow();
    wf.steps[0].status = WorkflowStepStatus::Verified;
    wf.steps[1].status = WorkflowStepStatus::Failed;
    let run = WorkflowRunState::for_workflow("run_demo", &wf, "2026-06-03T00:04:00Z");
    let mut report = failed_report("sr_S002_a1", "Patch failed verifier; raw log is retained as an artifact only.", 0.61);
    report.artifacts = vec![ArtifactRef {
        artifact_id: "art_raw_log".to_string(),
        artifact_type: ArtifactType::Log,
        uri: ".harness/runs/run_demo/artifacts/S002/raw.log".to_string(),
        hash: "sha256:def".to_string(),
        mime_type: "text/plain".to_string(),
        producer_step_id: "S002".to_string(),
        retention_policy: RetentionPolicy::Run,
        created_at: "2026-06-03T00:05:00Z".to_string(),
    }];
    let request = OrchestratorReplanRequest::from_runtime(
        &goal_contract(),
        &wf,
        &run,
        &vec![report],
        &vec![finding("vf_S002", VerificationOutcome::Fail, vec![2])],
        &registry(),
    );

    assert_eq!(request.workflow_state_summary.failed_step_ids, vec!["S002"]);
    assert_eq!(request.workflow_state_summary.verified_step_ids, vec!["S001"]);
    assert!(request.workflow_state_summary.pending_step_ids.is_empty());
    assert_eq!(
        request.step_reports_digest.entries[0].artifact_ids,
        vec!["art_raw_log"]
    );
    assert_eq!(request.goal_contract.goal_id, "goal_demo");
    assert_eq!(request.verifier_findings.len(), 1);
    assert!(!request.runtime_policies.allow_subagent_delegation);
    assert!(request
        .runtime_policies
        .allowed_orchestrator_outputs
        .contains(&"workflow_patch".to_string()));
    assert_eq!(request.runtime_policies.max_patch_chain, 3);
}

#[test]
fn runtime_event_chain_records_reports_findings_and_replan_request() {
    let mut wf = workflow();
    wf.steps[0].status = WorkflowStepStatus::Verified;
    wf.steps[1].status = WorkflowStepStatus::Failed;
    let run = WorkflowRunState::for_workflow("run_demo", &wf, "2026-06-07T00:04:00Z");
    let request = OrchestratorReplanRequest::from_runtime(
        &goal_contract(),
        &wf,
        &run,
        &vec![failed_report("sr_S002_a1", "Runtime patch failed verifier.", 0.62)],
        &vec![finding("vf_S002", VerificationOutcome::Fail, vec![2])],
        &registry(),
    );

    let chain = WorkflowRuntimeEventChain::from_replan_request(&request, "2026-06-07T00:05:00Z");

    assert_eq!(chain.workflow_id, "wf_goal_demo");
    assert_eq!(chain.run_id, "run_demo");
    assert!(chain.replan_requested);
    assert_eq!(
        chain
            .events
            .iter()
            .map(|event| event.event_name.as_str())
            .collect::<Vec<_>>(),
        vec![
            "workflow.step_report.recorded",
            "workflow.verification.failed",
            "workflow.replan.requested"
        ]
    );
    assert_eq!(chain.events[1].severity_text, "ERROR");
    assert_eq!(text(attr(&chain.events[1], "reason_code")), "missing_runtime_state");
    assert!(matches!(attr(&chain.events[2], "finding_count"), EventValue::Number(1)));
    match attr(&chain.events[2], "failed_step_ids") {
        EventValue::Texts(ids) => assert_eq!(ids, &vec!["S002".to_string()]),
        _ => panic!("failed_step_ids"),
    }
    assert_eq!(
        chain.events[2].body,
        "Workflow verifier requested orchestrator replan for wf_goal_demo@v1."
    );
}

#[test]
fn replan_clauses_are_sorted_and_distinct_and_passing_findings_do_not_replan() {
    let wf = workflow();
    let run = WorkflowRunState::for_workflow("run_demo", &wf, "t0");
    let request = OrchestratorReplanRequest::from_runtime(
        &goal_contract(),
        &wf,
        &run,
        &vec![],
        &vec![
            finding("a", VerificationOutcome::Fail, vec![3, 1, 3]),
            finding("b", VerificationOutcome::CannotVerify, vec![2, 1]),
        ],
        &registry(),
    );
    let chain = WorkflowRuntimeEventChain::from_replan_request(&request, "t1");
    assert_eq!(chain.events.len(), 3);
    assert_eq!(chain.events[1].severity_text, "WARN");
    assert_eq!(chain.events[1].event_name, "workflow.verification.cannot_verify");
    match attr(&chain.events[2], "failed_goal_clauses") {
        EventValue::Numbers(c) => assert_eq!(c, &vec![1, 2, 3]),
        _ => panic!("failed_goal_clauses"),
    }

    let passing = OrchestratorReplanRequest::from_runtime(
        &goal_contract(),
        &wf,
        &run,
        &vec![],
        &vec![finding("a", VerificationOutcome::Pass, vec![1])],
        &registry(),
    );
    let quiet = WorkflowRuntimeEventChain::from_replan_request(&passing, "t1");
    assert!(!quiet.replan_requested);
    assert_eq!(quiet.events.len(), 1);
    assert_eq!(quiet.events[0].event_name, "workflow.verification.passed");
}

#[test]
fn run_and_patch_events_have_their_bodies_and_attributes() {
    let wf = workflow();
    let run = WorkflowRunState::for_workflow("run_demo", &wf, "t0");
    let created = WorkflowRuntimeEventChain::from_run_created(&wf, &run, "t1");
    assert_eq!(created.events[0].body, "Workflow run run_demo created for wf_goal_demo@v1.");
    assert_eq!(text(attr(&created.events[0], "workflow_status")), "running");
    assert_eq!(text(attr(&created.events[0], "run_status")), "running");

    let failed = WorkflowRuntimeEventChain::from_run_failed(&wf, &run, "boom", "It failed.", "t2");
    assert_eq!(failed.events[0].severity_text, "ERROR");
    assert_eq!(failed.events[0].body, "It failed.");
    assert_eq!(text(attr(&failed.events[0], "reason_code")), "boom");
    assert!(matches!(attr(&failed.events[0], "ended_at"), EventValue::Null));

    let patch = WorkflowPatch {
        patch_id: "patch_1".to_string(),
        workflow_id: "wf_goal_demo".to_string(),
        from_version: 1,
        to_version: 2,
        basis: PatchBasis {
            failed_steps: vec!["S002".to_string()],
            failed_goal_clauses: vec![2],
        },
        ops: vec![],
        rationale: "r".to_string(),
        predicted_impact: json("{}"),
    };
    let accepted = WorkflowRuntimeEventChain::from_patch_decision("wf_goal_demo", "run_demo", &patch, true, "t3", " ");
    assert_eq!(accepted.events[0].event_name, "workflow.patch.accepted");
    assert_eq!(accepted.events[0].body, "Workflow patch patch_1 accepted.");
    let rejected = WorkflowRuntimeEventChain::from_patch_decision("wf_goal_demo", "run_demo", &patch, false, "t3", "too big");
    assert_eq!(rejected.events[0].severity_text, "WARN");
    assert_eq!(rejected.events[0].body, "Workflow patch patch_1 rejected: too big");
    let review = WorkflowRuntimeEventChain::from_patch_review_request("run_demo", &patch, "prop_1", "t4");
    assert_eq!(review.workflow_id, "wf_goal_demo");
    assert_eq!(text(attr(&review.events[0], "proposal_id")), "prop_1");
    assert!(matches!(attr(&review.events[0], "op_count"), EventValue::Number(0)));
}

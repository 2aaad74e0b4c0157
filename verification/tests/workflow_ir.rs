use feroha::workflow::{
    AgentRegistry, AgentRegistryEntry, ControlPolicy, GoalAlignment, GoalContract, PatchBasis,
    RetryPolicy, WorkflowError, WorkflowIr, WorkflowPatch, WorkflowPatchOp, WorkflowStatus,
    WorkflowStep, WorkflowStepKind, WorkflowStepMode, WorkflowStepStatus,
};

fn json(text: &str) -> serde_json::Value {
    serde_json::from_str(text).unwrap()
}

fn goal_contract() -> GoalContract {
    GoalContract {
        goal_id: "goal_demo".to_string(),
        goal_text: "Improve harness workflow runtime".to_string(),
        success_definition: vec![
            "Workflow is schema-valid".to_string(),
            "Verifier findings can request a patch".to_string(),
        ],
        non_goals: vec![],
        constraints: json(r#"{"allow_new_dependency": false}"#),
        context_scope: vec!["src-tauri/src/harness/**".to_string()],
        approval_policy: json(r#"{"before_shell": true}"#),
        budget: json(r#"{"max_iterations": 3}"#),
        created_at: "2026-06-03T00:00:00Z".to_string(),
    }
}

fn registry() -> AgentRegistry {
    AgentRegistry::from_agents(vec![
        AgentRegistryEntry {
            agent_type: "repo_researcher".to_string(),
            allowed_tools: vec!["Read".to_string(), "Grep".to_string()],
            denied_tools: vec!["Write".to_string()],
            default_mode: WorkflowStepMode::ReadOnly,
            max_parallelism: 2,
            can_delegate: false,
        },
        AgentRegistryEntry {
            agent_type: "code_writer".to_string(),
            allowed_tools: vec!["Read".to_string(), "Edit".to_string()],
            denied_tools: vec!["Shell".to_string()],
            default_mode: WorkflowStepMode::WritePatch,
            max_parallelism: 1,
            can_delegate: false,
        },
        AgentRegistryEntry {
            agent_type: "test_runner".to_string(),
            allowed_tools: vec!["Read".to_string(), "Shell".to_string()],
            denied_tools: vec!["Edit".to_string()],
            default_mode: WorkflowStepMode::TestOnly,
            max_parallelism: 1,
            can_delegate: false,
        },
    ])
}

fn step(step_id: &str, agent_type: &str, dependencies: Vec<String>) -> WorkflowStep {
    WorkflowStep {
        step_id: step_id.to_string(),
        title: format!("Step {}", step_id),
        kind: WorkflowStepKind::Implement,
        agent_type: agent_type.to_string(),
        mode: WorkflowStepMode::WritePatch,
        task: "Produce a patch-shaped result, not a direct global decision.".to_string(),
        inputs: json(r#"{"files": ["src-tauri/src/harness/**"]}"#),
        dependencies,
        acceptance_criteria: vec!["Return a structured step report".to_string()],
        goal_alignment: GoalAlignment {
            success_clauses: vec![1],
            why_necessary: "Defines the executable workflow contract".to_string(),
        },
        retry_policy: RetryPolicy {
            max_attempts: 2,
            backoff_ms: 1000,
        },
        status: WorkflowStepStatus::Pending,
    }
}

fn workflow() -> WorkflowIr {
    WorkflowIr {
        workflow_id: "wf_goal_demo".to_string(),
        goal_id: "goal_demo".to_string(),
        version: 1,
        parent_version: None,
        status: WorkflowStatus::Running,
        global_context: json(r#"{"repo_summary": "FeroHa harness"}"#),
        control_policy: ControlPolicy {
            max_parallel_steps: 2,
            replan_on_verification_fail: true,
            max_patch_chain: 3,
        },
        steps: vec![
            step("S001", "repo_researcher", vec![]),
            step("S002", "code_writer", vec!["S001".to_string()]),
        ],
        created_by: "orchestrator@v1".to_string(),
        created_at: "2026-06-03T00:01:00Z".to_string(),
    }
}

fn add_s003_patch(patch_id: &str, to_version: usize) -> WorkflowPatch {
    WorkflowPatch {
        patch_id: patch_id.to_string(),
        workflow_id: "wf_goal_demo".to_string(),
        from_version: 1,
        to_version,
        basis: PatchBasis {
            failed_steps: vec!["S002".to_string()],
            failed_goal_clauses: vec![2],
        },
        ops: vec![WorkflowPatchOp::AddStep {
            after: Some("S002".to_string()),
            step: step("S003", "code_writer", vec!["S002".to_string()]),
        }],
        rationale: "Only add the missing verifier-driven repair step.".to_string(),
        predicted_impact: json(r#"{"additional_runtime_minutes": 6}"#),
    }
}

#[test]
fn workflow_validation_accepts_the_demo_workflow() {
    assert_eq!(workflow().validate(&goal_contract(), &registry()), Ok(()));
}

#[test]
fn workflow_validation_rejects_missing_goal_alignment() {
    let mut wf = workflow();
    wf.steps[1].goal_alignment.success_clauses.clear();
    let error = wf.validate(&goal_contract(), &registry()).unwrap_err();
    assert_eq!(error, WorkflowError::MissingGoalAlignment("S002".to_string()));
}

#[test]
fn workflow_validation_rejects_unknown_agent_type() {
    let mut wf = workflow();
    wf.steps[1].agent_type = "unregistered_agent".to_string();
    let error = wf.validate(&goal_contract(), &registry()).unwrap_err();
    assert_eq!(
        error,
        WorkflowError::UnknownAgentType("unregistered_agent".to_string())
    );
}

#[test]
fn workflow_validation_rejects_dependency_cycles() {
    let mut wf = workflow();
    wf.steps[0].dependencies = vec!["S002".to_string()];
    let error = wf.validate(&goal_contract(), &registry()).unwrap_err();
    assert!(matches!(error, WorkflowError::CyclicDependency(_)));
}

#[test]
fn workflow_validation_rejects_duplicates_unknown_deps_and_bad_clauses() {
    let mut dup = workflow();
    dup.steps[1].step_id = "S001".to_string();
    assert_eq!(
        dup.validate(&goal_contract(), &registry()).unwrap_err(),
        WorkflowError::DuplicateStepId("S001".to_string())
    );

    let mut unknown = workflow();
    unknown.steps[1].dependencies = vec!["S404".to_string()];
    assert_eq!(
        unknown.validate(&goal_contract(), &registry()).unwrap_err(),
        WorkflowError::UnknownDependency {
            step_id: "S002".to_string(),
            dependency: "S404".to_string()
        }
    );

    let mut clause = workflow();
    clause.steps[0].goal_alignment.success_clauses = vec![3];
    assert_eq!(
        clause.validate(&goal_contract(), &registry()).unwrap_err(),
        WorkflowError::GoalClauseOutOfRange {
            step_id: "S001".to_string(),
            clause: 3
        }
    );
}

#[test]
fn agent_registry_deny_list_wins_and_subagents_do_not_delegate_by_default() {
    let registry = registry();
    assert!(registry.allows_tool("repo_researcher", "Read"));
    assert!(!registry.allows_tool("repo_researcher", "Write"));
    assert!(!registry.can_delegate("repo_researcher"));
}

#[test]
fn agent_registry_later_entries_replace_earlier_ones() {
    let registry = AgentRegistry::from_agents(vec![
        AgentRegistryEntry {
            agent_type: "writer".to_string(),
            allowed_tools: vec!["Read".to_string()],
            denied_tools: vec![],
            default_mode: WorkflowStepMode::ReadOnly,
            max_parallelism: 1,
            can_delegate: false,
        },
        AgentRegistryEntry {
            agent_type: "writer".to_string(),
            allowed_tools: vec!["Edit".to_string(), "delegate".to_string()],
            denied_tools: vec![],
            default_mode: WorkflowStepMode::WritePatch,
            max_parallelism: 1,
            can_delegate: true,
        },
    ]);
    assert!(registry.contains_agent("writer"));
    assert!(!registry.allows_tool("writer", "Read"));
    assert!(registry.allows_tool("writer", "Edit"));
    assert!(registry.can_delegate("writer"));
    assert_eq!(
        registry.tools_for_agent("writer").unwrap(),
        vec!["Edit".to_string(), "delegate".to_string()]
    );
    assert!(registry.tools_for_agent("nobody").is_err());
}

#[test]
fn workflow_patch_adds_steps_and_preserves_version_chain() {
    let wf = workflow();
    let patched = wf
        .apply_patch(&add_s003_patch("patch_wf_goal_demo_v1_to_v2", 2), &goal_contract(), &registry())
        .unwrap();
    assert_eq!(patched.version, 2);
    assert_eq!(patched.parent_version, Some(1));
    assert_eq!(
        patched.steps.iter().map(|s| s.step_id.as_str()).collect::<Vec<_>>(),
        vec!["S001", "S002", "S003"]
    );
    assert_eq!(patched.steps[1].status, WorkflowStepStatus::Pending);
}

#[test]
fn workflow_patch_rejects_empty_ops_and_patch_chain_over_budget() {
    let wf = workflow();
    let mut empty_patch = add_s003_patch("patch_empty", 2);
    empty_patch.ops = vec![];
    assert_eq!(
        wf.apply_patch(&empty_patch, &goal_contract(), &registry()).unwrap_err(),
        WorkflowError::EmptyPatch("patch_empty".to_string())
    );

    let over_budget = add_s003_patch("patch_over_budget", 5);
    assert_eq!(
        wf.apply_patch(&over_budget, &goal_contract(), &registry()).unwrap_err(),
        WorkflowError::PatchChainLimitExceeded {
            patch_id: "patch_over_budget".to_string(),
            max_patch_chain: 3,
            attempted_to_version: 5
        }
    );
}

#[test]
fn workflow_patch_checks_workflow_version_and_targets() {
    let wf = workflow();
    let mut other = add_s003_patch("p", 2);
    other.workflow_id = "wf_other".to_string();
    assert_eq!(
        wf.apply_patch(&other, &goal_contract(), &registry()).unwrap_err(),
        WorkflowError::PatchWorkflowMismatch {
            expected: "wf_goal_demo".to_string(),
            actual: "wf_other".to_string()
        }
    );

    let mut stale = add_s003_patch("p", 3);
    stale.from_version = 2;
    assert_eq!(
        wf.apply_patch(&stale, &goal_contract(), &registry()).unwrap_err(),
        WorkflowError::PatchVersionMismatch { expected: 1, actual: 2 }
    );

    let backwards = add_s003_patch("p", 1);
    assert_eq!(
        wf.apply_patch(&backwards, &goal_contract(), &registry()).unwrap_err(),
        WorkflowError::InvalidPatchVersion { from_version: 1, to_version: 1 }
    );

    let mut missing = add_s003_patch("p", 2);
    missing.ops = vec![WorkflowPatchOp::ReplaceStepStatus {
        step_id: "S404".to_string(),
        status: WorkflowStepStatus::Skipped,
    }];
    assert_eq!(
        wf.apply_patch(&missing, &goal_contract(), &registry()).unwrap_err(),
        WorkflowError::PatchTargetMissing("S404".to_string())
    );

    let mut duplicate = add_s003_patch("p", 2);
    duplicate.ops = vec![WorkflowPatchOp::AddStep { after: None, step: step("S001", "code_writer", vec![]) }];
    assert_eq!(
        wf.apply_patch(&duplicate, &goal_contract(), &registry()).unwrap_err(),
        WorkflowError::DuplicateStepId("S001".to_string())
    );
}

#[test]
fn workflow_patch_replaces_status_and_policy_then_validates() {
    let wf = workflow();
    let mut patch = add_s003_patch("p", 2);
    patch.ops = vec![
        WorkflowPatchOp::ReplaceStepStatus {
            step_id: "S002".to_string(),
            status: WorkflowStepStatus::Blocked,
        },
        WorkflowPatchOp::ReplaceControlPolicy {
            control_policy: ControlPolicy {
                max_parallel_steps: 0,
                replan_on_verification_fail: false,
                max_patch_chain: 3,
            },
        },
    ];
    assert_eq!(
        wf.apply_patch(&patch, &goal_contract(), &registry()).unwrap_err(),
        WorkflowError::InvalidControlPolicy("max_parallel_steps must be greater than zero".to_string())
    );
    patch.ops.pop();
    let patched = wf.apply_patch(&patch, &goal_contract(), &registry()).unwrap();
    assert_eq!(patched.steps[1].status, WorkflowStepStatus::Blocked);
    assert_eq!(wf.steps[1].status, WorkflowStepStatus::Pending);
}

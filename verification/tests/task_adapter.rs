use feroha::dispatch::{NetworkPolicy, SandboxPolicy, StepDispatch};
use feroha::task_adapter::{
    adapt, dispatch_max_iterations, research_keywords, research_question, workflow_task_id,
    AdaptedWorkflowTask, DEFAULT_MAX_ITERATIONS,
};
use feroha::workflow::{ArtifactContract, WorkflowStepKind, WorkflowStepMode};

fn json(text: &str) -> serde_json::Value {
    serde_json::from_str(text).unwrap()
}

fn read_only_research() -> SandboxPolicy {
    SandboxPolicy {
        network_policy: NetworkPolicy::AcademicOnly,
        max_runtime_secs: 600,
        requires_bridge: false,
        tool_allowlist: vec!["WebSearch".to_string()],
        read_roots: vec![".".to_string()],
        write_roots: vec![],
    }
}

fn dispatch_with_kind(capability: WorkflowStepKind) -> StepDispatch {
    StepDispatch {
        workflow_id: "wf_demo".to_string(),
        run_id: "run_demo".to_string(),
        step_id: "S001".to_string(),
        agent_type: "research_subagent".to_string(),
        capability,
        mode: WorkflowStepMode::ReadOnly,
        attempt: 1,
        inputs: json(r#"{"question": "What evidence supports the claim?"}"#),
        artifact_contract: ArtifactContract {
            expected_output: "Return a cited evidence packet".to_string(),
            acceptance_criteria: vec!["Every claim has a source".to_string()],
            success_clauses: vec![1],
        },
        sandbox_policy: read_only_research(),
    }
}

fn research_dispatch(run_id: &str, step_id: &str) -> StepDispatch {
    let mut dispatch = dispatch_with_kind(WorkflowStepKind::Research);
    dispatch.run_id = run_id.to_string();
    dispatch.step_id = step_id.to_string();
    dispatch
}

#[test]
fn research_dispatch_becomes_path_safe_deep_research_task() {
    let dispatch = research_dispatch("run_demo", "S001");
    let adapted = adapt(&dispatch, 100);
    let AdaptedWorkflowTask::Task(task) = adapted else {
        panic!("expected task")
    };

    assert_eq!(task.id, "workflow__run_demo__S001__attempt_1");
    assert_eq!(task.question, "What evidence supports the claim?");
    assert_eq!(task.sandbox_policy.tool_allowlist, dispatch.sandbox_policy.tool_allowlist);
    assert_eq!(task.sandbox_policy.network_policy, dispatch.sandbox_policy.network_policy);
    assert_eq!(task.context.run_id, "run_demo");
}

#[test]
fn implement_dispatch_is_explicitly_unsupported() {
    let dispatch = dispatch_with_kind(WorkflowStepKind::Implement);

    let AdaptedWorkflowTask::Unsupported { capability, reason_code, summary } = adapt(&dispatch, 100) else {
        panic!("expected unsupported")
    };

    assert_eq!(capability, WorkflowStepKind::Implement);
    assert_eq!(reason_code, "unsupported_workflow_capability");
    assert_eq!(summary, "No narrow-loop executor for Implement".to_string());
}

#[test]
fn research_task_carries_its_workflow_context_and_defaults() {
    let dispatch = research_dispatch("run_x", "S007");
    let AdaptedWorkflowTask::Task(task) = adapt(&dispatch, 42) else {
        panic!("expected task")
    };
    assert_eq!(task.context.workflow_id, "wf_demo");
    assert_eq!(task.context.step_id, "S007");
    assert_eq!(task.context.attempt, 1);
    assert_eq!(task.context.acceptance_criteria, vec!["Every claim has a source".to_string()]);
    assert_eq!(task.intent, "workflow research S007");
    assert_eq!(task.created_at, 42);
    assert_eq!(task.command_max_iterations, None);
    assert_eq!(task.max_iterations, DEFAULT_MAX_ITERATIONS);
}

#[test]
fn question_falls_back_to_keywords_then_expected_output() {
    let mut dispatch = research_dispatch("run_demo", "S001");
    dispatch.inputs = json(r#"{"question": "   ", "keywords": [" bayes ", 3, "", "priors"]}"#);
    assert_eq!(research_keywords(&dispatch), Some("bayes, priors".to_string()));
    assert_eq!(research_question(&dispatch), "bayes, priors");

    dispatch.inputs = json(r#"{"keywords": ["  "]}"#);
    assert_eq!(research_keywords(&dispatch), None);
    assert_eq!(research_question(&dispatch), "Return a cited evidence packet");

    dispatch.inputs = json(r#"{"question": "  Why?  "}"#);
    assert_eq!(research_question(&dispatch), "Why?");
}

#[test]
fn iteration_limit_reads_numbers_texts_and_the_camel_case_key() {
    let mut dispatch = research_dispatch("run_demo", "S001");
    dispatch.inputs = json(r#"{"max_iterations": 7}"#);
    assert_eq!(dispatch_max_iterations(&dispatch), Some(7));
    dispatch.inputs = json(r#"{"maxIterations": " 12 "}"#);
    assert_eq!(dispatch_max_iterations(&dispatch), Some(12));
    dispatch.inputs = json(r#"{"max_iterations": "many", "maxIterations": 5}"#);
    assert_eq!(dispatch_max_iterations(&dispatch), None);
    dispatch.inputs = json(r#"{"max_iterations": -3}"#);
    assert_eq!(dispatch_max_iterations(&dispatch), None);

    dispatch.inputs = json(r#"{"question": "q", "max_iterations": 9}"#);
    let AdaptedWorkflowTask::Task(task) = adapt(&dispatch, 1) else {
        panic!("expected task")
    };
    assert_eq!(task.command_max_iterations, Some(9));
    assert_eq!(task.max_iterations, 9);
}

#[test]
fn task_ids_name_run_step_and_attempt() {
    let mut dispatch = research_dispatch("run_9", "S010");
    dispatch.attempt = 12;
    assert_eq!(workflow_task_id(&dispatch), "workflow__run_9__S010__attempt_12");
}

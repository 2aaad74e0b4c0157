use feroha::workflow::{WorkflowStatus, WorkflowStepKind, WorkflowStepMode, WorkflowStepStatus};
use feroha::workflow_template::{WorkflowTemplate, WorkflowTemplateError};

fn research_tools() -> Vec<String> {
    vec!["WebSearch".to_string(), "Read".to_string()]
}

fn json(text: &str) -> serde_json::Value {
    serde_json::from_str(text).unwrap()
}

#[test]
fn template_builds_one_ready_read_only_research_step() {
    let template = WorkflowTemplate::build(
        "Map the evidence for Bayesian memory",
        vec!["Every conclusion cites evidence".to_string()],
        100,
        research_tools(),
    )
    .unwrap();

    assert_eq!(template.workflow.steps.len(), 1);
    let step = &template.workflow.steps[0];
    assert_eq!(step.kind, WorkflowStepKind::Research);
    assert_eq!(step.mode, WorkflowStepMode::ReadOnly);
    assert_eq!(step.status, WorkflowStepStatus::Ready);
    assert_eq!(step.acceptance_criteria, vec!["Every conclusion cites evidence"]);
    assert!(template.registry.contains_agent("research_subagent"));
}

#[test]
fn template_rejects_empty_goal_and_empty_acceptance_contract() {
    assert_eq!(
        WorkflowTemplate::build(" ", vec!["evidence".to_string()], 100, research_tools()).unwrap_err(),
        WorkflowTemplateError::GoalRequired
    );
    assert_eq!(
        WorkflowTemplate::build("goal", vec![" ".to_string()], 100, research_tools()).unwrap_err(),
        WorkflowTemplateError::AcceptanceCriteriaRequired
    );
    assert_eq!(WorkflowTemplateError::GoalRequired.as_str(), "goal_required");
    assert_eq!(WorkflowTemplateError::AcceptanceCriteriaRequired.as_str(), "acceptance_criteria_required");
}

#[test]
fn template_ids_and_contract_come_from_the_time_and_criteria() {
    let template = WorkflowTemplate::build(
        "  Why does it rain?  ",
        vec![" A ".to_string(), "B".to_string(), "A".to_string(), "".to_string()],
        42,
        research_tools(),
    )
    .unwrap();
    assert_eq!(template.goal.goal_id, "goal_42");
    assert_eq!(template.workflow.workflow_id, "wf_42");
    assert_eq!(template.run_id, "run_42");
    assert_eq!(template.goal.goal_text, "Why does it rain?");
    assert_eq!(template.goal.success_definition, vec!["A".to_string(), "B".to_string()]);
    assert_eq!(template.workflow.status, WorkflowStatus::Running);
    let step = &template.workflow.steps[0];
    assert_eq!(step.goal_alignment.success_clauses, vec![1, 2]);
    assert_eq!(step.inputs, json(r#"{"question": "Why does it rain?", "max_iterations": 30}"#));
    assert_eq!(
        template.goal.constraints,
        json(r#"{"ai_output_surface": "dream_only", "human_notes_mutable_by_ai": false}"#)
    );
    assert_eq!(template.goal.budget, json(r#"{"max_iterations": 30}"#));
    assert_eq!(template.workflow.global_context, json(r#"{"template": "deterministic_research_v1"}"#));
    assert_eq!(template.workflow.created_by, "orchestrator@deterministic-v1");
}

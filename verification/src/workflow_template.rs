//! The fixed research workflow a goal with acceptance criteria starts as: one ready,
//! read-only research step whose report is checked against the criteria.

use vstd::prelude::*;
use crate::completion::decimal;
use crate::link_graph::with_member;
use crate::text::{
    skip_ws, trim_end_at, chars_of, contains_string, owned, push_str, string_of, strings_view, trim, trim_chars,
};
use crate::workflow::{
    agent_entry_view, last_entry, AgentEntryView, AgentRegistry, AgentRegistryEntry, ControlPolicy,
    GoalAlignment, GoalContract, RetryPolicy, WorkflowIr, WorkflowIrView, WorkflowStatus,
    WorkflowStep, WorkflowStepKind, WorkflowStepMode, WorkflowStepStatus, WorkflowStepView,
    deps_acyclic, first_bad_clause, first_unknown_dep, id_error, is_dep_cycle, precheck, step_error,
    step_ids, steps_error, validate_ok, dep_edge,
};
use crate::workflow::WorkflowError;

verus! {

/// A scalar member of a JSON object.
#[derive(Debug, Clone)]
pub enum JsonScalar {
    Text(String),
    Number(u64),
    Flag(bool),
}

pub enum JsonScalarView {
    Text(Seq<char>),
    Number(u64),
    Flag(bool),
}

pub open spec fn scalar_view(s: JsonScalar) -> JsonScalarView {
    match s {
        JsonScalar::Text(t) => JsonScalarView::Text(t@),
        JsonScalar::Number(n) => JsonScalarView::Number(n),
        JsonScalar::Flag(b) => JsonScalarView::Flag(b),
    }
}

/// The JSON object with the given scalar members, in order (`serde_json::Value::Object`).
pub uninterp spec fn json_scalars_of(members: Seq<(Seq<char>, JsonScalarView)>) -> serde_json::Value;

/// Builds a JSON object of scalar members; of the value the library knows its name.
#[verifier::external_body]
fn json_scalar_object(members: &Vec<(String, JsonScalar)>) -> (res: serde_json::Value)
    ensures
        res == json_scalars_of(members@.map_values(|p: (String, JsonScalar)| (p.0@, scalar_view(p.1)))),
{
    serde_json::Value::Object(
        members
            .iter()
            .map(|(k, v)| {
                (
                    k.clone(),
                    match v {
                        JsonScalar::Text(t) => serde_json::Value::String(t.clone()),
                        JsonScalar::Number(n) => serde_json::Value::from(*n),
                        JsonScalar::Flag(b) => serde_json::Value::Bool(*b),
                    },
                )
            })
            .collect(),
    )
}

/// Why a template could not be built.
#[derive(Debug, Clone, Copy, PartialEq, Eq, Structural)]
pub enum WorkflowTemplateError {
    GoalRequired,
    AcceptanceCriteriaRequired,
}

impl WorkflowTemplateError {
    /// The error's message.
    pub fn as_str(&self) -> (res: &'static str)
        ensures
            res@ == match self {
                WorkflowTemplateError::GoalRequired => "goal_required"@,
                WorkflowTemplateError::AcceptanceCriteriaRequired => "acceptance_criteria_required"@,
            },
    {
        match self {
            WorkflowTemplateError::GoalRequired => "goal_required",
            WorkflowTemplateError::AcceptanceCriteriaRequired => "acceptance_criteria_required",
        }
    }
}

/// A goal, its one-step research workflow, the registry that runs it, and the run's id.
#[derive(Debug, Clone)]
pub struct WorkflowTemplate {
    pub goal: GoalContract,
    pub workflow: WorkflowIr,
    pub registry: AgentRegistry,
    pub run_id: String,
}

/// The criteria trimmed, without blanks, each once, in the order they first come.
pub open spec fn distinct_criteria(cs: Seq<Seq<char>>) -> Seq<Seq<char>>
    decreases cs.len(),
{
    if cs.len() == 0 {
        Seq::empty()
    } else {
        let prev = distinct_criteria(cs.drop_last());
        let t = trim(cs.last());
        if t.len() > 0 {
            with_member(prev, t)
        } else {
            prev
        }
    }
}

/// `1, 2, ..., n`.
pub open spec fn one_to(n: nat) -> Seq<usize> {
    Seq::new(n, |i: int| (i + 1) as usize)
}

/// The agent that runs template research: read-only, one at a time, with the research tools.
pub open spec fn research_agent(tools: Seq<Seq<char>>) -> AgentEntryView {
    AgentEntryView {
        agent_type: "research_subagent"@,
        allowed_tools: tools,
        denied_tools: seq!["Write"@, "Edit"@],
        default_mode: WorkflowStepMode::ReadOnly,
        max_parallelism: 1,
        can_delegate: false,
    }
}

/// The template of a goal: ids from `now`, the goal's criteria as its success definition and as
/// its one research step's acceptance criteria, each criterion its own success clause.
pub open spec fn is_template(t: WorkflowTemplate, goal: Seq<char>, criteria: Seq<Seq<char>>, now: u64, tools: Seq<Seq<char>>) -> bool {
    let n = decimal(now as nat);
    let created = n;
    &&& t.goal.goal_id@ == "goal_"@ + n
    &&& t.goal.goal_text@ == goal
    &&& strings_view(t.goal.success_definition@) == criteria
    &&& t.goal.non_goals@.len() == 0
    &&& t.goal.constraints == json_scalars_of(seq![
        ("ai_output_surface"@, JsonScalarView::Text("dream_only"@)),
        ("human_notes_mutable_by_ai"@, JsonScalarView::Flag(false)),
    ])
    &&& strings_view(t.goal.context_scope@) == seq!["**/*.md"@]
    &&& t.goal.approval_policy == json_scalars_of(seq![("mode"@, JsonScalarView::Text("automatic_contract_verification"@))])
    &&& t.goal.budget == json_scalars_of(seq![("max_iterations"@, JsonScalarView::Number(30))])
    &&& t.goal.created_at@ == created
    &&& t.workflow@ == WorkflowIrView {
        workflow_id: "wf_"@ + n,
        goal_id: "goal_"@ + n,
        version: 1,
        parent_version: None,
        status: WorkflowStatus::Running,
        global_context: json_scalars_of(seq![("template"@, JsonScalarView::Text("deterministic_research_v1"@))]),
        control_policy: ControlPolicy { max_parallel_steps: 1, replan_on_verification_fail: true, max_patch_chain: 1 },
        steps: seq![WorkflowStepView {
            step_id: "S001"@,
            title: "Research goal"@,
            kind: WorkflowStepKind::Research,
            agent_type: "research_subagent"@,
            mode: WorkflowStepMode::ReadOnly,
            task: "Produce an evidence-backed Markdown research report"@,
            inputs: json_scalars_of(seq![
                ("question"@, JsonScalarView::Text(goal)),
                ("max_iterations"@, JsonScalarView::Number(30)),
            ]),
            dependencies: Seq::empty(),
            acceptance_criteria: criteria,
            success_clauses: one_to(criteria.len()),
            why_necessary: "The research report is the evidence source for the goal"@,
            retry_policy: RetryPolicy { max_attempts: 1, backoff_ms: 0 },
            status: WorkflowStepStatus::Ready,
        }],
        created_by: "orchestrator@deterministic-v1"@,
        created_at: created,
    }
    &&& t.registry.well_formed()
    &&& exists|e: AgentRegistryEntry|
        agent_entry_view(e) == research_agent(tools) && forall|name: Seq<char>|
            #[trigger] t.registry.lookup(name) == (if name == "research_subagent"@ { Some(e) } else { None })
    &&& t.run_id@ == "run_"@ + n
}

/// `prefix` followed by the decimal digits of `now`.
fn stamped(prefix: &str, now: u64) -> (res: String)
    ensures
        res@ == prefix@ + decimal(now as nat),
{
    let mut v = chars_of(prefix);
    let d = crate::workflow_runtime::decimal_u64(now);
    push_str(&mut v, d.as_str());
    string_of(&v)
}

/// The criteria trimmed, without blanks, each once.
fn distinct_trimmed(criteria: &Vec<String>) -> (res: Vec<String>)
    ensures
        strings_view(res@) == distinct_criteria(strings_view(criteria@)),
{
    let ghost cs = strings_view(criteria@);
    let mut out: Vec<String> = Vec::new();
    let mut i: usize = 0;
    while i < criteria.len()
        invariant
            i <= criteria.len(),
            cs == strings_view(criteria@),
            strings_view(out@) == distinct_criteria(cs.take(i as int)),
        decreases criteria.len() - i,
    {
        assert(cs.take(i + 1).drop_last() == cs.take(i as int));
        assert(cs.take(i + 1).last() == criteria@[i as int]@);
        let cc = chars_of(criteria[i].as_str());
        let tc = trim_chars(&cc);
        if tc.len() > 0 {
            let t = string_of(&tc);
            if !contains_string(&out, &t) {
                let ghost before = strings_view(out@);
                out.push(t);
                assert(strings_view(out@) =~= before.push(trim(criteria@[i as int]@)));
            }
        }
        i = i + 1;
    }
    assert(cs.take(criteria.len() as int) == cs);
    out
}

impl WorkflowTemplate {
    /// Builds the research workflow of a goal, at `now`: the goal must not be blank and must
    /// keep at least one acceptance criterion once they are trimmed, blanks dropped and repeats
    /// dropped. `research_tools` are the tools the read-only research sandbox allows.
    pub fn build(goal_text: &str, acceptance_criteria: Vec<String>, now: u64, research_tools: Vec<String>) -> (res: Result<WorkflowTemplate, WorkflowTemplateError>)
        ensures
            ({
                let goal = trim(goal_text@);
                let criteria = distinct_criteria(strings_view(acceptance_criteria@));
                match res {
                    Err(e) => if goal.len() == 0 {
                        e == WorkflowTemplateError::GoalRequired
                    } else {
                        criteria.len() == 0 && e == WorkflowTemplateError::AcceptanceCriteriaRequired
                    },
                    Ok(t) => goal.len() > 0 && criteria.len() > 0 && is_template(t, goal, criteria, now, strings_view(research_tools@)),
                }
            }),
    {
        let gc = chars_of(goal_text);
        let gt = trim_chars(&gc);
        if gt.len() == 0 {
            return Err(WorkflowTemplateError::GoalRequired);
        }
        let goal = string_of(&gt);
        let criteria = distinct_trimmed(&acceptance_criteria);
        if criteria.len() == 0 {
            return Err(WorkflowTemplateError::AcceptanceCriteriaRequired);
        }
        let goal_id = stamped("goal_", now);
        let workflow_id = stamped("wf_", now);
        let run_id = stamped("run_", now);
        let created_at = crate::workflow_runtime::decimal_u64(now);
        let mut success_clauses: Vec<usize> = Vec::new();
        let mut k: usize = 0;
        while k < criteria.len()
            invariant
                k <= criteria.len(),
                success_clauses@ == one_to(k as nat),
            decreases criteria.len() - k,
        {
            success_clauses.push(k + 1);
            assert(success_clauses@ =~= one_to((k + 1) as nat));
            k = k + 1;
        }
        let entry = AgentRegistryEntry {
            agent_type: owned("research_subagent"),
            allowed_tools: research_tools,
            denied_tools: vec![owned("Write"), owned("Edit")],
            default_mode: WorkflowStepMode::ReadOnly,
            max_parallelism: 1,
            can_delegate: false,
        };
        let ghost e = entry;
        proof {
            reveal_strlit("research_subagent");
            reveal_strlit("Write");
            reveal_strlit("Edit");
        }
        assert(strings_view(entry.denied_tools@) =~= seq!["Write"@, "Edit"@]);
        let mut agents: Vec<AgentRegistryEntry> = Vec::new();
        agents.push(entry);
        assert(agents@ =~= seq![e]);
        let registry = AgentRegistry::from_agents(agents);
        assert forall|name: Seq<char>| #[trigger] registry.lookup(name) == (if name == "research_subagent"@ { Some(e) } else { None }) by {
            assert(seq![e].drop_first() =~= Seq::<AgentRegistryEntry>::empty());
            assert(last_entry(seq![e].drop_first(), name) is None);
            assert(registry.lookup(name) == last_entry(seq![e], name));
        }
        let mut constraints: Vec<(String, JsonScalar)> = Vec::new();
        constraints.push((owned("ai_output_surface"), JsonScalar::Text(owned("dream_only"))));
        constraints.push((owned("human_notes_mutable_by_ai"), JsonScalar::Flag(false)));
        let mut approval: Vec<(String, JsonScalar)> = Vec::new();
        approval.push((owned("mode"), JsonScalar::Text(owned("automatic_contract_verification"))));
        let mut budget: Vec<(String, JsonScalar)> = Vec::new();
        budget.push((owned("max_iterations"), JsonScalar::Number(30)));
        let mut context: Vec<(String, JsonScalar)> = Vec::new();
        context.push((owned("template"), JsonScalar::Text(owned("deterministic_research_v1"))));
        let mut inputs: Vec<(String, JsonScalar)> = Vec::new();
        inputs.push((owned("question"), JsonScalar::Text(goal.clone())));
        inputs.push((owned("max_iterations"), JsonScalar::Number(30)));
        proof {
            assert(constraints@.map_values(|p: (String, JsonScalar)| (p.0@, scalar_view(p.1))) =~= seq![
                ("ai_output_surface"@, JsonScalarView::Text("dream_only"@)),
                ("human_notes_mutable_by_ai"@, JsonScalarView::Flag(false)),
            ]);
            assert(approval@.map_values(|p: (String, JsonScalar)| (p.0@, scalar_view(p.1))) =~= seq![
                ("mode"@, JsonScalarView::Text("automatic_contract_verification"@)),
            ]);
            assert(budget@.map_values(|p: (String, JsonScalar)| (p.0@, scalar_view(p.1))) =~= seq![
                ("max_iterations"@, JsonScalarView::Number(30)),
            ]);
            assert(context@.map_values(|p: (String, JsonScalar)| (p.0@, scalar_view(p.1))) =~= seq![
                ("template"@, JsonScalarView::Text("deterministic_research_v1"@)),
            ]);
            assert(inputs@.map_values(|p: (String, JsonScalar)| (p.0@, scalar_view(p.1))) =~= seq![
                ("question"@, JsonScalarView::Text(trim(goal_text@))),
                ("max_iterations"@, JsonScalarView::Number(30)),
            ]);
        }
        let goal_contract = GoalContract {
            goal_id: goal_id.clone(),
            goal_text: goal.clone(),
            success_definition: crate::text::copy_strings(&criteria),
            non_goals: Vec::new(),
            constraints: json_scalar_object(&constraints),
            context_scope: vec![owned("**/*.md")],
            approval_policy: json_scalar_object(&approval),
            budget: json_scalar_object(&budget),
            created_at: created_at.clone(),
        };
        let step = WorkflowStep {
            step_id: owned("S001"),
            title: owned("Research goal"),
            kind: WorkflowStepKind::Research,
            agent_type: owned("research_subagent"),
            mode: WorkflowStepMode::ReadOnly,
            task: owned("Produce an evidence-backed Markdown research report"),
            inputs: json_scalar_object(&inputs),
            dependencies: Vec::new(),
            acceptance_criteria: criteria,
            goal_alignment: GoalAlignment {
                success_clauses,
                why_necessary: owned("The research report is the evidence source for the goal"),
            },
            retry_policy: RetryPolicy { max_attempts: 1, backoff_ms: 0 },
            status: WorkflowStepStatus::Ready,
        };
        let workflow = WorkflowIr {
            workflow_id,
            goal_id,
            version: 1,
            parent_version: None,
            status: WorkflowStatus::Running,
            global_context: json_scalar_object(&context),
            control_policy: ControlPolicy { max_parallel_steps: 1, replan_on_verification_fail: true, max_patch_chain: 1 },
            steps: vec![step],
            created_by: owned("orchestrator@deterministic-v1"),
            created_at,
        };
        proof {
            reveal_strlit("**/*.md");
        }
        assert(strings_view(goal_contract.context_scope@) =~= seq!["**/*.md"@]);
        let t = WorkflowTemplate { goal: goal_contract, workflow, registry, run_id };
        proof {
            let sv = t.workflow.steps@[0]@;
            assert(sv.dependencies =~= Seq::<Seq<char>>::empty());
            assert(sv == (WorkflowStepView {
                step_id: "S001"@,
                title: "Research goal"@,
                kind: WorkflowStepKind::Research,
                agent_type: "research_subagent"@,
                mode: WorkflowStepMode::ReadOnly,
                task: "Produce an evidence-backed Markdown research report"@,
                inputs: json_scalars_of(seq![
                    ("question"@, JsonScalarView::Text(trim(goal_text@))),
                    ("max_iterations"@, JsonScalarView::Number(30)),
                ]),
                dependencies: Seq::empty(),
                acceptance_criteria: distinct_criteria(strings_view(acceptance_criteria@)),
                success_clauses: one_to(distinct_criteria(strings_view(acceptance_criteria@)).len()),
                why_necessary: "The research report is the evidence source for the goal"@,
                retry_policy: RetryPolicy { max_attempts: 1, backoff_ms: 0 },
                status: WorkflowStepStatus::Ready,
            }));
            assert(t.workflow@.steps =~= seq![sv]);
            assert(agent_entry_view(e) == research_agent(strings_view(research_tools@)));
        }
        Ok(t)
    }
}

proof fn lemma_one_to_in_range(n: nat, k: nat, goal_len: int)
    requires
        k <= n,
        n <= goal_len,
        n <= usize::MAX,
    ensures
        first_bad_clause(one_to(n).skip((n - k) as int), goal_len) is None,
    decreases k,
{
    let c = one_to(n).skip((n - k) as int);
    if k > 0 {
        assert(one_to(n)[(n - k) as int] == ((n - k) + 1) as usize);
        assert(c[0] == (n - k + 1) as usize);
        assert(c.drop_first() =~= one_to(n).skip((n - k + 1) as int));
        lemma_one_to_in_range(n, (k - 1) as nat, goal_len);
    } else {
        assert(c.len() == 0);
    }
}

/// A template passes validation: the workflow it builds is checked against its own goal and
/// registry without error, whatever the goal, criteria, time and tools it was built from.
pub proof fn lemma_template_validates(
    t: WorkflowTemplate,
    goal: Seq<char>,
    criteria: Seq<Seq<char>>,
    now: u64,
    tools: Seq<Seq<char>>,
    res: Result<(), WorkflowError>,
)
    requires
        is_template(t, goal, criteria, now, tools),
        0 < criteria.len() <= usize::MAX,
        validate_ok(t.workflow@, t.goal, t.registry, res),
    ensures
        res is Ok,
{
    let w = t.workflow@;
    let n = criteria.len();
    reveal_strlit("S001");
    let s0 = w.steps[0];
    assert(trim(s0.step_id).len() > 0) by {
        assert(skip_ws(s0.step_id, 0) == 0);
        assert(trim_end_at(s0.step_id, 4) == 4);
    }
    assert(step_ids(w.steps).take(0) =~= Seq::<Seq<char>>::empty());
    assert(id_error(w.steps, 1) is None);
    assert(id_error(w.steps, 0) is None);
    let e = choose|e: AgentRegistryEntry|
        agent_entry_view(e) == research_agent(tools) && forall|name: Seq<char>|
            #[trigger] t.registry.lookup(name) == (if name == "research_subagent"@ { Some(e) } else { None });
    assert(t.registry.lookup(s0.agent_type) is Some);
    lemma_one_to_in_range(n, n, n as int);
    assert(one_to(n).skip(0) =~= one_to(n));
    assert(first_unknown_dep(s0.dependencies, step_ids(w.steps)) is None);
    assert(step_error(s0, step_ids(w.steps), n as int, t.registry) is None);
    assert(steps_error(w.steps, 1, step_ids(w.steps), n as int, t.registry) is None);
    assert(steps_error(w.steps, 0, step_ids(w.steps), n as int, t.registry) is None);
    assert(precheck(w, t.goal, t.registry) is None);
    assert forall|c: Seq<Seq<char>>| !is_dep_cycle(w, c) by {
        if is_dep_cycle(w, c) {
            assert(dep_edge(w, c[0], c[1]));
            let i = choose|i: int| 0 <= i < w.steps.len() && #[trigger] w.steps[i].step_id == c[0] && w.steps[i].dependencies.contains(c[1]);
            assert(i == 0);
        }
    }
    assert(deps_acyclic(w));
}

} // verus!

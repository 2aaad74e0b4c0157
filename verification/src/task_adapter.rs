//! Turning a dispatched workflow step into a research task for the scheduler, or refusing it
//! where the runtime has no executor for the step's capability.

use vstd::prelude::*;
use crate::completion::decimal;
use crate::dispatch::{
    json_array_at, json_as_text, json_member, json_member_array, json_member_value,
    json_string_text, sandbox_view, SandboxPolicy, StepDispatch,
};
use crate::lean_kernel::{join, join_ids};
use crate::text::{
    chars_of, copy_strings, owned, parse_usize, parse_usize_spec, push_str, string_of,
    strings_view, trim, trim_chars,
};
use crate::workflow::WorkflowStepKind;
use crate::workflow_runtime::WorkflowTaskContext;

verus! {

/// How many iterations a research task runs where its dispatch names none.
pub const DEFAULT_MAX_ITERATIONS: usize = 30;

/// The scheduler id of a dispatch's task: `workflow__<run>__<step>__attempt_<n>`.
pub open spec fn task_id_text(run_id: Seq<char>, step_id: Seq<char>, attempt: usize) -> Seq<char> {
    "workflow__"@ + run_id + "__"@ + step_id + "__attempt_"@ + decimal(attempt as nat)
}

/// The scheduler id of a dispatch's task.
pub fn workflow_task_id(dispatch: &StepDispatch) -> (res: String)
    ensures
        res@ == task_id_text(dispatch.run_id@, dispatch.step_id@, dispatch.attempt),
{
    let mut v: Vec<char> = Vec::new();
    push_str(&mut v, "workflow__");
    push_str(&mut v, dispatch.run_id.as_str());
    push_str(&mut v, "__");
    push_str(&mut v, dispatch.step_id.as_str());
    push_str(&mut v, "__attempt_");
    let n = crate::completion::decimal_text(dispatch.attempt);
    crate::text::append_chars(&mut v, &n);
    string_of(&v)
}

/// The trimmed texts of the string items that are not blank, in order.
pub open spec fn keyword_texts(items: Seq<serde_json::Value>) -> Seq<Seq<char>>
    decreases items.len(),
{
    if items.len() == 0 {
        Seq::empty()
    } else {
        let prev = keyword_texts(items.drop_last());
        match json_string_text(items.last()) {
            Some(t) if trim(t).len() > 0 => prev.push(trim(t)),
            _ => prev,
        }
    }
}

/// The dispatch's `keywords` joined by `, `, where it lists any that are not blank.
pub open spec fn research_keywords_of(inputs: serde_json::Value) -> Option<Seq<char>> {
    match json_member_array(inputs, "keywords"@) {
        None => None,
        Some(items) => {
            let ks = keyword_texts(items);
            if ks.len() == 0 {
                None
            } else {
                Some(join(ks, ", "@))
            }
        },
    }
}

/// The question a research task asks: the dispatch's `question` where it is a text that is
/// not blank, trimmed; else its keywords; else the output its contract expects.
pub open spec fn research_question_of(d: StepDispatch) -> Seq<char> {
    let q = match json_member_value(d.inputs, "question"@) {
        Some(v) => match json_string_text(v) {
            Some(t) if trim(t).len() > 0 => Some(trim(t)),
            _ => None,
        },
        None => None,
    };
    match q {
        Some(t) => t,
        None => match research_keywords_of(d.inputs) {
            Some(k) => k,
            None => d.artifact_contract.expected_output@,
        },
    }
}

/// The whole number of a JSON number value that is a non-negative integer.
pub uninterp spec fn json_u64_value(v: serde_json::Value) -> Option<u64>;

/// `Value::as_u64`; of the result the library knows its name.
#[verifier::external_body]
fn json_as_u64(v: &serde_json::Value) -> (res: Option<u64>)
    ensures
        res == json_u64_value(*v),
{
    v.as_u64()
}

/// The iteration limit a dispatch asks for: under `max_iterations`, or else `maxIterations`,
/// a whole number that fits, or a text that parses as one once trimmed.
pub open spec fn max_iterations_of(inputs: serde_json::Value) -> Option<usize> {
    let v = match json_member_value(inputs, "max_iterations"@) {
        Some(v) => Some(v),
        None => json_member_value(inputs, "maxIterations"@),
    };
    match v {
        None => None,
        Some(v) => match json_u64_value(v) {
            Some(n) if n <= usize::MAX => Some(n as usize),
            _ => match json_string_text(v) {
                Some(t) => parse_usize_spec(trim(t)),
                None => None,
            },
        },
    }
}

/// The dispatch's keywords joined by `, `, where it lists any that are not blank.
pub fn research_keywords(dispatch: &StepDispatch) -> (res: Option<String>)
    ensures
        match res {
            Some(k) => research_keywords_of(dispatch.inputs) == Some(k@),
            None => research_keywords_of(dispatch.inputs) is None,
        },
{
    let items = match json_array_at(&dispatch.inputs, "keywords") {
        None => return None,
        Some(items) => items,
    };
    let mut keywords: Vec<String> = Vec::new();
    let mut i: usize = 0;
    while i < items.len()
        invariant
            i <= items.len(),
            strings_view(keywords@) == keyword_texts(items@.take(i as int)),
        decreases items.len() - i,
    {
        assert(items@.take(i + 1).drop_last() == items@.take(i as int));
        assert(items@.take(i + 1).last() == items@[i as int]);
        match json_as_text(&items[i]) {
            Some(t) => {
                let tc = chars_of(t.as_str());
                let tt = trim_chars(&tc);
                if tt.len() > 0 {
                    let ghost before = strings_view(keywords@);
                    keywords.push(string_of(&tt));
                    assert(strings_view(keywords@) =~= before.push(trim(t@)));
                }
            },
            None => {},
        }
        i = i + 1;
    }
    assert(items@.take(items.len() as int) == items@);
    if keywords.len() == 0 {
        None
    } else {
        let j = join_ids(&keywords, ", ");
        Some(string_of(&j))
    }
}

/// The question a research task asks of its dispatch.
pub fn research_question(dispatch: &StepDispatch) -> (res: String)
    ensures
        res@ == research_question_of(*dispatch),
{
    match json_member(&dispatch.inputs, "question") {
        Some(v) => match json_as_text(&v) {
            Some(t) => {
                let tc = chars_of(t.as_str());
                let tt = trim_chars(&tc);
                if tt.len() > 0 {
                    return string_of(&tt);
                }
            },
            None => {},
        },
        None => {},
    }
    match research_keywords(dispatch) {
        Some(k) => k,
        None => dispatch.artifact_contract.expected_output.clone(),
    }
}

/// The iteration limit a dispatch asks for, where it names one.
pub fn dispatch_max_iterations(dispatch: &StepDispatch) -> (res: Option<usize>)
    ensures
        res == max_iterations_of(dispatch.inputs),
{
    let v = match json_member(&dispatch.inputs, "max_iterations") {
        Some(v) => v,
        None => match json_member(&dispatch.inputs, "maxIterations") {
            Some(v) => v,
            None => return None,
        },
    };
    match json_as_u64(&v) {
        Some(n) => {
            if n <= usize::MAX as u64 {
                return Some(n as usize);
            }
        },
        None => {},
    }
    match json_as_text(&v) {
        Some(t) => {
            let tc = chars_of(t.as_str());
            let tt = trim_chars(&tc);
            parse_usize(&tt)
        },
        None => None,
    }
}

/// The research task a dispatch becomes: its id, its question, the iteration limit it asked
/// for and the one it runs with, the workflow context it reports back under, what it is for,
/// when it was made, and the sandbox it runs in.
#[derive(Debug, Clone)]
pub struct ResearchTaskPlan {
    pub id: String,
    pub question: String,
    pub command_max_iterations: Option<usize>,
    pub max_iterations: usize,
    pub context: WorkflowTaskContext,
    pub intent: String,
    pub created_at: u64,
    pub sandbox_policy: SandboxPolicy,
}

/// What a dispatch becomes: a research task, or a refusal for a capability the runtime has no
/// executor for.
#[derive(Debug, Clone)]
pub enum AdaptedWorkflowTask {
    Task(ResearchTaskPlan),
    Unsupported {
        capability: WorkflowStepKind,
        reason_code: String,
        summary: String,
    },
}

/// The name `{:?}` writes for a capability.
pub open spec fn kind_name(k: WorkflowStepKind) -> Seq<char> {
    match k {
        WorkflowStepKind::Research => "Research"@,
        WorkflowStepKind::Implement => "Implement"@,
        WorkflowStepKind::Test => "Test"@,
        WorkflowStepKind::Review => "Review"@,
        WorkflowStepKind::Verify => "Verify"@,
        WorkflowStepKind::Merge => "Merge"@,
    }
}

fn kind_text(k: WorkflowStepKind) -> (res: &'static str)
    ensures
        res@ == kind_name(k),
{
    match k {
        WorkflowStepKind::Research => "Research",
        WorkflowStepKind::Implement => "Implement",
        WorkflowStepKind::Test => "Test",
        WorkflowStepKind::Review => "Review",
        WorkflowStepKind::Verify => "Verify",
        WorkflowStepKind::Merge => "Merge",
    }
}

/// What the adapter makes of a dispatch, made at `created_at`.
pub open spec fn adapted_ok(d: StepDispatch, created_at: u64, res: AdaptedWorkflowTask) -> bool {
    if d.capability != WorkflowStepKind::Research {
        res matches AdaptedWorkflowTask::Unsupported { capability, reason_code, summary }
            && capability == d.capability
            && reason_code@ == "unsupported_workflow_capability"@
            && summary@ == "No narrow-loop executor for "@ + kind_name(d.capability)
    } else {
        res matches AdaptedWorkflowTask::Task(t) && {
            &&& t.id@ == task_id_text(d.run_id@, d.step_id@, d.attempt)
            &&& t.question@ == research_question_of(d)
            &&& t.command_max_iterations == max_iterations_of(d.inputs)
            &&& t.max_iterations == match max_iterations_of(d.inputs) {
                Some(n) => n,
                None => DEFAULT_MAX_ITERATIONS,
            }
            &&& t.context.workflow_id@ == d.workflow_id@
            &&& t.context.run_id@ == d.run_id@
            &&& t.context.step_id@ == d.step_id@
            &&& t.context.attempt == d.attempt
            &&& strings_view(t.context.acceptance_criteria@) == strings_view(d.artifact_contract.acceptance_criteria@)
            &&& t.intent@ == "workflow research "@ + d.step_id@
            &&& t.created_at == created_at
            &&& sandbox_view(t.sandbox_policy) == sandbox_view(d.sandbox_policy)
        }
    }
}

/// Makes a research task of a research dispatch, at `created_at`; any other capability is
/// refused as unsupported.
pub fn adapt(dispatch: &StepDispatch, created_at: u64) -> (res: AdaptedWorkflowTask)
    ensures
        adapted_ok(*dispatch, created_at, res),
{
    if dispatch.capability != WorkflowStepKind::Research {
        let mut m: Vec<char> = Vec::new();
        push_str(&mut m, "No narrow-loop executor for ");
        push_str(&mut m, kind_text(dispatch.capability));
        return AdaptedWorkflowTask::Unsupported {
            capability: dispatch.capability,
            reason_code: owned("unsupported_workflow_capability"),
            summary: string_of(&m),
        };
    }
    let command_max_iterations = dispatch_max_iterations(dispatch);
    let max_iterations = match command_max_iterations {
        Some(n) => n,
        None => DEFAULT_MAX_ITERATIONS,
    };
    let mut intent: Vec<char> = Vec::new();
    push_str(&mut intent, "workflow research ");
    push_str(&mut intent, dispatch.step_id.as_str());
    AdaptedWorkflowTask::Task(ResearchTaskPlan {
        id: workflow_task_id(dispatch),
        question: research_question(dispatch),
        command_max_iterations,
        max_iterations,
        context: WorkflowTaskContext {
            workflow_id: dispatch.workflow_id.clone(),
            run_id: dispatch.run_id.clone(),
            step_id: dispatch.step_id.clone(),
            attempt: dispatch.attempt,
            acceptance_criteria: copy_strings(&dispatch.artifact_contract.acceptance_criteria),
        },
        intent: string_of(&intent),
        created_at,
        sandbox_policy: dispatch.sandbox_policy.copied(),
    })
}

} // verus!

//! Durable runtime state of workflow runs: dispatch records and where run files live.

use vstd::prelude::*;
use crate::text::{join_path, path_join, owned, push_str, string_of, strings_view, str_eq, chars_of, contains_string};
use crate::workflow::{
    safe_component, safe_runtime_component, validate_ok, AgentRegistry, ArtifactContract, ArtifactRef,
    GoalContract, VerificationFinding, WorkflowError, WorkflowErrorView, WorkflowIr, WorkflowIrView, WorkflowRunState,
    WorkflowStep, WorkflowStepStatus, WorkflowStepView, first_with_id, has_step_id, with_status, with_steps,
    find_step, steps_view, copy_usizes,
};
use crate::dispatch::{sandbox_for, sandbox_view, StepDispatch};
use crate::replan::StepReport;
use crate::link_graph::without_member;
use crate::merge::{find_from, find_text, lemma_find_from_bounds};

verus! {

/// The file that holds a run's state, beside its event log.
pub const RUNTIME_FILE_NAME: &'static str = "runtime.json";

#[derive(Debug, Clone, Copy, PartialEq, Eq, Structural)]
pub enum WorkflowDispatchStatus {
    Dispatched,
    Queued,
    Running,
    Reported,
    Failed,
    Unsupported,
}

/// What became of one dispatch of a step.
#[derive(Debug, Clone, PartialEq, Eq)]
pub struct WorkflowDispatchRecord {
    pub step_id: String,
    pub attempt: usize,
    pub task_id: Option<String>,
    pub status: WorkflowDispatchStatus,
    pub detail: Option<String>,
}

/// What a task needs to know of the workflow step it carries out.
#[derive(Debug, Clone, PartialEq, Eq)]
pub struct WorkflowTaskContext {
    pub workflow_id: String,
    pub run_id: String,
    pub step_id: String,
    pub attempt: usize,
    pub acceptance_criteria: Vec<String>,
}

/// Where runs are stored: below `root/.harness/runs`.
#[derive(Debug, Clone)]
pub struct WorkflowRuntimeStore {
    root: String,
}

/// `root/.harness/runs/<run id>/runtime.json`.
pub open spec fn runtime_text(root: Seq<char>, run_id: Seq<char>) -> Seq<char> {
    path_join(path_join(path_join(path_join(root, ".harness"@), "runs"@), run_id), "runtime.json"@)
}

impl WorkflowRuntimeStore {
    /// A store rooted at the directory.
    pub fn new(root: &str) -> (res: WorkflowRuntimeStore)
        ensures
            res.root()@ == root@,
    {
        WorkflowRuntimeStore { root: crate::text::owned(root) }
    }

    pub closed spec fn root(&self) -> String {
        self.root
    }

    /// The state file of a run, for a run id that is safe as a path component.
    pub fn runtime_path(&self, run_id: &str) -> (res: Result<String, WorkflowError>)
        ensures
            match res {
                Ok(p) => safe_component(run_id@) && p@ == runtime_text(self.root()@, run_id@),
                Err(e) => !safe_component(run_id@) && e@ == WorkflowErrorView::UnsafeRuntimeComponent(run_id@),
            },
    {
        let id = match safe_runtime_component(run_id) {
            Err(e) => return Err(e),
            Ok(id) => id,
        };
        let a = join_path(self.root.as_str(), ".harness");
        let b = join_path(a.as_str(), "runs");
        let c = join_path(b.as_str(), id.as_str());
        Ok(join_path(c.as_str(), RUNTIME_FILE_NAME))
    }
}

/// What the contract check of a stored run answers.
pub open spec fn bundle_contract_ok(
    goal: GoalContract,
    workflow: WorkflowIr,
    run: WorkflowRunState,
    registry: AgentRegistry,
    res: Result<(), WorkflowError>,
) -> bool {
    if workflow.goal_id@ != goal.goal_id@ {
        res is Err && res->Err_0@ == WorkflowErrorView::GoalMismatch {
            workflow_goal_id: workflow.goal_id@,
            contract_goal_id: goal.goal_id@,
        }
    } else if run.workflow_id@ != workflow.workflow_id@ || run.workflow_version != workflow.version {
        res is Err && res->Err_0@ == WorkflowErrorView::RunWorkflowMismatch {
            run_workflow_id: run.workflow_id@,
            run_workflow_version: run.workflow_version,
            workflow_id: workflow.workflow_id@,
            workflow_version: workflow.version,
        }
    } else {
        validate_ok(workflow@, goal, registry, res)
    }
}

/// The stored state of a run: its goal, workflow, run, registry, dispatches, artifacts, reports
/// and findings.
#[derive(Debug, Clone)]
pub struct WorkflowRuntimeBundle {
    pub goal: GoalContract,
    pub workflow: WorkflowIr,
    pub run: WorkflowRunState,
    pub registry: AgentRegistry,
    pub dispatches: Vec<WorkflowDispatchRecord>,
    pub artifacts: Vec<ArtifactRef>,
    pub step_reports: Vec<StepReport>,
    pub verification_findings: Vec<VerificationFinding>,
    pub updated_at: String,
}

/// Checks that stored runtime state hangs together: the workflow serves the goal, the run
/// belongs to this workflow version, and the workflow validates.
pub fn validate_bundle_contract(bundle: &WorkflowRuntimeBundle) -> (res: Result<(), WorkflowError>)
    requires
        bundle.registry.well_formed(),
    ensures
        bundle_contract_ok(bundle.goal, bundle.workflow, bundle.run, bundle.registry, res),
{
    let goal = &bundle.goal;
    let workflow = &bundle.workflow;
    let run = &bundle.run;
    if !(workflow.goal_id == goal.goal_id) {
        return Err(WorkflowError::GoalMismatch {
            workflow_goal_id: workflow.goal_id.clone(),
            contract_goal_id: goal.goal_id.clone(),
        });
    }
    if !(run.workflow_id == workflow.workflow_id) || run.workflow_version != workflow.version {
        return Err(WorkflowError::RunWorkflowMismatch {
            run_workflow_id: run.workflow_id.clone(),
            run_workflow_version: run.workflow_version,
            workflow_id: workflow.workflow_id.clone(),
            workflow_version: workflow.version,
        });
    }
    workflow.validate(goal, &bundle.registry)
}

// ---------------------------------------------------------------------------------------
// Dispatch records.
// ---------------------------------------------------------------------------------------

pub struct DispatchView {
    pub step_id: Seq<char>,
    pub attempt: usize,
    pub task_id: Option<Seq<char>>,
    pub status: WorkflowDispatchStatus,
    pub detail: Option<Seq<char>>,
}

pub open spec fn opt_text(o: Option<String>) -> Option<Seq<char>> {
    match o {
        Some(s) => Some(s@),
        None => None,
    }
}

pub open spec fn dispatch_view(r: WorkflowDispatchRecord) -> DispatchView {
    DispatchView {
        step_id: r.step_id@,
        attempt: r.attempt,
        task_id: opt_text(r.task_id),
        status: r.status,
        detail: opt_text(r.detail),
    }
}

pub open spec fn dispatches_view(ds: Seq<WorkflowDispatchRecord>) -> Seq<DispatchView> {
    ds.map_values(|r: WorkflowDispatchRecord| dispatch_view(r))
}

pub open spec fn is_record_of(r: DispatchView, step_id: Seq<char>, attempt: usize) -> bool {
    r.step_id == step_id && r.attempt == attempt
}

pub open spec fn has_record(ds: Seq<DispatchView>, step_id: Seq<char>, attempt: usize) -> bool {
    exists|i: int| 0 <= i < ds.len() && is_record_of(#[trigger] ds[i], step_id, attempt)
}

/// `i` is the first record of the step's attempt.
pub open spec fn first_record_at(ds: Seq<DispatchView>, step_id: Seq<char>, attempt: usize, i: int) -> bool {
    &&& 0 <= i < ds.len()
    &&& is_record_of(ds[i], step_id, attempt)
    &&& forall|j: int| 0 <= j < i ==> !is_record_of(#[trigger] ds[j], step_id, attempt)
}

/// The first record of a step's attempt.
pub fn dispatch_record(dispatches: &Vec<WorkflowDispatchRecord>, step_id: &str, attempt: usize) -> (res: Option<usize>)
    ensures
        match res {
            Some(i) => first_record_at(dispatches_view(dispatches@), step_id@, attempt, i as int),
            None => !has_record(dispatches_view(dispatches@), step_id@, attempt),
        },
{
    let ghost dv = dispatches_view(dispatches@);
    let mut i: usize = 0;
    while i < dispatches.len()
        invariant
            i <= dispatches.len(),
            dv == dispatches_view(dispatches@),
            forall|j: int| 0 <= j < i ==> !is_record_of(#[trigger] dv[j], step_id@, attempt),
        decreases dispatches.len() - i,
    {
        if dispatches[i].attempt == attempt && str_eq(dispatches[i].step_id.as_str(), step_id) {
            return Some(i);
        }
        i = i + 1;
    }
    None
}

/// A dispatch that reached an end: reported, failed or unsupported.
pub open spec fn terminal(s: WorkflowDispatchStatus) -> bool {
    s == WorkflowDispatchStatus::Reported || s == WorkflowDispatchStatus::Failed || s == WorkflowDispatchStatus::Unsupported
}

pub fn dispatch_record_is_terminal(record: &WorkflowDispatchRecord) -> (res: bool)
    ensures
        res == terminal(record.status),
{
    match record.status {
        WorkflowDispatchStatus::Reported | WorkflowDispatchStatus::Failed | WorkflowDispatchStatus::Unsupported => true,
        _ => false,
    }
}

/// `ds` with `r` in place of the first record of its step's attempt, or appended.
pub open spec fn with_record(ds: Seq<DispatchView>, r: DispatchView, res: Seq<DispatchView>) -> bool {
    if has_record(ds, r.step_id, r.attempt) {
        exists|i: int| first_record_at(ds, r.step_id, r.attempt, i) && res == ds.update(i, r)
    } else {
        res == ds.push(r)
    }
}

fn put_record(dispatches: &mut Vec<WorkflowDispatchRecord>, record: WorkflowDispatchRecord)
    ensures
        with_record(dispatches_view(old(dispatches)@), dispatch_view(record), dispatches_view(final(dispatches)@)),
{
    let ghost dv = dispatches_view(dispatches@);
    let ghost rv = dispatch_view(record);
    match dispatch_record(dispatches, record.step_id.as_str(), record.attempt) {
        Some(i) => {
            dispatches.set(i, record);
            assert(dispatches_view(dispatches@) =~= dv.update(i as int, rv));
        },
        None => {
            dispatches.push(record);
            assert(dispatches_view(dispatches@) =~= dv.push(rv));
        },
    }
}

/// Writes a number in decimal.
pub fn decimal_u64(n: u64) -> (res: String)
    ensures
        res@ == crate::completion::decimal(n as nat),
    decreases n,
{
    let mut v: Vec<char> = Vec::new();
    decimal_push(&mut v, n);
    string_of(&v)
}

fn decimal_push(v: &mut Vec<char>, n: u64)
    ensures
        final(v)@ == old(v)@ + crate::completion::decimal(n as nat),
    decreases n,
{
    if n < 10 {
        v.push((('0' as u8) + (n as u8)) as char);
    } else {
        decimal_push(v, n / 10);
        v.push((('0' as u8) + ((n % 10) as u8)) as char);
        assert(crate::completion::decimal(n as nat) == crate::completion::decimal((n / 10) as nat) + seq![
            (('0' as nat) + (n % 10) as nat) as char,
        ]);
    }
}

/// The record of a step's attempt once it is queued as a task.
pub open spec fn queued_record(step_id: Seq<char>, attempt: usize, task_id: Seq<char>) -> DispatchView {
    DispatchView {
        step_id,
        attempt,
        task_id: Some(task_id),
        status: WorkflowDispatchStatus::Queued,
        detail: Some("submitted and approved by orchestrator"@),
    }
}

/// The record of a step's attempt that the runtime cannot carry out.
pub open spec fn unsupported_record(step_id: Seq<char>, attempt: usize, reason_code: Seq<char>, summary: Seq<char>) -> DispatchView {
    DispatchView {
        step_id,
        attempt,
        task_id: None,
        status: WorkflowDispatchStatus::Unsupported,
        detail: Some(reason_code + ": "@ + summary),
    }
}

/// Everything of a bundle but its dispatches and update time.
pub open spec fn same_but_dispatches(a: WorkflowRuntimeBundle, b: WorkflowRuntimeBundle) -> bool {
    &&& a.goal == b.goal
    &&& a.workflow == b.workflow
    &&& a.run == b.run
    &&& a.registry == b.registry
    &&& a.artifacts == b.artifacts
    &&& a.step_reports == b.step_reports
    &&& a.verification_findings == b.verification_findings
}

/// Records that a step's attempt was queued as a task, at `now`.
pub fn mark_dispatch_queued(bundle: &mut WorkflowRuntimeBundle, dispatch: &StepDispatch, task_id: &str, now: u64)
    ensures
        with_record(
            dispatches_view(old(bundle).dispatches@),
            queued_record(dispatch.step_id@, dispatch.attempt, task_id@),
            dispatches_view(final(bundle).dispatches@),
        ),
        final(bundle).updated_at@ == crate::completion::decimal(now as nat),
        same_but_dispatches(*old(bundle), *final(bundle)),
{
    let record = WorkflowDispatchRecord {
        step_id: dispatch.step_id.clone(),
        attempt: dispatch.attempt,
        task_id: Some(owned(task_id)),
        status: WorkflowDispatchStatus::Queued,
        detail: Some(owned("submitted and approved by orchestrator")),
    };
    put_record(&mut bundle.dispatches, record);
    bundle.updated_at = decimal_u64(now);
}

/// Records that a step's attempt cannot be carried out, with the reason, at `now`.
pub fn mark_dispatch_unsupported(bundle: &mut WorkflowRuntimeBundle, dispatch: &StepDispatch, reason_code: &str, summary: &str, now: u64)
    ensures
        with_record(
            dispatches_view(old(bundle).dispatches@),
            unsupported_record(dispatch.step_id@, dispatch.attempt, reason_code@, summary@),
            dispatches_view(final(bundle).dispatches@),
        ),
        final(bundle).updated_at@ == crate::completion::decimal(now as nat),
        same_but_dispatches(*old(bundle), *final(bundle)),
{
    let mut detail: Vec<char> = Vec::new();
    push_str(&mut detail, reason_code);
    push_str(&mut detail, ": ");
    push_str(&mut detail, summary);
    let record = WorkflowDispatchRecord {
        step_id: dispatch.step_id.clone(),
        attempt: dispatch.attempt,
        task_id: None,
        status: WorkflowDispatchStatus::Unsupported,
        detail: Some(string_of(&detail)),
    };
    put_record(&mut bundle.dispatches, record);
    bundle.updated_at = decimal_u64(now);
}

fn same_text_option(a: &Option<String>, b: &Option<String>) -> (res: bool)
    ensures
        res == (opt_text(*a) == opt_text(*b)),
{
    match (a, b) {
        (Some(x), Some(y)) => str_eq(x.as_str(), y.as_str()),
        (None, None) => true,
        _ => false,
    }
}

/// Sets a record's status and detail; whether anything changed.
pub fn set_dispatch_state(record: &mut WorkflowDispatchRecord, status: WorkflowDispatchStatus, detail: Option<String>) -> (res: bool)
    ensures
        res == (old(record).status != status || opt_text(old(record).detail) != opt_text(detail)),
        final(record).step_id == old(record).step_id,
        final(record).attempt == old(record).attempt,
        final(record).task_id == old(record).task_id,
        final(record).status == status,
        opt_text(final(record).detail) == opt_text(detail),
{
    let changed = record.status != status || !same_text_option(&record.detail, &detail);
    if changed {
        record.status = status;
        record.detail = detail;
    }
    changed
}

/// The workflow with the first step of the id set to `status`.
pub open spec fn step_status_set(w: WorkflowIrView, step_id: Seq<char>, status: WorkflowStepStatus, res: Result<(bool, WorkflowIrView), WorkflowErrorView>) -> bool {
    if !has_step_id(w.steps, step_id) {
        res == Err::<(bool, WorkflowIrView), WorkflowErrorView>(
            WorkflowErrorView::RuntimeStateParse("dispatch record references missing step "@ + step_id),
        )
    } else {
        exists|i: int|
            first_with_id(w.steps, step_id, i) && res == Ok::<(bool, WorkflowIrView), WorkflowErrorView>(
                if w.steps[i].status == status {
                    (false, w)
                } else {
                    (true, with_steps(w, w.steps.update(i, with_status(w.steps[i], status))))
                },
            )
    }
}

/// Sets the status of the workflow's step; whether it changed.
pub fn set_workflow_step_status(workflow: &mut WorkflowIr, step_id: &str, status: WorkflowStepStatus) -> (res: Result<bool, WorkflowError>)
    ensures
        step_status_set(
            old(workflow)@,
            step_id@,
            status,
            match res {
                Ok(changed) => Ok((changed, final(workflow)@)),
                Err(e) => Err(e@),
            },
        ),
        res is Err ==> final(workflow)@ == old(workflow)@,
{
    let id = owned(step_id);
    match find_step(&workflow.steps, &id) {
        None => {
            let mut m: Vec<char> = Vec::new();
            push_str(&mut m, "dispatch record references missing step ");
            push_str(&mut m, step_id);
            Err(WorkflowError::RuntimeStateParse(string_of(&m)))
        },
        Some(i) => {
            if workflow.steps[i].status == status {
                Ok(false)
            } else {
                let ghost w0 = workflow@;
                let mut st = workflow.steps[i].copied();
                st.status = status;
                workflow.steps.set(i, st);
                assert(steps_view(workflow.steps@) =~= w0.steps.update(i as int, with_status(w0.steps[i as int], status)));
                assert(workflow@ == with_steps(w0, w0.steps.update(i as int, with_status(w0.steps[i as int], status))));
                Ok(true)
            }
        },
    }
}

/// Marks a step active; whether it was not already.
pub fn add_active_step(active_step_ids: &mut Vec<String>, step_id: &str) -> (res: bool)
    ensures
        res == !strings_view(old(active_step_ids)@).contains(step_id@),
        strings_view(final(active_step_ids)@) == if res {
            strings_view(old(active_step_ids)@).push(step_id@)
        } else {
            strings_view(old(active_step_ids)@)
        },
{
    let id = owned(step_id);
    if !contains_string(active_step_ids, &id) {
        let ghost before = strings_view(active_step_ids@);
        active_step_ids.push(id);
        assert(strings_view(active_step_ids@) =~= before.push(step_id@));
        true
    } else {
        false
    }
}

/// Takes every occurrence of a step out of the active ones; whether there was one.
pub fn remove_active_step(active_step_ids: &mut Vec<String>, step_id: &str) -> (res: bool)
    ensures
        strings_view(final(active_step_ids)@) == without_member(strings_view(old(active_step_ids)@), step_id@),
        res == strings_view(old(active_step_ids)@).contains(step_id@),
{
    let ghost s = strings_view(active_step_ids@);
    let mut out: Vec<String> = Vec::new();
    let mut found = false;
    let mut i: usize = 0;
    while i < active_step_ids.len()
        invariant
            i <= active_step_ids.len(),
            s == strings_view(active_step_ids@),
            strings_view(out@) == without_member(s.take(i as int), step_id@),
            found == s.take(i as int).contains(step_id@),
        decreases active_step_ids.len() - i,
    {
        assert(s.take(i + 1).drop_last() == s.take(i as int));
        assert(s.take(i + 1).last() == active_step_ids@[i as int]@);
        proof {
            crate::link_graph::lemma_push_contains(s.take(i as int), s[i as int], step_id@);
            assert(s.take(i + 1) == s.take(i as int).push(s[i as int]));
        }
        if str_eq(active_step_ids[i].as_str(), step_id) {
            found = true;
        } else {
            let ghost before = strings_view(out@);
            out.push(active_step_ids[i].clone());
            assert(strings_view(out@) =~= before.push(s[i as int]));
        }
        i = i + 1;
    }
    assert(s.take(active_step_ids.len() as int) == s);
    *active_step_ids = out;
    found
}

/// The reason and summary of an unsupported dispatch: its detail split at the first `": "`,
/// or a general reason with the whole detail, or a general reason and summary where there is
/// no detail.
pub open spec fn unsupported_detail(detail: Option<Seq<char>>) -> (Seq<char>, Seq<char>) {
    match detail {
        None => ("unsupported_workflow_capability"@, "Workflow step is not supported by the current runtime adapter."@),
        Some(d) => match find_from(d, ": "@, 0) {
            Some(p) => (d.take(p), d.skip(p + 2)),
            None => ("unsupported_workflow_capability"@, d),
        },
    }
}

pub fn unsupported_dispatch_detail(record: &WorkflowDispatchRecord) -> (res: (String, String))
    ensures
        (res.0@, res.1@) == unsupported_detail(opt_text(record.detail)),
{
    match &record.detail {
        None => (owned("unsupported_workflow_capability"), owned("Workflow step is not supported by the current runtime adapter.")),
        Some(d) => {
            let cs = chars_of(d.as_str());
            let sep = chars_of(": ");
            proof {
                reveal_strlit(": ");
            }
            assert(sep@.len() == 2);
            match find_text(&cs, &sep) {
                Some(p) => {
                    proof {
                        lemma_find_from_bounds(cs@, sep@, 0);
                    }
                    let a = crate::text::take_chars(&cs, p);
                    let n = cs.len();
                    assert(p + 2 <= n);
                    let b = crate::text::skip_chars(&cs, p + 2);
                    (string_of(&a), string_of(&b))
                },
                None => (owned("unsupported_workflow_capability"), d.clone()),
            }
        },
    }
}

/// The reason and summary of a failed dispatch: a cancelled task, or a failed one.
pub open spec fn failed_detail(detail: Option<Seq<char>>) -> (Seq<char>, Seq<char>) {
    let summary = match detail {
        Some(d) => d,
        None => Seq::empty(),
    };
    if summary == "scheduler task was cancelled"@ {
        ("task_cancelled"@, summary)
    } else {
        ("task_failed"@, summary)
    }
}

pub fn failed_dispatch_detail(record: &WorkflowDispatchRecord) -> (res: (String, String))
    ensures
        (res.0@, res.1@) == failed_detail(opt_text(record.detail)),
{
    let summary = match &record.detail {
        Some(d) => d.clone(),
        None => String::new(),
    };
    if str_eq(summary.as_str(), "scheduler task was cancelled") {
        (owned("task_cancelled"), summary)
    } else {
        (owned("task_failed"), summary)
    }
}

/// The dispatch of a step's attempt: its ids, agent, capability, mode, inputs, contract (the
/// step's task, criteria and clauses) and the sandbox the registry gives it.
/// What `dispatch_from_step` gives for a step's attempt: the unknown agent's error, or a
/// dispatch with the step's ids, agent, capability, mode, inputs, contract and sandbox.
pub open spec fn step_dispatch_result(run: WorkflowRunState, registry: AgentRegistry, step: WorkflowStep, attempt: usize, res: Result<StepDispatch, WorkflowError>) -> bool {
    match registry.lookup(step.agent_type@) {
        None => res is Err && res->Err_0@ == WorkflowErrorView::UnknownAgentType(step.agent_type@),
        Some(e) => res is Ok && {
            let d = res->Ok_0;
            &&& d.workflow_id@ == run.workflow_id@
            &&& d.run_id@ == run.run_id@
            &&& d.step_id@ == step.step_id@
            &&& d.agent_type@ == step.agent_type@
            &&& d.capability == step.kind
            &&& d.mode == step.mode
            &&& d.attempt == attempt
            &&& d.inputs == step.inputs
            &&& d.artifact_contract.expected_output@ == step.task@
            &&& strings_view(d.artifact_contract.acceptance_criteria@) == strings_view(step.acceptance_criteria@)
            &&& d.artifact_contract.success_clauses@ == step.goal_alignment.success_clauses@
            &&& sandbox_view(d.sandbox_policy) == sandbox_for(e, run, step@, step.inputs)
        },
    }
}

pub fn dispatch_from_step(run: &WorkflowRunState, registry: &AgentRegistry, step: &WorkflowStep, attempt: usize) -> (res: Result<StepDispatch, WorkflowError>)
    requires
        registry.well_formed(),
    ensures
        step_dispatch_result(*run, *registry, *step, attempt, res),
{
    let sandbox = match registry.sandbox_for_step(run, step) {
        Err(e) => return Err(e),
        Ok(p) => p,
    };
    Ok(StepDispatch {
        workflow_id: run.workflow_id.clone(),
        run_id: run.run_id.clone(),
        step_id: step.step_id.clone(),
        agent_type: step.agent_type.clone(),
        capability: step.kind,
        mode: step.mode,
        attempt,
        inputs: step.inputs.clone(),
        artifact_contract: ArtifactContract {
            expected_output: step.task.clone(),
            acceptance_criteria: crate::text::copy_strings(&step.acceptance_criteria),
            success_clauses: copy_usizes(&step.goal_alignment.success_clauses),
        },
        sandbox_policy: sandbox,
    })
}

/// The text `{:?}` writes for a string: quoted, with escapes.
pub uninterp spec fn debug_quoted(s: Seq<char>) -> Seq<char>;

/// `format!("{:?}", s)` on a string slice: the library knows of its result only the name
/// `debug_quoted` of the text.
#[verifier::external_body]
fn debug_text(s: &str) -> (res: String)
    ensures
        res@ == debug_quoted(s@),
{
    format!("{:?}", s)
}

/// How `{:?}` writes an optional task id.
pub open spec fn debug_option(o: Option<Seq<char>>) -> Seq<char> {
    match o {
        Some(t) => "Some("@ + debug_quoted(t) + ")"@,
        None => "None"@,
    }
}

/// The check of a task against its run: the task names the run's workflow, the step's
/// attempt has a dispatch, and that dispatch carries the task's id.
pub open spec fn task_context_ok(bundle: WorkflowRuntimeBundle, task_id: Seq<char>, context: WorkflowTaskContext, res: Result<(), WorkflowError>) -> bool {
    let ds = dispatches_view(bundle.dispatches@);
    if context.workflow_id@ != bundle.workflow.workflow_id@ {
        res is Err && res->Err_0@ == WorkflowErrorView::RuntimeStateParse(
            "workflow task "@ + task_id + " references workflow "@ + context.workflow_id@ + ", expected "@
                + bundle.workflow.workflow_id@,
        )
    } else if !has_record(ds, context.step_id@, context.attempt) {
        res is Err && res->Err_0@ == WorkflowErrorView::RuntimeStateParse(
            "workflow task "@ + task_id + " references missing dispatch for step "@ + context.step_id@,
        )
    } else {
        exists|i: int|
            first_record_at(ds, context.step_id@, context.attempt, i) && if ds[i].task_id == Some(task_id) {
                res is Ok
            } else {
                res is Err && res->Err_0@ == WorkflowErrorView::RuntimeStateParse(
                    "workflow task "@ + task_id + " does not match dispatch task "@ + debug_option(ds[i].task_id),
                )
            }
    }
}

/// The error of a task whose step has no dispatch of the attempt.
pub fn missing_task_dispatch_error(task_id: &str, step_id: &str) -> (res: WorkflowError)
    ensures
        res@ == WorkflowErrorView::RuntimeStateParse(
            "workflow task "@ + task_id@ + " references missing dispatch for step "@ + step_id@,
        ),
{
    let mut m: Vec<char> = Vec::new();
    push_str(&mut m, "workflow task ");
    push_str(&mut m, task_id);
    push_str(&mut m, " references missing dispatch for step ");
    push_str(&mut m, step_id);
    WorkflowError::RuntimeStateParse(string_of(&m))
}

pub fn validate_task_runtime_context(bundle: &WorkflowRuntimeBundle, task_id: &str, context: &WorkflowTaskContext) -> (res: Result<(), WorkflowError>)
    ensures
        task_context_ok(*bundle, task_id@, *context, res),
{
    if !(context.workflow_id == bundle.workflow.workflow_id) {
        let mut m: Vec<char> = Vec::new();
        push_str(&mut m, "workflow task ");
        push_str(&mut m, task_id);
        push_str(&mut m, " references workflow ");
        push_str(&mut m, context.workflow_id.as_str());
        push_str(&mut m, ", expected ");
        push_str(&mut m, bundle.workflow.workflow_id.as_str());
        return Err(WorkflowError::RuntimeStateParse(string_of(&m)));
    }
    let i = match dispatch_record(&bundle.dispatches, context.step_id.as_str(), context.attempt) {
        None => return Err(missing_task_dispatch_error(task_id, context.step_id.as_str())),
        Some(i) => i,
    };
    let record = &bundle.dispatches[i];
    let matches = match &record.task_id {
        Some(t) => str_eq(t.as_str(), task_id),
        None => false,
    };
    let ghost ds = dispatches_view(bundle.dispatches@);
    assert(ds[i as int] == dispatch_view(bundle.dispatches@[i as int]));
    if !matches {
        let mut m: Vec<char> = Vec::new();
        push_str(&mut m, "workflow task ");
        push_str(&mut m, task_id);
        push_str(&mut m, " does not match dispatch task ");
        let ghost head = m@;
        match &record.task_id {
            Some(t) => {
                push_str(&mut m, "Some(");
                let q = debug_text(t.as_str());
                push_str(&mut m, q.as_str());
                push_str(&mut m, ")");
                assert(m@ == head + debug_option(ds[i as int].task_id));
            },
            None => {
                push_str(&mut m, "None");
                assert(m@ == head + debug_option(ds[i as int].task_id));
            },
        }
        let res = Err(WorkflowError::RuntimeStateParse(string_of(&m)));
        assert(first_record_at(ds, context.step_id@, context.attempt, i as int));
        assert(ds[i as int].task_id != Some(task_id@));
        return res;
    }
    assert(first_record_at(ds, context.step_id@, context.attempt, i as int));
    Ok(())
}

} // verus!

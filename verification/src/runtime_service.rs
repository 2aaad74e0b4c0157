//! The decisions of the workflow runtime service: how a run's stored state changes when the
//! scheduler reports on a task, when a task completes or fails, and which ledger events a run
//! must hold.
//!
//! Each function here takes the state as read and what was observed, changes the state, and
//! hands back the event chains to record; reading and writing the run files and the ledger is
//! left to the caller.

use vstd::prelude::*;
use crate::text::{append_chars, chars_of, contains_string, owned, push_str, string_of, strings_view, trim, trim_chars};
use crate::completion::decimal;
use crate::dispatch::StepDispatch;
use crate::replan::{EvidenceRef, StepReport};
use crate::completion::{acceptance_scan, build_completion_findings, checked_acceptance_criteria, completion_findings, decimal_text, findings_view, CompletionChecks, FindingView};
use crate::link_graph::{lemma_push_contains, lemma_without_member, with_member, without_member};
use crate::runtime_events::{
    chain_view, step_failed_chain, step_queued_chain, step_reported_chain, step_running_chain,
    ChainView, WorkflowRuntimeEventChain,
};
use crate::workflow::{
    find_step, first_with_id, has_step_id, with_status, with_steps, safe_component, safe_runtime_component, RunStatus, WorkflowError, WorkflowErrorView,
    WorkflowIrView, WorkflowRunState, WorkflowStatus, WorkflowStepStatus, VerificationFinding,
    ArtifactRef, StepReportStatus, VerificationOutcome, WorkflowStepView, first_index,
};
use crate::text::split_from;
use crate::workflow_runtime::{
    add_active_step, decimal_u64, dispatch_from_step, dispatch_view, dispatches_view, opt_text,
    remove_active_step, set_dispatch_state, set_workflow_step_status, step_dispatch_result,
    step_status_set, DispatchView, WorkflowDispatchRecord, WorkflowDispatchStatus,
    WorkflowRuntimeBundle, WorkflowTaskContext, task_context_ok, validate_task_runtime_context,
    dispatch_record, first_record_at, has_record, missing_task_dispatch_error,
    failed_detail, failed_dispatch_detail, unsupported_detail, unsupported_dispatch_detail,
    mark_dispatch_queued, mark_dispatch_unsupported, queued_record, unsupported_record, with_record,
    same_but_dispatches, terminal, dispatch_record_is_terminal,
};
use crate::runtime_events::{dispatches_chain, run_created_chain, step_unsupported_chain, run_failed_chain, run_succeeded_chain, semantic_promoted_chain, step_assessed_chain, step_verified_chain};

verus! {

/// What the scheduler says of a task.
#[derive(Debug, Clone)]
pub enum SchedulerTaskStatus {
    Pending,
    Approved,
    Queued,
    Running,
    Done,
    Error { message: String },
    Cancelled,
}

/// The dispatch of a step's attempt in a run: the error of a missing step, or what
/// `dispatch_from_step` gives for the first step with the id.
pub open spec fn dispatch_for_step_result(
    bundle: WorkflowRuntimeBundle,
    step_id: Seq<char>,
    attempt: usize,
    res: Result<StepDispatch, WorkflowError>,
) -> bool {
    let steps = bundle.workflow@.steps;
    if !has_step_id(steps, step_id) {
        res is Err && res->Err_0@ == WorkflowErrorView::RuntimeStateParse(
            "dispatch record references missing step "@ + step_id,
        )
    } else {
        exists|i: int|
            first_with_id(steps, step_id, i) && step_dispatch_result(
                bundle.run,
                bundle.registry,
                bundle.workflow.steps@[i],
                attempt,
                res,
            )
    }
}

/// The dispatch of a step's attempt, built from the run's state.
pub fn dispatch_for_step(bundle: &WorkflowRuntimeBundle, step_id: &str, attempt: usize) -> (res: Result<StepDispatch, WorkflowError>)
    requires
        bundle.registry.well_formed(),
    ensures
        dispatch_for_step_result(*bundle, step_id@, attempt, res),
{
    let id = owned(step_id);
    match find_step(&bundle.workflow.steps, &id) {
        None => {
            let mut m: Vec<char> = Vec::new();
            crate::text::push_str(&mut m, "dispatch record references missing step ");
            crate::text::push_str(&mut m, step_id);
            Err(WorkflowError::RuntimeStateParse(crate::text::string_of(&m)))
        },
        Some(i) => {
            let res = dispatch_from_step(&bundle.run, &bundle.registry, &bundle.workflow.steps[i], attempt);
            assert(first_with_id(bundle.workflow@.steps, step_id@, i as int));
            res
        },
    }
}

/// The dispatch status a scheduler status puts a record in.
pub open spec fn synced_dispatch_status(s: SchedulerTaskStatus) -> WorkflowDispatchStatus {
    match s {
        SchedulerTaskStatus::Pending | SchedulerTaskStatus::Approved | SchedulerTaskStatus::Queued => WorkflowDispatchStatus::Queued,
        SchedulerTaskStatus::Running => WorkflowDispatchStatus::Running,
        SchedulerTaskStatus::Done => WorkflowDispatchStatus::Reported,
        SchedulerTaskStatus::Error { .. } | SchedulerTaskStatus::Cancelled => WorkflowDispatchStatus::Failed,
    }
}

/// The detail a scheduler status writes on a record.
pub open spec fn synced_detail(s: SchedulerTaskStatus) -> Seq<char> {
    match s {
        SchedulerTaskStatus::Pending | SchedulerTaskStatus::Approved | SchedulerTaskStatus::Queued => "submitted and approved by orchestrator"@,
        SchedulerTaskStatus::Running => "scheduler task is running"@,
        SchedulerTaskStatus::Done => "research result recorded"@,
        SchedulerTaskStatus::Error { message } => message@,
        SchedulerTaskStatus::Cancelled => "scheduler task was cancelled"@,
    }
}

/// The step status a scheduler status puts the step in.
pub open spec fn synced_step_status(s: SchedulerTaskStatus) -> WorkflowStepStatus {
    match s {
        SchedulerTaskStatus::Pending | SchedulerTaskStatus::Approved | SchedulerTaskStatus::Queued
        | SchedulerTaskStatus::Running => WorkflowStepStatus::Running,
        SchedulerTaskStatus::Done => WorkflowStepStatus::Reported,
        SchedulerTaskStatus::Error { .. } | SchedulerTaskStatus::Cancelled => WorkflowStepStatus::Failed,
    }
}

/// Whether the step stays among the run's active steps.
pub open spec fn keeps_step_active(s: SchedulerTaskStatus) -> bool {
    match s {
        SchedulerTaskStatus::Pending | SchedulerTaskStatus::Approved | SchedulerTaskStatus::Queued
        | SchedulerTaskStatus::Running => true,
        _ => false,
    }
}

/// Whether the status fails the whole run.
pub open spec fn fails_run(s: SchedulerTaskStatus) -> bool {
    match s {
        SchedulerTaskStatus::Error { .. } | SchedulerTaskStatus::Cancelled => true,
        _ => false,
    }
}

/// The ledger events that record a scheduler status for a dispatch.
pub open spec fn synced_chain(s: SchedulerTaskStatus, d: StepDispatch, task_id: Seq<char>, ts: Seq<char>) -> ChainView {
    match s {
        SchedulerTaskStatus::Pending | SchedulerTaskStatus::Approved | SchedulerTaskStatus::Queued => step_queued_chain(d, task_id, ts),
        SchedulerTaskStatus::Running => step_running_chain(d, task_id, ts),
        SchedulerTaskStatus::Done => step_reported_chain(d, task_id, "Research result persisted in Dream Working Memory"@, ts),
        SchedulerTaskStatus::Error { message } => step_failed_chain(d, task_id, "task_failed"@, message@, ts),
        SchedulerTaskStatus::Cancelled => step_failed_chain(
            d,
            task_id,
            "task_cancelled"@,
            "scheduler task was cancelled"@,
            ts,
        ),
    }
}

/// Whether the first step with the id is in another status than `st`.
pub open spec fn step_status_differs(w: WorkflowIrView, id: Seq<char>, st: WorkflowStepStatus) -> bool {
    exists|i: int| first_with_id(w.steps, id, i) && w.steps[i].status != st
}

/// The active steps once a step is kept active (added where missing) or taken out.
pub open spec fn active_after(active: Seq<Seq<char>>, id: Seq<char>, keep: bool) -> Seq<Seq<char>> {
    if keep {
        if active.contains(id) {
            active
        } else {
            active.push(id)
        }
    } else {
        without_member(active, id)
    }
}

/// Two run states agree on everything but their status, end time and active steps.
pub open spec fn run_identity_kept(a: WorkflowRunState, b: WorkflowRunState) -> bool {
    &&& a.run_id == b.run_id
    &&& a.workflow_id == b.workflow_id
    &&& a.workflow_version == b.workflow_version
    &&& a.started_at == b.started_at
    &&& a.worktree_map == b.worktree_map
    &&& a.metrics == b.metrics
    &&& a.context_digest_version == b.context_digest_version
}

/// Two bundles agree on their goal, registry, artifacts, reports and findings.
pub open spec fn records_kept(a: WorkflowRuntimeBundle, b: WorkflowRuntimeBundle) -> bool {
    &&& a.goal == b.goal
    &&& a.registry == b.registry
    &&& a.artifacts == b.artifacts
    &&& a.step_reports == b.step_reports
    &&& a.verification_findings == b.verification_findings
}

/// Two bundles hold the same state, their workflows compared by their views.
pub open spec fn same_state(a: WorkflowRuntimeBundle, b: WorkflowRuntimeBundle) -> bool {
    &&& a.workflow@ == b.workflow@
    &&& a.run == b.run
    &&& a.dispatches == b.dispatches
    &&& a.updated_at == b.updated_at
    &&& records_kept(a, b)
}

/// A record with a new status and detail.
pub open spec fn with_state(r: DispatchView, status: WorkflowDispatchStatus, detail: Seq<char>) -> DispatchView {
    DispatchView { status: status, detail: Some(detail), ..r }
}

/// A copy of a dispatch record.
fn copy_record(r: &WorkflowDispatchRecord) -> (res: WorkflowDispatchRecord)
    ensures
        dispatch_view(res) == dispatch_view(*r),
{
    WorkflowDispatchRecord {
        step_id: r.step_id.clone(),
        attempt: r.attempt,
        task_id: match &r.task_id {
            Some(t) => Some(t.clone()),
            None => None,
        },
        status: r.status,
        detail: match &r.detail {
            Some(t) => Some(t.clone()),
            None => None,
        },
    }
}

/// What the runtime does with a scheduler status: whether the run's state changed (and must
/// be written), and the events to record.
#[derive(Debug)]
pub struct StatusSync {
    pub changed: bool,
    pub chain: WorkflowRuntimeEventChain,
}

/// How the run's state follows a scheduler status for the record at `record_index`, at
/// `now`: the record, its step, the active steps and the run's status take what the status
/// calls for; whether anything changed decides the update time; the events are those of the
/// status. Where the record's step cannot be dispatched nothing changes.
pub open spec fn task_status_synced(
    before: WorkflowRuntimeBundle,
    after: WorkflowRuntimeBundle,
    record_index: int,
    task_id: Seq<char>,
    status: SchedulerTaskStatus,
    now: u64,
    res: Result<StatusSync, WorkflowError>,
) -> bool {
    let r = dispatches_view(before.dispatches@)[record_index];
    match res {
        Err(e) => {
            &&& dispatch_for_step_result(before, r.step_id, r.attempt, Err(e))
            &&& after == before
        },
        Ok(sync) => {
            let st = synced_step_status(status);
            let keep = keeps_step_active(status);
            let active = strings_view(before.run.active_step_ids@);
            let record_changed = r.status != synced_dispatch_status(status)
                || r.detail != Some(synced_detail(status));
            let run_failed = fails_run(status) && before.run.status != RunStatus::Failed;
            &&& exists|d: StepDispatch|
                dispatch_for_step_result(before, r.step_id, r.attempt, Ok(d))
                    && chain_view(sync.chain) == synced_chain(status, d, task_id, decimal(now as nat))
            &&& dispatches_view(after.dispatches@) == dispatches_view(before.dispatches@).update(
                record_index,
                with_state(r, synced_dispatch_status(status), synced_detail(status)),
            )
            &&& step_status_set(
                before.workflow@,
                r.step_id,
                st,
                Ok((step_status_differs(before.workflow@, r.step_id, st), after.workflow@)),
            )
            &&& strings_view(after.run.active_step_ids@) == active_after(active, r.step_id, keep)
            &&& after.run.status == (if fails_run(status) { RunStatus::Failed } else { before.run.status })
            &&& after.run.ended_at == before.run.ended_at
            &&& run_identity_kept(before.run, after.run)
            &&& records_kept(before, after)
            &&& sync.changed == (record_changed || step_status_differs(before.workflow@, r.step_id, st)
                || (keep != active.contains(r.step_id)) || run_failed)
            &&& after.updated_at@ == (if sync.changed { decimal(now as nat) } else { before.updated_at@ })
        },
    }
}

/// Brings the record at `record_index`, its step, the run's active steps and the run's status
/// in line with what the scheduler says of the record's task, at `now`.
pub fn sync_task_status(
    bundle: &mut WorkflowRuntimeBundle,
    record_index: usize,
    task_id: &str,
    status: &SchedulerTaskStatus,
    now: u64,
) -> (res: Result<StatusSync, WorkflowError>)
    requires
        old(bundle).registry.well_formed(),
        record_index < old(bundle).dispatches.len(),
    ensures
        task_status_synced(*old(bundle), *final(bundle), record_index as int, task_id@, *status, now, res),
{
    let ghost b0 = *bundle;
    let ghost r = dispatches_view(bundle.dispatches@)[record_index as int];
    let step_id = bundle.dispatches[record_index].step_id.clone();
    let attempt = bundle.dispatches[record_index].attempt;
    let dispatch = match dispatch_for_step(bundle, step_id.as_str(), attempt) {
        Ok(d) => d,
        Err(e) => return Err(e),
    };
    let ts = decimal_u64(now);
    let (dstate, detail, sstate, keep, chain) = match status {
        SchedulerTaskStatus::Pending | SchedulerTaskStatus::Approved | SchedulerTaskStatus::Queued => (
            WorkflowDispatchStatus::Queued,
            owned("submitted and approved by orchestrator"),
            WorkflowStepStatus::Running,
            true,
            WorkflowRuntimeEventChain::from_step_queued(&dispatch, task_id, ts.as_str()),
        ),
        SchedulerTaskStatus::Running => (
            WorkflowDispatchStatus::Running,
            owned("scheduler task is running"),
            WorkflowStepStatus::Running,
            true,
            WorkflowRuntimeEventChain::from_step_running(&dispatch, task_id, ts.as_str()),
        ),
        SchedulerTaskStatus::Done => (
            WorkflowDispatchStatus::Reported,
            owned("research result recorded"),
            WorkflowStepStatus::Reported,
            false,
            WorkflowRuntimeEventChain::from_step_reported(
                &dispatch,
                task_id,
                "Research result persisted in Dream Working Memory",
                ts.as_str(),
            ),
        ),
        SchedulerTaskStatus::Error { message } => (
            WorkflowDispatchStatus::Failed,
            message.clone(),
            WorkflowStepStatus::Failed,
            false,
            WorkflowRuntimeEventChain::from_step_failed(&dispatch, task_id, "task_failed", message.as_str(), ts.as_str()),
        ),
        SchedulerTaskStatus::Cancelled => (
            WorkflowDispatchStatus::Failed,
            owned("scheduler task was cancelled"),
            WorkflowStepStatus::Failed,
            false,
            WorkflowRuntimeEventChain::from_step_failed(
                &dispatch,
                task_id,
                "task_cancelled",
                "scheduler task was cancelled",
                ts.as_str(),
            ),
        ),
    };
    assert(dstate == synced_dispatch_status(*status));
    assert(detail@ == synced_detail(*status));
    assert(sstate == synced_step_status(*status));
    assert(keep == keeps_step_active(*status));
    let mut record = copy_record(&bundle.dispatches[record_index]);
    let mut changed = set_dispatch_state(&mut record, dstate, Some(detail));
    bundle.dispatches.set(record_index, record);
    assert(dispatches_view(bundle.dispatches@) =~= dispatches_view(b0.dispatches@).update(
        record_index as int,
        with_state(r, dstate, detail@),
    ));
    let step_changed = match set_workflow_step_status(&mut bundle.workflow, step_id.as_str(), sstate) {
        Ok(c) => c,
        Err(e) => return Err(e),
    };
    changed = changed || step_changed;
    let active_changed = if keep {
        add_active_step(&mut bundle.run.active_step_ids, step_id.as_str())
    } else {
        remove_active_step(&mut bundle.run.active_step_ids, step_id.as_str())
    };
    changed = changed || active_changed;
    let fail = match status {
        SchedulerTaskStatus::Error { .. } | SchedulerTaskStatus::Cancelled => true,
        _ => false,
    };
    if fail && bundle.run.status != RunStatus::Failed {
        bundle.run.status = RunStatus::Failed;
        changed = true;
    }
    assert(dispatch_for_step_result(b0, r.step_id, r.attempt, Ok(dispatch)));
    assert(chain_view(chain) == synced_chain(*status, dispatch, task_id@, decimal(now as nat)));
    if changed {
        bundle.updated_at = ts;
    }
    Ok(StatusSync { changed, chain })
}

/// The dispatch a task reports on: the error of a task that does not belong to the run, or
/// the dispatch of the step's attempt it names.
pub open spec fn task_dispatch_result(
    bundle: WorkflowRuntimeBundle,
    task_id: Seq<char>,
    context: WorkflowTaskContext,
    res: Result<StepDispatch, WorkflowError>,
) -> bool {
    if task_context_ok(bundle, task_id, context, Ok(())) {
        dispatch_for_step_result(bundle, context.step_id@, context.attempt, res)
    } else {
        res is Err && task_context_ok(bundle, task_id, context, Err(res->Err_0))
    }
}

/// Checks that a task belongs to the run and finds its dispatch and the index of its record.
fn task_dispatch(bundle: &WorkflowRuntimeBundle, task_id: &str, context: &WorkflowTaskContext) -> (res: Result<(StepDispatch, usize), WorkflowError>)
    requires
        bundle.registry.well_formed(),
    ensures
        match res {
            Ok((d, i)) => {
                &&& task_dispatch_result(*bundle, task_id@, *context, Ok(d))
                &&& first_record_at(dispatches_view(bundle.dispatches@), context.step_id@, context.attempt, i as int)
            },
            Err(e) => task_dispatch_result(*bundle, task_id@, *context, Err(e)),
        },
{
    match validate_task_runtime_context(bundle, task_id, context) {
        Err(e) => return Err(e),
        Ok(()) => {},
    }
    let d = match dispatch_for_step(bundle, context.step_id.as_str(), context.attempt) {
        Err(e) => return Err(e),
        Ok(d) => d,
    };
    match dispatch_record(&bundle.dispatches, context.step_id.as_str(), context.attempt) {
        Some(i) => Ok((d, i)),
        None => Err(missing_task_dispatch_error(task_id, context.step_id.as_str())),
    }
}

/// The first record of the step's attempt, with a new status and detail, in place.
pub open spec fn record_set(
    old_ds: Seq<DispatchView>,
    new_ds: Seq<DispatchView>,
    step_id: Seq<char>,
    attempt: usize,
    status: WorkflowDispatchStatus,
    detail: Seq<char>,
) -> bool {
    exists|i: int| first_record_at(old_ds, step_id, attempt, i) && new_ds == old_ds.update(i, with_state(old_ds[i], status, detail))
}

/// Sets the record at `i` to a status and detail.
fn set_record_at(bundle: &mut WorkflowRuntimeBundle, i: usize, status: WorkflowDispatchStatus, detail: &str)
    requires
        i < old(bundle).dispatches.len(),
    ensures
        dispatches_view(final(bundle).dispatches@) == dispatches_view(old(bundle).dispatches@).update(
            i as int,
            with_state(dispatches_view(old(bundle).dispatches@)[i as int], status, detail@),
        ),
        final(bundle).workflow == old(bundle).workflow,
        final(bundle).run == old(bundle).run,
        final(bundle).updated_at == old(bundle).updated_at,
        records_kept(*old(bundle), *final(bundle)),
{
    let ghost dv = dispatches_view(bundle.dispatches@);
    let mut record = copy_record(&bundle.dispatches[i]);
    set_dispatch_state(&mut record, status, Some(owned(detail)));
    bundle.dispatches.set(i, record);
    assert(dispatches_view(bundle.dispatches@) =~= dv.update(i as int, with_state(dv[i as int], status, detail@)));
}

/// Records that a task of the run is running, at `now`: its record is running, its step runs
/// and is active. Gives the events to record.
pub fn record_task_running(
    bundle: &mut WorkflowRuntimeBundle,
    task_id: &str,
    context: &WorkflowTaskContext,
    now: u64,
) -> (res: Result<WorkflowRuntimeEventChain, WorkflowError>)
    requires
        old(bundle).registry.well_formed(),
    ensures
        match res {
            Err(e) => {
                &&& task_dispatch_result(*old(bundle), task_id@, *context, Err(e))
                &&& *final(bundle) == *old(bundle)
            },
            Ok(chain) => {
                let sid = context.step_id@;
                let st = WorkflowStepStatus::Running;
                &&& exists|d: StepDispatch|
                    task_dispatch_result(*old(bundle), task_id@, *context, Ok(d))
                        && chain_view(chain) == step_running_chain(d, task_id@, decimal(now as nat))
                &&& record_set(
                    dispatches_view(old(bundle).dispatches@),
                    dispatches_view(final(bundle).dispatches@),
                    sid,
                    context.attempt,
                    WorkflowDispatchStatus::Running,
                    "scheduler task is running"@,
                )
                &&& step_status_set(old(bundle).workflow@, sid, st, Ok((step_status_differs(old(bundle).workflow@, sid, st), final(bundle).workflow@)))
                &&& strings_view(final(bundle).run.active_step_ids@) == active_after(
                    strings_view(old(bundle).run.active_step_ids@),
                    sid,
                    true,
                )
                &&& final(bundle).run.status == old(bundle).run.status
                &&& final(bundle).run.ended_at == old(bundle).run.ended_at
                &&& run_identity_kept(old(bundle).run, final(bundle).run)
                &&& records_kept(*old(bundle), *final(bundle))
                &&& final(bundle).updated_at@ == decimal(now as nat)
            },
        },
{
    let (dispatch, i) = match task_dispatch(bundle, task_id, context) {
        Err(e) => return Err(e),
        Ok(x) => x,
    };
    let ghost b0 = *bundle;
    proof {
        reveal_strlit("scheduler task is running");
    }
    set_record_at(bundle, i, WorkflowDispatchStatus::Running, "scheduler task is running");
    match set_workflow_step_status(&mut bundle.workflow, context.step_id.as_str(), WorkflowStepStatus::Running) {
        Ok(_) => {},
        Err(e) => return Err(e),
    }
    add_active_step(&mut bundle.run.active_step_ids, context.step_id.as_str());
    let ts = decimal_u64(now);
    let chain = WorkflowRuntimeEventChain::from_step_running(&dispatch, task_id, ts.as_str());
    bundle.updated_at = ts;
    assert(task_dispatch_result(b0, task_id@, *context, Ok(dispatch)));
    Ok(chain)
}

/// Records that a task of the run failed, at `now`: its record fails with the summary, its
/// step fails and leaves the active ones, the workflow is aborted and the run fails and ends.
/// Gives the events to record: the step's failure, then the run's.
pub fn record_task_failure(
    bundle: &mut WorkflowRuntimeBundle,
    task_id: &str,
    context: &WorkflowTaskContext,
    reason_code: &str,
    summary: &str,
    now: u64,
) -> (res: Result<Vec<WorkflowRuntimeEventChain>, WorkflowError>)
    requires
        old(bundle).registry.well_formed(),
    ensures
        match res {
            Err(e) => {
                &&& task_dispatch_result(*old(bundle), task_id@, *context, Err(e))
                &&& *final(bundle) == *old(bundle)
            },
            Ok(chains) => {
                let sid = context.step_id@;
                let st = WorkflowStepStatus::Failed;
                let ts = decimal(now as nat);
                &&& chains.len() == 2
                &&& exists|d: StepDispatch|
                    task_dispatch_result(*old(bundle), task_id@, *context, Ok(d))
                        && chain_view(chains[0]) == step_failed_chain(d, task_id@, reason_code@, summary@, ts)
                &&& chain_view(chains[1]) == run_failed_chain(final(bundle).workflow@, final(bundle).run, reason_code@, summary@, ts)
                &&& record_set(
                    dispatches_view(old(bundle).dispatches@),
                    dispatches_view(final(bundle).dispatches@),
                    sid,
                    context.attempt,
                    WorkflowDispatchStatus::Failed,
                    summary@,
                )
                &&& exists|w: WorkflowIrView|
                    step_status_set(old(bundle).workflow@, sid, st, Ok((step_status_differs(old(bundle).workflow@, sid, st), w)))
                        && final(bundle).workflow@ == (WorkflowIrView { status: WorkflowStatus::Aborted, ..w })
                &&& strings_view(final(bundle).run.active_step_ids@) == active_after(
                    strings_view(old(bundle).run.active_step_ids@),
                    sid,
                    false,
                )
                &&& final(bundle).run.status == RunStatus::Failed
                &&& opt_text(final(bundle).run.ended_at) == Some(ts)
                &&& run_identity_kept(old(bundle).run, final(bundle).run)
                &&& records_kept(*old(bundle), *final(bundle))
                &&& final(bundle).updated_at@ == ts
            },
        },
{
    let (dispatch, i) = match task_dispatch(bundle, task_id, context) {
        Err(e) => return Err(e),
        Ok(x) => x,
    };
    let ghost b0 = *bundle;
    set_record_at(bundle, i, WorkflowDispatchStatus::Failed, summary);
    let c = match set_workflow_step_status(&mut bundle.workflow, context.step_id.as_str(), WorkflowStepStatus::Failed) {
        Ok(c) => c,
        Err(e) => return Err(e),
    };
    let ghost w = bundle.workflow@;
    assert(step_status_set(b0.workflow@, context.step_id@, WorkflowStepStatus::Failed, Ok((c, w))));
    assert(c == step_status_differs(b0.workflow@, context.step_id@, WorkflowStepStatus::Failed));
    remove_active_step(&mut bundle.run.active_step_ids, context.step_id.as_str());
    bundle.workflow.status = WorkflowStatus::Aborted;
    assert(bundle.workflow@ == (WorkflowIrView { status: WorkflowStatus::Aborted, ..w }));
    bundle.run.status = RunStatus::Failed;
    let ts = decimal_u64(now);
    bundle.run.ended_at = Some(ts.clone());
    bundle.updated_at = ts.clone();
    let step_chain = WorkflowRuntimeEventChain::from_step_failed(&dispatch, task_id, reason_code, summary, ts.as_str());
    let run_chain = WorkflowRuntimeEventChain::from_run_failed(&bundle.workflow, &bundle.run, reason_code, summary, ts.as_str());
    assert(task_dispatch_result(b0, task_id@, *context, Ok(dispatch)));
    let mut chains: Vec<WorkflowRuntimeEventChain> = Vec::new();
    chains.push(step_chain);
    chains.push(run_chain);
    Ok(chains)
}

/// One entry of what a research task's subagents found: where it came from, its title, and
/// its address where it has one.
#[derive(Debug, Clone)]
pub struct ResultEntry {
    pub source: String,
    pub title: String,
    pub url: Option<String>,
}

/// The reference an entry contributes: its trimmed address, or else its source and trimmed
/// title, or nothing where both are blank.
pub open spec fn source_ref_of(e: ResultEntry) -> Option<Seq<char>> {
    match e.url {
        Some(u) if trim(u@).len() > 0 => Some(trim(u@)),
        _ => if trim(e.title@).len() > 0 {
            Some(e.source@ + ":"@ + trim(e.title@))
        } else {
            None
        },
    }
}

/// The references of the entries, each once, in the order they first come.
pub open spec fn source_refs_of(es: Seq<ResultEntry>) -> Seq<Seq<char>>
    decreases es.len(),
{
    if es.len() == 0 {
        Seq::empty()
    } else {
        let prev = source_refs_of(es.drop_last());
        match source_ref_of(es.last()) {
            Some(r) => with_member(prev, r),
            None => prev,
        }
    }
}

/// The reference an entry contributes.
fn source_ref(e: &ResultEntry) -> (res: Option<String>)
    ensures
        match res {
            Some(r) => source_ref_of(*e) == Some(r@),
            None => source_ref_of(*e) is None,
        },
{
    if let Some(u) = &e.url {
        let uc = chars_of(u.as_str());
        let ut = trim_chars(&uc);
        if ut.len() > 0 {
            return Some(string_of(&ut));
        }
    }
    let tc = chars_of(e.title.as_str());
    let tt = trim_chars(&tc);
    if tt.len() > 0 {
        let mut v = chars_of(e.source.as_str());
        push_str(&mut v, ":");
        append_chars(&mut v, &tt);
        proof {
            reveal_strlit(":");
        }
        Some(string_of(&v))
    } else {
        None
    }
}

/// The evidence references of a task's findings: each entry's address, or its source and
/// title, once each, in the order they first come.
pub fn task_source_refs(entries: &Vec<ResultEntry>) -> (res: Vec<String>)
    ensures
        strings_view(res@) == source_refs_of(entries@),
{
    let mut refs: Vec<String> = Vec::new();
    let mut i: usize = 0;
    while i < entries.len()
        invariant
            i <= entries.len(),
            strings_view(refs@) == source_refs_of(entries@.take(i as int)),
        decreases entries.len() - i,
    {
        assert(entries@.take(i + 1).drop_last() == entries@.take(i as int));
        assert(entries@.take(i + 1).last() == entries@[i as int]);
        if let Some(r) = source_ref(&entries[i]) {
            if !contains_string(&refs, &r) {
                let ghost before = strings_view(refs@);
                refs.push(r);
                assert(strings_view(refs@) =~= before.push(r@));
            }
        }
        i = i + 1;
    }
    assert(entries@.take(entries.len() as int) == entries@);
    refs
}

/// Whether the scheduler reports the task done.
pub open spec fn is_done(s: SchedulerTaskStatus) -> bool {
    s matches SchedulerTaskStatus::Done
}

/// The checks a completed task passes before its result is read: it is done, belongs to the
/// run, has a dispatch, and its id can name a result directory.
pub open spec fn completion_start_result(
    bundle: WorkflowRuntimeBundle,
    task_id: Seq<char>,
    status: SchedulerTaskStatus,
    context: WorkflowTaskContext,
    res: Result<StepDispatch, WorkflowError>,
) -> bool {
    if !is_done(status) {
        res is Err && res->Err_0@ == WorkflowErrorView::RuntimeStateParse(
            "workflow task "@ + task_id + " is not completed"@,
        )
    } else {
        match res {
            Ok(d) => task_dispatch_result(bundle, task_id, context, Ok(d)) && safe_component(task_id),
            Err(e) => task_dispatch_result(bundle, task_id, context, Err(e)) || (
                (exists|d: StepDispatch| task_dispatch_result(bundle, task_id, context, Ok(d)))
                    && !safe_component(task_id)
                    && e@ == WorkflowErrorView::UnsafeRuntimeComponent(task_id)
            ),
        }
    }
}

/// Checks a task the scheduler reports on before its result is read, and gives its dispatch.
pub fn begin_task_completion(
    bundle: &WorkflowRuntimeBundle,
    task_id: &str,
    status: &SchedulerTaskStatus,
    context: &WorkflowTaskContext,
) -> (res: Result<StepDispatch, WorkflowError>)
    requires
        bundle.registry.well_formed(),
    ensures
        completion_start_result(*bundle, task_id@, *status, *context, res),
{
    match status {
        SchedulerTaskStatus::Done => {},
        _ => {
            let mut m: Vec<char> = Vec::new();
            push_str(&mut m, "workflow task ");
            push_str(&mut m, task_id);
            push_str(&mut m, " is not completed");
            return Err(WorkflowError::RuntimeStateParse(string_of(&m)));
        },
    }
    let (d, _i) = match task_dispatch(bundle, task_id, context) {
        Err(e) => return Err(e),
        Ok(x) => x,
    };
    match safe_runtime_component(task_id) {
        Err(e) => Err(e),
        Ok(_) => Ok(d),
    }
}

/// Whether a report has another id than `rid`.
pub open spec fn other_report(rid: Seq<char>) -> spec_fn(StepReport) -> bool {
    |r: StepReport| r.report_id@ != rid
}

/// Whether a finding is about another target than `target`.
pub open spec fn other_target(target: Seq<char>) -> spec_fn(VerificationFinding) -> bool {
    |f: VerificationFinding| f.target@ != target
}

/// Takes out the reports with the given id.
fn drop_reports_with_id(reports: &mut Vec<StepReport>, report_id: &String)
    ensures
        final(reports)@ == old(reports)@.filter(other_report(report_id@)),
{
    let ghost keep = other_report(report_id@);
    let ghost src = reports@;
    let ghost mut j: int = 0;
    let mut i: usize = 0;
    while i < reports.len()
        invariant
            0 <= j <= src.len(),
            i == src.take(j).filter(keep).len(),
            reports@ == src.take(j).filter(keep) + src.skip(j),
            keep == other_report(report_id@),
        decreases reports.len() - i,
    {
        proof {
            assert(src.take(j + 1) == src.take(j).push(src[j]));
            src.take(j).lemma_filter_push(src[j], keep);
            assert(reports@[i as int] == src[j]);
            assert(src.skip(j) == seq![src[j]] + src.skip(j + 1));
        }
        if reports[i].report_id == *report_id {
            reports.remove(i);
            assert(reports@ =~= src.take(j + 1).filter(keep) + src.skip(j + 1));
        } else {
            assert(reports@ =~= src.take(j + 1).filter(keep) + src.skip(j + 1));
            i = i + 1;
        }
        proof {
            j = j + 1;
        }
    }
    proof {
        if j < src.len() {
            assert(src.skip(j).len() > 0);
        }
        assert(src.take(j) == src);
        assert(reports@ =~= src.filter(keep));
    }
}

/// Takes out the findings about the given target.
fn drop_findings_for(findings: &mut Vec<VerificationFinding>, target: &String)
    ensures
        final(findings)@ == old(findings)@.filter(other_target(target@)),
{
    let ghost keep = other_target(target@);
    let ghost src = findings@;
    let ghost mut j: int = 0;
    let mut i: usize = 0;
    while i < findings.len()
        invariant
            0 <= j <= src.len(),
            i == src.take(j).filter(keep).len(),
            findings@ == src.take(j).filter(keep) + src.skip(j),
            keep == other_target(target@),
        decreases findings.len() - i,
    {
        proof {
            assert(src.take(j + 1) == src.take(j).push(src[j]));
            src.take(j).lemma_filter_push(src[j], keep);
            assert(findings@[i as int] == src[j]);
            assert(src.skip(j) == seq![src[j]] + src.skip(j + 1));
        }
        if findings[i].target == *target {
            findings.remove(i);
            assert(findings@ =~= src.take(j + 1).filter(keep) + src.skip(j + 1));
        } else {
            assert(findings@ =~= src.take(j + 1).filter(keep) + src.skip(j + 1));
            i = i + 1;
        }
        proof {
            j = j + 1;
        }
    }
    proof {
        if j < src.len() {
            assert(src.skip(j).len() > 0);
        }
        assert(src.take(j) == src);
        assert(findings@ =~= src.filter(keep));
    }
}

/// The JSON object with the given whole-number members, in order (`serde_json::Value::Object`
/// over numbers).
pub uninterp spec fn json_counts_of(members: Seq<(Seq<char>, usize)>) -> serde_json::Value;

/// Builds a JSON object of whole-number members; of the value the library knows its name.
#[verifier::external_body]
fn json_count_object(members: &Vec<(String, usize)>) -> (res: serde_json::Value)
    ensures
        res == json_counts_of(members@.map_values(|p: (String, usize)| (p.0@, p.1))),
{
    serde_json::Value::Object(
        members.iter().map(|(k, v)| (k.clone(), serde_json::Value::from(*v))).collect(),
    )
}

/// A copy of an artifact reference.
fn copy_artifact(a: &ArtifactRef) -> (res: ArtifactRef)
    ensures
        res == *a,
{
    ArtifactRef {
        artifact_id: a.artifact_id.clone(),
        artifact_type: a.artifact_type,
        uri: a.uri.clone(),
        hash: a.hash.clone(),
        mime_type: a.mime_type.clone(),
        producer_step_id: a.producer_step_id.clone(),
        retention_policy: a.retention_policy,
        created_at: a.created_at.clone(),
    }
}

/// What the runtime read of a completed task besides the run's state: its Working artifact and
/// result text where they could be read, whether its trace and its context were found, the
/// entries its subagents found, how many claims were drawn from its report, and its evidence
/// confidence as the bit pattern of a 32-bit float.
#[derive(Debug, Clone)]
pub struct CompletionObservation {
    pub working_artifact: Option<ArtifactRef>,
    pub result_content: Option<String>,
    pub trace_complete: bool,
    pub context_present: bool,
    pub entries: Vec<ResultEntry>,
    pub claim_count: usize,
    pub confidence_bits: u32,
}

/// The result text, or nothing where it could not be read.
pub open spec fn content_or_empty(o: Option<String>) -> Seq<char> {
    match o {
        Some(c) => c@,
        None => Seq::empty(),
    }
}

/// The references the findings cite: the Working artifact, then the task's sources.
pub open spec fn evidence_uris(obs: CompletionObservation) -> Seq<Seq<char>> {
    (match obs.working_artifact {
        Some(a) => seq![a.uri@],
        None => Seq::empty(),
    }) + source_refs_of(obs.entries@)
}

/// The checks a completed task is held to: its run, id and step, and what was read of it.
pub open spec fn checks_for(
    c: CompletionChecks,
    run_id: Seq<char>,
    task_id: Seq<char>,
    step: WorkflowStepView,
    obs: CompletionObservation,
) -> bool {
    &&& c.run_id@ == run_id
    &&& c.task_id@ == task_id
    &&& c.step@ == step
    &&& c.working_artifact == obs.working_artifact
    &&& opt_text(c.result_content) == opt_text(obs.result_content)
    &&& c.trace_complete == obs.trace_complete
    &&& c.context_present == obs.context_present
    &&& c.evidence_present == (source_refs_of(obs.entries@).len() > 0)
    &&& c.claims_present == (obs.claim_count > 0)
    &&& strings_view(c.checked_criteria@) == acceptance_scan(split_from(content_or_empty(obs.result_content), 0, '\n')).1
    &&& strings_view(c.evidence_refs@) == evidence_uris(obs)
}

/// Whether every finding passed.
pub open spec fn all_pass(fs: Seq<FindingView>) -> bool {
    forall|i: int| 0 <= i < fs.len() ==> #[trigger] fs[i].result == VerificationOutcome::Pass
}

/// The reason of the first finding that did not pass.
pub open spec fn first_failure_reason(fs: Seq<FindingView>) -> Seq<char>
    decreases fs.len(),
{
    if fs.len() == 0 {
        "verification_failed"@
    } else if fs[0].result != VerificationOutcome::Pass {
        fs[0].reason_code
    } else {
        first_failure_reason(fs.drop_first())
    }
}

/// The reasons of the findings that did not pass, in order.
pub open spec fn failing_reasons(fs: Seq<FindingView>) -> Seq<Seq<char>>
    decreases fs.len(),
{
    if fs.len() == 0 {
        Seq::empty()
    } else if fs.last().result != VerificationOutcome::Pass {
        failing_reasons(fs.drop_last()).push(fs.last().reason_code)
    } else {
        failing_reasons(fs.drop_last())
    }
}

/// The id of the report of a step's attempt in a run.
pub open spec fn report_id_for(run_id: Seq<char>, step_id: Seq<char>, attempt: usize) -> Seq<char> {
    "report_"@ + run_id + "_"@ + step_id + "_a"@ + decimal(attempt as nat)
}

/// The report of a completed research step: completed where there is a Working artifact and
/// a result with content, with the artifact, one piece of evidence per source, the reasons of
/// the failed findings as risks, the claim and source counts as resource usage, and the
/// task's confidence.
pub open spec fn is_completion_report(
    r: StepReport,
    run_id: Seq<char>,
    step_id: Seq<char>,
    attempt: usize,
    obs: CompletionObservation,
    fs: Seq<FindingView>,
) -> bool {
    let refs = source_refs_of(obs.entries@);
    &&& r.report_id@ == report_id_for(run_id, step_id, attempt)
    &&& r.step_id@ == step_id
    &&& r.attempt == attempt
    &&& r.status == (if obs.working_artifact is Some && trim(content_or_empty(obs.result_content)).len() > 0 {
        StepReportStatus::Completed
    } else {
        StepReportStatus::Failed
    })
    &&& r.summary@ == "Research result recorded in Dream Working Memory"@
    &&& r.artifacts@ == (match obs.working_artifact {
        Some(a) => seq![a],
        None => Seq::empty(),
    })
    &&& r.evidence@.len() == refs.len()
    &&& forall|i: int| 0 <= i < refs.len() ==> {
        &&& (#[trigger] r.evidence@[i]).file@ == refs[i]
        &&& r.evidence@[i].lines@.len() == 0
        &&& r.evidence@[i].claim@ == "retrieval evidence reference"@
    }
    &&& strings_view(r.risks@) == failing_reasons(fs)
    &&& r.blocked_by@.len() == 0
    &&& r.suggested_next_steps@.len() == 0
    &&& r.resource_usage == json_counts_of(seq![("claim_count"@, obs.claim_count), ("evidence_reference_count"@, refs.len() as usize)])
    &&& r.confidence_bits == obs.confidence_bits
}

/// What became of a completed task: whether its step verified, the reason to give where it did
/// not, and the events to record so far (reported, then assessed).
#[derive(Debug)]
pub struct CompletionOutcome {
    pub verified: bool,
    pub failure_reason: String,
    pub chains: Vec<WorkflowRuntimeEventChain>,
}


/// How a completed task was assessed: the checks it was held to, the findings they gave, and
/// what of them the run keeps and the ledger records.
pub open spec fn completion_assessed(
    out: CompletionOutcome,
    before: WorkflowRuntimeBundle,
    after: WorkflowRuntimeBundle,
    task_id: Seq<char>,
    context: WorkflowTaskContext,
    observation: CompletionObservation,
    ts: Seq<char>,
    c: CompletionChecks,
    fs: Seq<VerificationFinding>,
) -> bool {
    let sid = context.step_id@;
    let steps = before.workflow@.steps;
    let report = after.step_reports@.last();
    &&& checks_for(c, context.run_id@, task_id, steps[first_index(steps, sid)], observation)
    &&& findings_view(fs) == completion_findings(c)
    &&& out.verified == all_pass(findings_view(fs))
    &&& out.failure_reason@ == first_failure_reason(findings_view(fs))
    &&& after.verification_findings@ == before.verification_findings@.filter(other_target(sid)) + fs
    &&& is_completion_report(report, context.run_id@, sid, context.attempt, observation, findings_view(fs))
    &&& out.chains.len() == 2
    &&& chain_view(out.chains[1]) == step_assessed_chain(
        before.workflow@.workflow_id,
        before.run.run_id@,
        report,
        findings_view(fs),
        ts,
    )
}


/// How a completed task is recorded in its run's state, and which events are recorded first.
pub open spec fn completion_recorded(
    before: WorkflowRuntimeBundle,
    after: WorkflowRuntimeBundle,
    out: CompletionOutcome,
    task_id: Seq<char>,
    context: WorkflowTaskContext,
    dispatch: StepDispatch,
    observation: CompletionObservation,
    ts: Seq<char>,
) -> bool {
    let sid = context.step_id@;
    let steps = before.workflow@.steps;
    let dv = dispatches_view(before.dispatches@);
    let report = after.step_reports@.last();
    &&& has_step_id(steps, sid) && has_record(dv, sid, context.attempt)
    &&& exists|c: CompletionChecks, fs: Seq<VerificationFinding>|
        #[trigger] completion_assessed(out, before, after, task_id, context, observation, ts, c, fs)
    &&& after.step_reports@ == before.step_reports@.filter(
        other_report(report_id_for(context.run_id@, sid, context.attempt)),
    ).push(report)
    &&& after.artifacts@ == (match observation.working_artifact {
        Some(a) => before.artifacts@.filter(
            |x: ArtifactRef| x.artifact_id@ != a.artifact_id@ && x.uri@ != a.uri@,
        ).push(a),
        None => before.artifacts@,
    })
    &&& chain_view(out.chains[0]) == step_reported_chain(
        dispatch,
        task_id,
        "Research result persisted in Dream Working Memory"@,
        ts,
    )
    &&& record_set(dv, dispatches_view(after.dispatches@), sid, context.attempt,
        WorkflowDispatchStatus::Reported, "research result recorded"@)
    &&& after.workflow == before.workflow
    &&& strings_view(after.run.active_step_ids@) == active_after(
        strings_view(before.run.active_step_ids@),
        sid,
        false,
    )
    &&& after.run.status == before.run.status
    &&& after.run.ended_at == before.run.ended_at
    &&& run_identity_kept(before.run, after.run)
    &&& after.goal == before.goal
    &&& after.registry == before.registry
    &&& after.updated_at@ == ts
}

/// Whether every finding passed, and the reason of the first that did not.
fn assess(findings: &Vec<VerificationFinding>) -> (res: (bool, String, Vec<String>))
    ensures
        res.0 == all_pass(findings_view(findings@)),
        res.1@ == first_failure_reason(findings_view(findings@)),
        strings_view(res.2@) == failing_reasons(findings_view(findings@)),
{
    let ghost fv = findings_view(findings@);
    let mut risks: Vec<String> = Vec::new();
    let mut i: usize = 0;
    while i < findings.len()
        invariant
            i <= findings.len(),
            fv == findings_view(findings@),
            strings_view(risks@) == failing_reasons(fv.take(i as int)),
        decreases findings.len() - i,
    {
        assert(fv.take(i + 1).drop_last() == fv.take(i as int));
        if findings[i].result != VerificationOutcome::Pass {
            let ghost before = strings_view(risks@);
            risks.push(findings[i].reason_code.clone());
            assert(strings_view(risks@) =~= before.push(fv[i as int].reason_code));
        }
        i = i + 1;
    }
    assert(fv.take(findings.len() as int) == fv);
    let mut j: usize = 0;
    assert(fv.skip(0) == fv);
    while j < findings.len()
        invariant
            j <= findings.len(),
            fv == findings_view(findings@),
            first_failure_reason(fv) == first_failure_reason(fv.skip(j as int)),
            forall|k: int| 0 <= k < j ==> #[trigger] fv[k].result == VerificationOutcome::Pass,
            strings_view(risks@) == failing_reasons(fv),
        decreases findings.len() - j,
    {
        assert(fv.skip(j as int).drop_first() == fv.skip(j + 1));
        assert(fv.skip(j as int)[0] == fv[j as int]);
        if findings[j].result != VerificationOutcome::Pass {
            return (false, findings[j].reason_code.clone(), risks);
        }
        j = j + 1;
    }
    assert(fv.skip(j as int).len() == 0);
    (true, owned("verification_failed"), risks)
}

/// Records a completed research task in its run, at `now`, from what was read of it: the
/// Working artifact is kept, the step is checked against its contract, its report replaces any
/// earlier one of the attempt, its findings replace the earlier ones of the step, its record
/// is reported and the step leaves the active ones. A verified step always has its Working
/// artifact, since the first finding checks for it.
#[verifier::spinoff_prover]
pub fn record_completion(
    bundle: &mut WorkflowRuntimeBundle,
    task_id: &str,
    context: &WorkflowTaskContext,
    dispatch: &StepDispatch,
    observation: CompletionObservation,
    now: u64,
) -> (res: Result<CompletionOutcome, WorkflowError>)
    ensures
        ({
            let sid = context.step_id@;
            let steps = old(bundle).workflow@.steps;
            let dv = dispatches_view(old(bundle).dispatches@);
            let ts = decimal(now as nat);
            match res {
                Err(e) => {
                    &&& *final(bundle) == *old(bundle)
                    &&& !(has_step_id(steps, sid) && has_record(dv, sid, context.attempt))
                    &&& e@ == WorkflowErrorView::RuntimeStateParse(
                        "workflow task "@ + task_id@ + " references missing dispatch for step "@ + sid,
                    )
                },
                Ok(out) => completion_recorded(*old(bundle), *final(bundle), out, task_id@, *context, *dispatch, observation, ts),
            }
        }),
{
    let ghost b0 = *bundle;
    let sid = context.step_id.clone();
    let si = match find_step(&bundle.workflow.steps, &sid) {
        Some(i) => i,
        None => return Err(missing_task_dispatch_error(task_id, sid.as_str())),
    };
    let ri = match dispatch_record(&bundle.dispatches, sid.as_str(), context.attempt) {
        Some(i) => i,
        None => return Err(missing_task_dispatch_error(task_id, sid.as_str())),
    };
    proof {
        assert(first_with_id(b0.workflow@.steps, sid@, si as int));
        assert(first_index(b0.workflow@.steps, sid@) == si as int);
    }
    let step = bundle.workflow.steps[si].copied();
    let source_refs = task_source_refs(&observation.entries);
    let content: &str = match &observation.result_content {
        Some(c) => c.as_str(),
        None => "",
    };
    proof {
        reveal_strlit("");
    }
    assert(content@ == content_or_empty(observation.result_content));
    let checked = checked_acceptance_criteria(content);
    let cc = chars_of(content);
    let has_content = trim_chars(&cc).len() > 0;
    let mut evidence_refs: Vec<String> = Vec::new();
    match &observation.working_artifact {
        Some(a) => {
            evidence_refs.push(a.uri.clone());
            assert(strings_view(evidence_refs@) =~= seq![a.uri@]);
        },
        None => {
            assert(strings_view(evidence_refs@) =~= Seq::<Seq<char>>::empty());
        },
    }
    let ghost head = strings_view(evidence_refs@);
    let mut k: usize = 0;
    while k < source_refs.len()
        invariant
            k <= source_refs.len(),
            strings_view(evidence_refs@) == head + strings_view(source_refs@).take(k as int),
        decreases source_refs.len() - k,
    {
        let ghost before = strings_view(evidence_refs@);
        evidence_refs.push(source_refs[k].clone());
        assert(strings_view(evidence_refs@) =~= before.push(source_refs@[k as int]@));
        assert(strings_view(source_refs@).take(k + 1) == strings_view(source_refs@).take(k as int).push(source_refs@[k as int]@));
        assert(strings_view(evidence_refs@) =~= head + strings_view(source_refs@).take(k + 1));
        k = k + 1;
    }
    assert(strings_view(source_refs@).take(source_refs.len() as int) == strings_view(source_refs@));
    assert(strings_view(evidence_refs@) == evidence_uris(observation));
    let working = match &observation.working_artifact {
        Some(a) => Some(copy_artifact(a)),
        None => None,
    };
    let checks = CompletionChecks {
        run_id: context.run_id.clone(),
        task_id: owned(task_id),
        step,
        working_artifact: working,
        result_content: match &observation.result_content {
            Some(c) => Some(c.clone()),
            None => None,
        },
        trace_complete: observation.trace_complete,
        context_present: observation.context_present,
        evidence_present: source_refs.len() > 0,
        claims_present: observation.claim_count > 0,
        checked_criteria: checked,
        evidence_refs,
    };
    let findings = build_completion_findings(&checks);
    let (verified, failure_reason, risks) = assess(&findings);

    let mut rid: Vec<char> = Vec::new();
    push_str(&mut rid, "report_");
    push_str(&mut rid, context.run_id.as_str());
    push_str(&mut rid, "_");
    push_str(&mut rid, sid.as_str());
    push_str(&mut rid, "_a");
    let digits = decimal_text(context.attempt);
    append_chars(&mut rid, &digits);
    let report_id = string_of(&rid);
    proof {
        reveal_strlit("report_");
        reveal_strlit("_");
        reveal_strlit("_a");
    }
    assert(report_id@ == report_id_for(context.run_id@, sid@, context.attempt));
    let mut artifacts: Vec<ArtifactRef> = Vec::new();
    match &observation.working_artifact {
        Some(a) => artifacts.push(copy_artifact(a)),
        None => {},
    }
    let mut evidence: Vec<EvidenceRef> = Vec::new();
    let mut m: usize = 0;
    while m < source_refs.len()
        invariant
            m <= source_refs.len(),
            evidence@.len() == m,
            forall|i: int| 0 <= i < m ==> {
                &&& (#[trigger] evidence@[i]).file@ == source_refs@[i]@
                &&& evidence@[i].lines@.len() == 0
                &&& evidence@[i].claim@ == "retrieval evidence reference"@
            },
        decreases source_refs.len() - m,
    {
        evidence.push(EvidenceRef {
            file: source_refs[m].clone(),
            lines: Vec::new(),
            claim: owned("retrieval evidence reference"),
        });
        m = m + 1;
    }
    let mut usage: Vec<(String, usize)> = Vec::new();
    usage.push((owned("claim_count"), observation.claim_count));
    usage.push((owned("evidence_reference_count"), source_refs.len()));
    assert(usage@.map_values(|p: (String, usize)| (p.0@, p.1)) =~= seq![
        ("claim_count"@, observation.claim_count),
        ("evidence_reference_count"@, source_refs.len()),
    ]);
    let resource_usage = json_count_object(&usage);
    let status = if observation.working_artifact.is_some() && has_content {
        StepReportStatus::Completed
    } else {
        StepReportStatus::Failed
    };
    let report = StepReport {
        report_id,
        step_id: sid.clone(),
        attempt: context.attempt,
        status,
        summary: owned("Research result recorded in Dream Working Memory"),
        artifacts,
        evidence,
        risks,
        blocked_by: Vec::new(),
        suggested_next_steps: Vec::new(),
        resource_usage,
        confidence_bits: observation.confidence_bits,
    };
    let ts = decimal_u64(now);
    let reported = WorkflowRuntimeEventChain::from_step_reported(
        dispatch,
        task_id,
        "Research result persisted in Dream Working Memory",
        ts.as_str(),
    );
    let assessed = WorkflowRuntimeEventChain::from_step_assessed(
        bundle.workflow.workflow_id.as_str(),
        bundle.run.run_id.as_str(),
        &report,
        &findings,
        ts.as_str(),
    );
    let ghost fs = findings@;

    match observation.working_artifact {
        Some(a) => crate::completion::upsert_artifact(&mut bundle.artifacts, a),
        None => {},
    }
    let rid_text = report.report_id.clone();
    let ghost checks_g = checks;
    let ghost report_g = report;
    drop_reports_with_id(&mut bundle.step_reports, &rid_text);
    bundle.step_reports.push(report);
    drop_findings_for(&mut bundle.verification_findings, &sid);
    let mut fv = findings;
    let ghost kept = bundle.verification_findings@;
    bundle.verification_findings.append(&mut fv);
    assert(bundle.verification_findings@ == kept + fs);
    proof {
        reveal_strlit("research result recorded");
    }
    set_record_at(bundle, ri, WorkflowDispatchStatus::Reported, "research result recorded");
    remove_active_step(&mut bundle.run.active_step_ids, sid.as_str());
    bundle.updated_at = ts;
    let mut chains: Vec<WorkflowRuntimeEventChain> = Vec::new();
    chains.push(reported);
    chains.push(assessed);
    proof {
        assert(bundle.step_reports@.last() == report_g);
    }
    let out = CompletionOutcome { verified, failure_reason, chains };
    assert(completion_assessed(out, b0, *bundle, task_id@, *context, observation, decimal(now as nat), checks_g, fs));
    assert(has_step_id(b0.workflow@.steps, context.step_id@));
    assert(has_record(dispatches_view(b0.dispatches@), context.step_id@, context.attempt));
    assert(completion_recorded(b0, *bundle, out, task_id@, *context, *dispatch, observation, decimal(now as nat)));
    Ok(out)
}

/// What promoting a verified step does to the run's state, and the events it gives.
pub open spec fn step_promoted(
    before: WorkflowRuntimeBundle,
    after: WorkflowRuntimeBundle,
    dispatch: StepDispatch,
    task_id: Seq<char>,
    working_artifact: ArtifactRef,
    semantic_artifact: ArtifactRef,
    now: u64,
    res: Result<Vec<WorkflowRuntimeEventChain>, WorkflowError>,
) -> bool {
    ({
        let sid = dispatch.step_id@;
        let st = WorkflowStepStatus::Verified;
        let ts = decimal(now as nat);
        match res {
            Err(e) => {
                &&& step_status_set(before.workflow@, sid, st, Err(e@))
                &&& same_state(before, after)
            },
            Ok(chains) => {
                &&& exists|w: WorkflowIrView|
                    step_status_set(before.workflow@, sid, st, Ok((step_status_differs(before.workflow@, sid, st), w)))
                        && after.workflow@ == (WorkflowIrView { status: WorkflowStatus::Completed, ..w })
                &&& after.artifacts@ == before.artifacts@.filter(
                    |x: ArtifactRef| x.artifact_id@ != semantic_artifact.artifact_id@ && x.uri@ != semantic_artifact.uri@,
                ).push(semantic_artifact)
                &&& after.run.status == RunStatus::Succeeded
                &&& opt_text(after.run.ended_at) == Some(ts)
                &&& after.run.active_step_ids == before.run.active_step_ids
                &&& run_identity_kept(before.run, after.run)
                &&& after.dispatches == before.dispatches
                &&& after.step_reports == before.step_reports
                &&& after.verification_findings == before.verification_findings
                &&& after.goal == before.goal
                &&& after.registry == before.registry
                &&& after.updated_at == before.updated_at
                &&& chains.len() == 3
                &&& chain_view(chains[0]) == step_verified_chain(dispatch, task_id, working_artifact, ts)
                &&& chain_view(chains[1]) == semantic_promoted_chain(
                    after.workflow@.workflow_id,
                    after.run.run_id@,
                    sid,
                    semantic_artifact,
                    ts,
                )
                &&& chain_view(chains[2]) == run_succeeded_chain(after.workflow@, after.run, ts)
            },
        }
    })
}

/// Promotes a verified step at `now`, once its knowledge is written to semantic memory: the
/// semantic artifact is kept, the step is verified, the workflow completes and the run
/// succeeds and ends. Gives the events to record: the step verified on its Working artifact,
/// the promotion, and the run's success.
pub fn promote_verified_step(
    bundle: &mut WorkflowRuntimeBundle,
    dispatch: &StepDispatch,
    task_id: &str,
    working_artifact: &ArtifactRef,
    semantic_artifact: ArtifactRef,
    now: u64,
) -> (res: Result<Vec<WorkflowRuntimeEventChain>, WorkflowError>)
    ensures
        step_promoted(*old(bundle), *final(bundle), *dispatch, task_id@, *working_artifact, semantic_artifact, now, res),
{
    let ghost b0 = *bundle;
    let c = match set_workflow_step_status(&mut bundle.workflow, dispatch.step_id.as_str(), WorkflowStepStatus::Verified) {
        Ok(c) => c,
        Err(e) => return Err(e),
    };
    let ghost w = bundle.workflow@;
    assert(step_status_set(b0.workflow@, dispatch.step_id@, WorkflowStepStatus::Verified, Ok((c, w))));
    assert(c == step_status_differs(b0.workflow@, dispatch.step_id@, WorkflowStepStatus::Verified));
    let semantic = copy_artifact(&semantic_artifact);
    crate::completion::upsert_artifact(&mut bundle.artifacts, semantic_artifact);
    bundle.workflow.status = WorkflowStatus::Completed;
    assert(bundle.workflow@ == (WorkflowIrView { status: WorkflowStatus::Completed, ..w }));
    bundle.run.status = RunStatus::Succeeded;
    let ts = decimal_u64(now);
    bundle.run.ended_at = Some(ts.clone());
    let mut chains: Vec<WorkflowRuntimeEventChain> = Vec::new();
    chains.push(WorkflowRuntimeEventChain::from_step_verified(dispatch, task_id, working_artifact, ts.as_str()));
    chains.push(WorkflowRuntimeEventChain::from_semantic_promoted(
        bundle.workflow.workflow_id.as_str(),
        bundle.run.run_id.as_str(),
        dispatch.step_id.as_str(),
        &semantic,
        ts.as_str(),
    ));
    chains.push(WorkflowRuntimeEventChain::from_run_succeeded(&bundle.workflow, &bundle.run, ts.as_str()));
    Ok(chains)
}

/// What failing an unverified step does to the run's state, and the event it gives.
pub open spec fn step_failed(
    before: WorkflowRuntimeBundle,
    after: WorkflowRuntimeBundle,
    step_id: Seq<char>,
    reason_code: Seq<char>,
    now: u64,
    res: Result<WorkflowRuntimeEventChain, WorkflowError>,
) -> bool {
    ({
        let st = WorkflowStepStatus::Failed;
        let ts = decimal(now as nat);
        match res {
            Err(e) => {
                &&& step_status_set(before.workflow@, step_id, st, Err(e@))
                &&& same_state(before, after)
            },
            Ok(chain) => {
                &&& exists|w: WorkflowIrView|
                    step_status_set(before.workflow@, step_id, st, Ok((step_status_differs(before.workflow@, step_id, st), w)))
                        && after.workflow@ == (WorkflowIrView { status: WorkflowStatus::Aborted, ..w })
                &&& after.run.status == RunStatus::Failed
                &&& opt_text(after.run.ended_at) == Some(ts)
                &&& after.run.active_step_ids == before.run.active_step_ids
                &&& run_identity_kept(before.run, after.run)
                &&& after.dispatches == before.dispatches
                &&& records_kept(before, after)
                &&& after.updated_at == before.updated_at
                &&& chain_view(chain) == run_failed_chain(
                    after.workflow@,
                    after.run,
                    reason_code,
                    "Workflow verification failed; Working artifacts were retained."@,
                    ts,
                )
            },
        }
    })
}

/// Fails a step whose findings did not all pass, at `now`: the step fails, the workflow is
/// aborted and the run fails and ends, its Working artifacts kept. Gives the run's failure
/// event with the reason.
pub fn fail_unverified_step(
    bundle: &mut WorkflowRuntimeBundle,
    step_id: &str,
    reason_code: &str,
    now: u64,
) -> (res: Result<WorkflowRuntimeEventChain, WorkflowError>)
    ensures
        step_failed(*old(bundle), *final(bundle), step_id@, reason_code@, now, res),
{
    let ghost b0 = *bundle;
    let c = match set_workflow_step_status(&mut bundle.workflow, step_id, WorkflowStepStatus::Failed) {
        Ok(c) => c,
        Err(e) => return Err(e),
    };
    let ghost w = bundle.workflow@;
    assert(step_status_set(b0.workflow@, step_id@, WorkflowStepStatus::Failed, Ok((c, w))));
    assert(c == step_status_differs(b0.workflow@, step_id@, WorkflowStepStatus::Failed));
    bundle.workflow.status = WorkflowStatus::Aborted;
    assert(bundle.workflow@ == (WorkflowIrView { status: WorkflowStatus::Aborted, ..w }));
    bundle.run.status = RunStatus::Failed;
    let ts = decimal_u64(now);
    bundle.run.ended_at = Some(ts.clone());
    Ok(WorkflowRuntimeEventChain::from_run_failed(
        &bundle.workflow,
        &bundle.run,
        reason_code,
        "Workflow verification failed; Working artifacts were retained.",
        ts.as_str(),
    ))
}

/// The events a dispatch record must have in the ledger, given its dispatch: the dispatch
/// itself, then, where it went to a task, its queueing and what became of it; an unsupported
/// dispatch has its rejection.
pub open spec fn record_chains(r: DispatchView, d: StepDispatch, ts: Seq<char>) -> Seq<ChainView> {
    let first = dispatches_chain(seq![d], ts);
    match r.status {
        WorkflowDispatchStatus::Dispatched => seq![first],
        WorkflowDispatchStatus::Unsupported => {
            let (code, summary) = unsupported_detail(r.detail);
            seq![first, step_unsupported_chain(d, code, summary, ts)]
        },
        _ => match r.task_id {
            None => seq![first],
            Some(t) => match r.status {
                WorkflowDispatchStatus::Queued => seq![first, step_queued_chain(d, t, ts)],
                WorkflowDispatchStatus::Running => seq![first, step_queued_chain(d, t, ts), step_running_chain(d, t, ts)],
                WorkflowDispatchStatus::Reported => seq![
                    first,
                    step_queued_chain(d, t, ts),
                    step_reported_chain(d, t, match r.detail { Some(x) => x, None => Seq::empty() }, ts),
                ],
                _ => {
                    let (code, summary) = failed_detail(r.detail);
                    seq![first, step_queued_chain(d, t, ts), step_failed_chain(d, t, code, summary, ts)]
                },
            },
        },
    }
}

/// The events of the first `k` records, in order, given their dispatches.
pub open spec fn records_chains(rs: Seq<DispatchView>, ds: Seq<StepDispatch>, ts: Seq<char>, k: int) -> Seq<ChainView>
    decreases k,
{
    if k <= 0 {
        Seq::empty()
    } else {
        records_chains(rs, ds, ts, k - 1) + record_chains(rs[k - 1], ds[k - 1], ts)
    }
}

/// What repairing a run's ledger asks for: its creation, then the events of each dispatch
/// record in order, as far as the records' steps can be dispatched; and the error of the first
/// record that cannot.
pub open spec fn repair_plan(bundle: WorkflowRuntimeBundle, chains: Seq<ChainView>, err: Option<WorkflowError>) -> bool {
    exists|ds: Seq<StepDispatch>, k: int| #[trigger] repair_prefix(bundle, chains, err, ds, k)
}

/// The ledger repair of the first `k` dispatch records, with their dispatches `ds`, ending
/// with the error of record `k` where there is one.
pub open spec fn repair_prefix(
    bundle: WorkflowRuntimeBundle,
    chains: Seq<ChainView>,
    err: Option<WorkflowError>,
    ds: Seq<StepDispatch>,
    k: int,
) -> bool {
    let rs = dispatches_view(bundle.dispatches@);
    &&& 0 <= k <= rs.len()
    &&& ds.len() == k
    &&& forall|i: int| 0 <= i < k ==> #[trigger] dispatch_for_step_result(bundle, rs[i].step_id, rs[i].attempt, Ok(ds[i]))
    &&& chains == seq![run_created_chain(bundle.workflow@, bundle.run, bundle.run.started_at@)]
        + records_chains(rs, ds, bundle.updated_at@, k)
    &&& if k < rs.len() {
        err is Some && dispatch_for_step_result(bundle, rs[k].step_id, rs[k].attempt, Err(err->0))
    } else {
        err is None
    }
}


/// The event of a single dispatch, with the dispatch handed back.
fn dispatch_chain(d: StepDispatch, ts: &str) -> (res: (StepDispatch, WorkflowRuntimeEventChain))
    ensures
        res.0 == d,
        chain_view(res.1) == dispatches_chain(seq![d], ts@),
{
    let ghost dd = d;
    let mut one: Vec<StepDispatch> = Vec::new();
    one.push(d);
    assert(one@ == seq![dd]);
    let chain = WorkflowRuntimeEventChain::from_step_dispatches(&one, ts);
    let d = one.pop().unwrap();
    (d, chain)
}

/// The record of a step's attempt just dispatched.
pub open spec fn dispatched_record(step_id: Seq<char>, attempt: usize) -> DispatchView {
    DispatchView {
        step_id,
        attempt,
        task_id: None,
        status: WorkflowDispatchStatus::Dispatched,
        detail: None,
    }
}

/// Opens a record for a ready dispatch, at `now`, unless the step's attempt has one already.
/// Gives the dispatch back, with the event of the dispatch where a record was opened.
pub fn open_dispatch(bundle: &mut WorkflowRuntimeBundle, dispatch: StepDispatch, now: u64) -> (res: (StepDispatch, Option<WorkflowRuntimeEventChain>))
    ensures
        res.0 == dispatch,
        ({
            let dv = dispatches_view(old(bundle).dispatches@);
            if has_record(dv, dispatch.step_id@, dispatch.attempt) {
                &&& res.1 is None
                &&& *final(bundle) == *old(bundle)
            } else {
                &&& res.1 matches Some(c) && chain_view(c) == dispatches_chain(seq![dispatch], decimal(now as nat))
                &&& dispatches_view(final(bundle).dispatches@) == dv.push(dispatched_record(dispatch.step_id@, dispatch.attempt))
                &&& final(bundle).updated_at@ == decimal(now as nat)
                &&& final(bundle).workflow == old(bundle).workflow
                &&& final(bundle).run == old(bundle).run
                &&& records_kept(*old(bundle), *final(bundle))
            }
        }),
{
    if dispatch_record(&bundle.dispatches, dispatch.step_id.as_str(), dispatch.attempt).is_some() {
        return (dispatch, None);
    }
    let ghost dv = dispatches_view(bundle.dispatches@);
    bundle.dispatches.push(WorkflowDispatchRecord {
        step_id: dispatch.step_id.clone(),
        attempt: dispatch.attempt,
        task_id: None,
        status: WorkflowDispatchStatus::Dispatched,
        detail: None,
    });
    assert(dispatches_view(bundle.dispatches@) =~= dv.push(dispatched_record(dispatch.step_id@, dispatch.attempt)));
    let ts = decimal_u64(now);
    let (d, chain) = dispatch_chain(dispatch, ts.as_str());
    bundle.updated_at = ts;
    (d, Some(chain))
}

/// Records that a dispatch was handed to the scheduler as a task, at `now`: its record is
/// queued, its step runs and is active. Gives the queueing event.
pub fn record_dispatch_queued(bundle: &mut WorkflowRuntimeBundle, dispatch: &StepDispatch, task_id: &str, now: u64) -> (res: Result<WorkflowRuntimeEventChain, WorkflowError>)
    ensures
        ({
            let sid = dispatch.step_id@;
            let st = WorkflowStepStatus::Running;
            match res {
                Err(e) => {
                    &&& step_status_set(old(bundle).workflow@, sid, st, Err(e@))
                    &&& same_state(*old(bundle), *final(bundle))
                },
                Ok(chain) => {
                    &&& chain_view(chain) == step_queued_chain(*dispatch, task_id@, decimal(now as nat))
                    &&& with_record(
                        dispatches_view(old(bundle).dispatches@),
                        queued_record(sid, dispatch.attempt, task_id@),
                        dispatches_view(final(bundle).dispatches@),
                    )
                    &&& step_status_set(old(bundle).workflow@, sid, st, Ok((step_status_differs(old(bundle).workflow@, sid, st), final(bundle).workflow@)))
                    &&& strings_view(final(bundle).run.active_step_ids@) == active_after(
                        strings_view(old(bundle).run.active_step_ids@),
                        sid,
                        true,
                    )
                    &&& final(bundle).run.status == old(bundle).run.status
                    &&& final(bundle).run.ended_at == old(bundle).run.ended_at
                    &&& run_identity_kept(old(bundle).run, final(bundle).run)
                    &&& records_kept(*old(bundle), *final(bundle))
                    &&& final(bundle).updated_at@ == decimal(now as nat)
                },
            }
        }),
{
    match set_workflow_step_status(&mut bundle.workflow, dispatch.step_id.as_str(), WorkflowStepStatus::Running) {
        Ok(_) => {},
        Err(e) => return Err(e),
    }
    mark_dispatch_queued(bundle, dispatch, task_id, now);
    add_active_step(&mut bundle.run.active_step_ids, dispatch.step_id.as_str());
    let ts = decimal_u64(now);
    Ok(WorkflowRuntimeEventChain::from_step_queued(dispatch, task_id, ts.as_str()))
}

/// Records that a dispatch cannot be carried out by the runtime, at `now`, with the reason.
/// Gives the rejection event.
pub fn record_dispatch_unsupported(
    bundle: &mut WorkflowRuntimeBundle,
    dispatch: &StepDispatch,
    reason_code: &str,
    summary: &str,
    now: u64,
) -> (res: WorkflowRuntimeEventChain)
    ensures
        chain_view(res) == step_unsupported_chain(*dispatch, reason_code@, summary@, decimal(now as nat)),
        with_record(
            dispatches_view(old(bundle).dispatches@),
            unsupported_record(dispatch.step_id@, dispatch.attempt, reason_code@, summary@),
            dispatches_view(final(bundle).dispatches@),
        ),
        final(bundle).updated_at@ == decimal(now as nat),
        same_but_dispatches(*old(bundle), *final(bundle)),
{
    mark_dispatch_unsupported(bundle, dispatch, reason_code, summary, now);
    let ts = decimal_u64(now);
    WorkflowRuntimeEventChain::from_step_unsupported(dispatch, reason_code, summary, ts.as_str())
}

/// The records that are still open and whose task the scheduler does not hold (or that never
/// got one): their step and attempt, in order.
pub open spec fn recoverable(rs: Seq<DispatchView>, live: Seq<Seq<char>>) -> Seq<(Seq<char>, usize)>
    decreases rs.len(),
{
    if rs.len() == 0 {
        Seq::empty()
    } else {
        let r = rs.last();
        let prev = recoverable(rs.drop_last(), live);
        if !terminal(r.status) && (match r.task_id {
            Some(t) => !live.contains(t),
            None => true,
        }) {
            prev.push((r.step_id, r.attempt))
        } else {
            prev
        }
    }
}

/// The step and attempt of each open record whose task the scheduler does not hold, given
/// the ids of the tasks it holds.
pub fn recoverable_dispatches(bundle: &WorkflowRuntimeBundle, live_task_ids: &Vec<String>) -> (res: Vec<(String, usize)>)
    ensures
        res@.map_values(|p: (String, usize)| (p.0@, p.1)) == recoverable(dispatches_view(bundle.dispatches@), strings_view(live_task_ids@)),
{
    let ghost rs = dispatches_view(bundle.dispatches@);
    let ghost live = strings_view(live_task_ids@);
    let mut out: Vec<(String, usize)> = Vec::new();
    let mut i: usize = 0;
    while i < bundle.dispatches.len()
        invariant
            i <= bundle.dispatches.len(),
            rs == dispatches_view(bundle.dispatches@),
            live == strings_view(live_task_ids@),
            out@.map_values(|p: (String, usize)| (p.0@, p.1)) == recoverable(rs.take(i as int), live),
        decreases bundle.dispatches.len() - i,
    {
        let r = &bundle.dispatches[i];
        assert(rs.take(i + 1).drop_last() == rs.take(i as int));
        assert(rs.take(i + 1).last() == rs[i as int]);
        let missing = match &r.task_id {
            Some(t) => !contains_string(live_task_ids, t),
            None => true,
        };
        if !dispatch_record_is_terminal(r) && missing {
            let ghost before = out@.map_values(|p: (String, usize)| (p.0@, p.1));
            out.push((r.step_id.clone(), r.attempt));
            assert(out@.map_values(|p: (String, usize)| (p.0@, p.1)) =~= before.push((rs[i as int].step_id, rs[i as int].attempt)));
        }
        i = i + 1;
    }
    assert(rs.take(bundle.dispatches.len() as int) == rs);
    out
}

/// The events a dispatch record must have in the ledger.
fn chains_for_record(record: &WorkflowDispatchRecord, d: StepDispatch, ts: &str, out: &mut Vec<WorkflowRuntimeEventChain>)
    ensures
        final(out)@.map_values(|c: WorkflowRuntimeEventChain| chain_view(c)) == old(out)@.map_values(|c: WorkflowRuntimeEventChain| chain_view(c))
            + record_chains(dispatch_view(*record), d, ts@),
{
    let ghost before = out@.map_values(|c: WorkflowRuntimeEventChain| chain_view(c));
    let ghost dd = d;
    let (d, first) = dispatch_chain(d, ts);
    let mut add: Vec<WorkflowRuntimeEventChain> = Vec::new();
    add.push(first);
    match record.status {
        WorkflowDispatchStatus::Dispatched => {},
        WorkflowDispatchStatus::Unsupported => {
            let (code, summary) = unsupported_dispatch_detail(record);
            add.push(WorkflowRuntimeEventChain::from_step_unsupported(&d, code.as_str(), summary.as_str(), ts));
        },
        _ => match &record.task_id {
            None => {},
            Some(t) => {
                add.push(WorkflowRuntimeEventChain::from_step_queued(&d, t.as_str(), ts));
                match record.status {
                    WorkflowDispatchStatus::Queued => {},
                    WorkflowDispatchStatus::Running => {
                        add.push(WorkflowRuntimeEventChain::from_step_running(&d, t.as_str(), ts));
                    },
                    WorkflowDispatchStatus::Reported => {
                        let detail = match &record.detail {
                            Some(x) => x.clone(),
                            None => String::new(),
                        };
                        add.push(WorkflowRuntimeEventChain::from_step_reported(&d, t.as_str(), detail.as_str(), ts));
                    },
                    _ => {
                        let (code, summary) = failed_dispatch_detail(record);
                        add.push(WorkflowRuntimeEventChain::from_step_failed(&d, t.as_str(), code.as_str(), summary.as_str(), ts));
                    },
                }
            },
        },
    }
    assert(add@.map_values(|c: WorkflowRuntimeEventChain| chain_view(c)) =~= record_chains(dispatch_view(*record), dd, ts@));
    let ghost mid = out@;
    let ghost addv = add@;
    out.append(&mut add);
    assert(out@ == mid + addv);
    assert(out@.map_values(|c: WorkflowRuntimeEventChain| chain_view(c)) =~= before + addv.map_values(|c: WorkflowRuntimeEventChain| chain_view(c)));
}

proof fn lemma_records_chains_prefix(rs: Seq<DispatchView>, a: Seq<StepDispatch>, b: Seq<StepDispatch>, ts: Seq<char>, k: int)
    requires
        forall|i: int| 0 <= i < k ==> a[i] == b[i],
    ensures
        records_chains(rs, a, ts, k) == records_chains(rs, b, ts, k),
    decreases k,
{
    if k > 0 {
        lemma_records_chains_prefix(rs, a, b, ts, k - 1);
    }
}

/// The events a run's ledger must hold, for a repair of the ledger, and the error of the
/// first dispatch record whose step cannot be dispatched.
#[derive(Debug)]
pub struct RepairPlan {
    pub chains: Vec<WorkflowRuntimeEventChain>,
    pub error: Option<WorkflowError>,
}

/// Lists the events a run's ledger must hold, from its stored state: its creation, then for
/// each dispatch record its dispatch and what became of it. Stops at the first record whose
/// step cannot be dispatched, with that error; the events before it still stand.
pub fn repair_runtime_events(bundle: &WorkflowRuntimeBundle) -> (res: RepairPlan)
    requires
        bundle.registry.well_formed(),
    ensures
        repair_plan(*bundle, res.chains@.map_values(|c: WorkflowRuntimeEventChain| chain_view(c)), res.error),
{
    let ghost rs = dispatches_view(bundle.dispatches@);
    let ts = bundle.updated_at.as_str();
    let mut out: Vec<WorkflowRuntimeEventChain> = Vec::new();
    out.push(WorkflowRuntimeEventChain::from_run_created(&bundle.workflow, &bundle.run, bundle.run.started_at.as_str()));
    let ghost head = seq![run_created_chain(bundle.workflow@, bundle.run, bundle.run.started_at@)];
    assert(out@.map_values(|c: WorkflowRuntimeEventChain| chain_view(c)) =~= head);
    let ghost mut ds: Seq<StepDispatch> = Seq::empty();
    let mut i: usize = 0;
    while i < bundle.dispatches.len()
        invariant
            i <= bundle.dispatches.len(),
            bundle.registry.well_formed(),
            rs == dispatches_view(bundle.dispatches@),
            ts@ == bundle.updated_at@,
            head == seq![run_created_chain(bundle.workflow@, bundle.run, bundle.run.started_at@)],
            ds.len() == i,
            forall|j: int| 0 <= j < i ==> #[trigger] dispatch_for_step_result(*bundle, rs[j].step_id, rs[j].attempt, Ok(ds[j])),
            out@.map_values(|c: WorkflowRuntimeEventChain| chain_view(c)) == head + records_chains(rs, ds, ts@, i as int),
        decreases bundle.dispatches.len() - i,
    {
        let record = &bundle.dispatches[i];
        match dispatch_for_step(bundle, record.step_id.as_str(), record.attempt) {
            Err(e) => {
                assert(repair_prefix(*bundle, out@.map_values(|c: WorkflowRuntimeEventChain| chain_view(c)), Some(e), ds, i as int));
                assert(repair_plan(*bundle, out@.map_values(|c: WorkflowRuntimeEventChain| chain_view(c)), Some(e)));
                return RepairPlan { chains: out, error: Some(e) };
            },
            Ok(d) => {
                let ghost ds2 = ds.push(d);
                proof {
                    lemma_records_chains_prefix(rs, ds, ds2, ts@, i as int);
                }
                chains_for_record(record, d, ts, &mut out);
                proof {
                    ds = ds2;
                }
            },
        }
        i = i + 1;
    }
    assert(repair_prefix(*bundle, out@.map_values(|c: WorkflowRuntimeEventChain| chain_view(c)), None, ds, i as int));
    RepairPlan { chains: out, error: None }
}

/// Once a step's status is set, its first step with the id has that status.
proof fn lemma_status_set_settles(w: WorkflowIrView, id: Seq<char>, st: WorkflowStepStatus, c: bool, w1: WorkflowIrView)
    requires
        step_status_set(w, id, st, Ok((c, w1))),
    ensures
        !step_status_differs(w1, id, st),
        step_status_set(w1, id, st, Ok((false, w1))),
{
    let k = choose|k: int| first_with_id(w.steps, id, k) && Ok::<(bool, WorkflowIrView), WorkflowErrorView>((c, w1)) == Ok::<(bool, WorkflowIrView), WorkflowErrorView>(
        if w.steps[k].status == st {
            (false, w)
        } else {
            (true, with_steps(w, w.steps.update(k, with_status(w.steps[k], st))))
        },
    );
    assert(first_with_id(w1.steps, id, k));
    assert(w1.steps[k].status == st);
    assert forall|j: int| first_with_id(w1.steps, id, j) implies w1.steps[j].status == st by {
        assert(j == k);
    }
    assert(has_step_id(w1.steps, id));
}

/// Hearing the same status of a task twice changes the run's state once: the second time
/// nothing changes, not even the update time.
pub proof fn lemma_status_sync_settles(
    b0: WorkflowRuntimeBundle,
    b1: WorkflowRuntimeBundle,
    b2: WorkflowRuntimeBundle,
    record_index: int,
    task_id: Seq<char>,
    status: SchedulerTaskStatus,
    first: u64,
    second: u64,
    s1: StatusSync,
    s2: StatusSync,
)
    requires
        0 <= record_index < b0.dispatches@.len(),
        task_status_synced(b0, b1, record_index, task_id, status, first, Ok(s1)),
        task_status_synced(b1, b2, record_index, task_id, status, second, Ok(s2)),
    ensures
        !s2.changed,
        b2.updated_at@ == b1.updated_at@,
        dispatches_view(b2.dispatches@) == dispatches_view(b1.dispatches@),
        b2.workflow@ == b1.workflow@,
        b2.run.status == b1.run.status,
        strings_view(b2.run.active_step_ids@) == strings_view(b1.run.active_step_ids@),
{
    let r0 = dispatches_view(b0.dispatches@)[record_index];
    let r1 = dispatches_view(b1.dispatches@)[record_index];
    assert(r1 == with_state(r0, synced_dispatch_status(status), synced_detail(status)));
    let st = synced_step_status(status);
    lemma_status_set_settles(b0.workflow@, r0.step_id, st, step_status_differs(b0.workflow@, r0.step_id, st), b1.workflow@);
    let a0 = strings_view(b0.run.active_step_ids@);
    let a1 = strings_view(b1.run.active_step_ids@);
    if keeps_step_active(status) {
        if !a0.contains(r0.step_id) {
            lemma_push_contains(a0, r0.step_id, r0.step_id);
        }
        assert(a1.contains(r0.step_id));
        assert(active_after(a1, r0.step_id, true) == a1);
    } else {
        lemma_without_member(a0, r0.step_id);
        assert(!a1.contains(r0.step_id));
        lemma_without_member_absent(a1, r0.step_id);
    }
    assert(dispatches_view(b1.dispatches@).update(record_index, with_state(r1, synced_dispatch_status(status), synced_detail(status)))
        =~= dispatches_view(b1.dispatches@));
}

/// Taking out what is not there leaves the sequence as it is.
proof fn lemma_without_member_absent(vs: Seq<Seq<char>>, v: Seq<char>)
    requires
        !vs.contains(v),
    ensures
        without_member(vs, v) == vs,
    decreases vs.len(),
{
    if vs.len() > 0 {
        let d = vs.drop_last();
        assert(!d.contains(v)) by {
            if d.contains(v) {
                let j = choose|j: int| 0 <= j < d.len() && d[j] == v;
                assert(vs[j] == v);
            }
        }
        lemma_without_member_absent(d, v);
        assert(vs.last() != v) by {
            assert(vs[vs.len() - 1] == vs.last());
        }
        assert(d.push(vs.last()) =~= vs);
    }
}

/// The status of the first step with the id, where the workflow has one.
pub open spec fn step_has_status(w: WorkflowIrView, id: Seq<char>, st: WorkflowStepStatus) -> bool {
    exists|i: int| first_with_id(w.steps, id, i) && w.steps[i].status == st
}

proof fn lemma_status_after_set(w: WorkflowIrView, id: Seq<char>, st: WorkflowStepStatus, c: bool, w2: WorkflowIrView)
    requires
        step_status_set(w, id, st, Ok((c, w2))),
    ensures
        step_has_status(w2, id, st),
{
    let i = choose|i: int|
        first_with_id(w.steps, id, i) && Ok::<(bool, WorkflowIrView), WorkflowErrorView>((c, w2)) == Ok::<(bool, WorkflowIrView), WorkflowErrorView>(
            if w.steps[i].status == st {
                (false, w)
            } else {
                (true, with_steps(w, w.steps.update(i, with_status(w.steps[i], st))))
            },
        );
    assert(w2.steps[i].status == st);
    assert(first_with_id(w2.steps, id, i)) by {
        assert forall|j: int| 0 <= j < i implies #[trigger] w2.steps[j].step_id != id by {
            assert(w2.steps[j] == w.steps[j]);
        }
    }
}

/// A completed task whose findings all passed closes its step as verified: once it is
/// recorded and the step promoted, the promotion cannot fail, the step's dispatch record is
/// reported, the step is no longer active and is verified, the workflow completes and the
/// run succeeds.
pub proof fn lemma_verified_completion_succeeds(
    b1: WorkflowRuntimeBundle,
    b2: WorkflowRuntimeBundle,
    b3: WorkflowRuntimeBundle,
    out: CompletionOutcome,
    task_id: Seq<char>,
    context: WorkflowTaskContext,
    dispatch: StepDispatch,
    observation: CompletionObservation,
    ts: Seq<char>,
    working: ArtifactRef,
    semantic: ArtifactRef,
    now: u64,
    res: Result<Vec<WorkflowRuntimeEventChain>, WorkflowError>,
)
    requires
        completion_recorded(b1, b2, out, task_id, context, dispatch, observation, ts),
        dispatch.step_id@ == context.step_id@,
        out.verified,
        step_promoted(b2, b3, dispatch, task_id, working, semantic, now, res),
    ensures
        res is Ok,
        record_set(
            dispatches_view(b1.dispatches@),
            dispatches_view(b3.dispatches@),
            context.step_id@,
            context.attempt,
            WorkflowDispatchStatus::Reported,
            "research result recorded"@,
        ),
        !strings_view(b3.run.active_step_ids@).contains(context.step_id@),
        step_has_status(b3.workflow@, context.step_id@, WorkflowStepStatus::Verified),
        b3.workflow@.status == WorkflowStatus::Completed,
        b3.run.status == RunStatus::Succeeded,
{
    let sid = context.step_id@;
    lemma_without_member(strings_view(b1.run.active_step_ids@), sid);
    assert(b2.workflow == b1.workflow);
    if res is Err {
        assert(has_step_id(b2.workflow@.steps, sid));
        assert(false);
    } else {
        let w = choose|w: WorkflowIrView|
            step_status_set(b2.workflow@, sid, WorkflowStepStatus::Verified, Ok((step_status_differs(b2.workflow@, sid, WorkflowStepStatus::Verified), w)))
                && b3.workflow@ == (WorkflowIrView { status: WorkflowStatus::Completed, ..w });
        lemma_status_after_set(b2.workflow@, sid, WorkflowStepStatus::Verified, step_status_differs(b2.workflow@, sid, WorkflowStepStatus::Verified), w);
        assert(b3.workflow@.steps == w.steps);
    }
}

/// A completed task whose findings did not all pass closes its step as failed: once it is
/// recorded and the step failed, the failure cannot be refused, the step's dispatch record is
/// reported, the step is no longer active and has failed, the workflow is aborted and the run
/// fails.
pub proof fn lemma_unverified_completion_fails(
    b1: WorkflowRuntimeBundle,
    b2: WorkflowRuntimeBundle,
    b3: WorkflowRuntimeBundle,
    out: CompletionOutcome,
    task_id: Seq<char>,
    context: WorkflowTaskContext,
    dispatch: StepDispatch,
    observation: CompletionObservation,
    ts: Seq<char>,
    now: u64,
    res: Result<WorkflowRuntimeEventChain, WorkflowError>,
)
    requires
        completion_recorded(b1, b2, out, task_id, context, dispatch, observation, ts),
        !out.verified,
        step_failed(b2, b3, context.step_id@, out.failure_reason@, now, res),
    ensures
        res is Ok,
        record_set(
            dispatches_view(b1.dispatches@),
            dispatches_view(b3.dispatches@),
            context.step_id@,
            context.attempt,
            WorkflowDispatchStatus::Reported,
            "research result recorded"@,
        ),
        !strings_view(b3.run.active_step_ids@).contains(context.step_id@),
        step_has_status(b3.workflow@, context.step_id@, WorkflowStepStatus::Failed),
        b3.workflow@.status == WorkflowStatus::Aborted,
        b3.run.status == RunStatus::Failed,
{
    let sid = context.step_id@;
    lemma_without_member(strings_view(b1.run.active_step_ids@), sid);
    assert(b2.workflow == b1.workflow);
    if res is Err {
        assert(has_step_id(b2.workflow@.steps, sid));
        assert(false);
    } else {
        let w = choose|w: WorkflowIrView|
            step_status_set(b2.workflow@, sid, WorkflowStepStatus::Failed, Ok((step_status_differs(b2.workflow@, sid, WorkflowStepStatus::Failed), w)))
                && b3.workflow@ == (WorkflowIrView { status: WorkflowStatus::Aborted, ..w });
        lemma_status_after_set(b2.workflow@, sid, WorkflowStepStatus::Failed, step_status_differs(b2.workflow@, sid, WorkflowStepStatus::Failed), w);
        assert(b3.workflow@.steps == w.steps);
    }
}

/// Each item between a prefix and a suffix.
pub open spec fn framed(items: Seq<Seq<char>>, pre: Seq<char>, post: Seq<char>) -> Seq<Seq<char>> {
    items.map_values(|c: Seq<char>| pre + c + post)
}

fn framed_lines(items: &Vec<String>, pre: &str, post: &str) -> (res: Vec<String>)
    ensures
        strings_view(res@) == framed(strings_view(items@), pre@, post@),
{
    let mut out: Vec<String> = Vec::new();
    let mut i: usize = 0;
    while i < items.len()
        invariant
            i <= items.len(),
            strings_view(out@) == framed(strings_view(items@).take(i as int), pre@, post@),
        decreases items.len() - i,
    {
        let mut line: Vec<char> = Vec::new();
        push_str(&mut line, pre);
        push_str(&mut line, items[i].as_str());
        push_str(&mut line, post);
        let ghost before = strings_view(out@);
        out.push(string_of(&line));
        assert(strings_view(out@) =~= before.push(pre@ + items@[i as int]@ + post@));
        assert(strings_view(items@).take(i + 1) =~= strings_view(items@).take(i as int).push(items@[i as int]@));
        assert(strings_view(out@) =~= framed(strings_view(items@).take(i + 1), pre@, post@));
        i = i + 1;
    }
    assert(strings_view(items@).take(items.len() as int) =~= strings_view(items@));
    out
}

/// The Markdown note of a verified step's knowledge in semantic memory: the workflow, run and
/// task, the Working artifact and its hash, the confidence (as the caller wrote it) and the
/// kernel, then the claims, each claim with the sources behind it, and the acceptance criteria
/// checked off.
pub open spec fn semantic_memory_text(
    workflow_id: Seq<char>,
    run_id: Seq<char>,
    task_id: Seq<char>,
    working: ArtifactRef,
    confidence: Seq<char>,
    kernel: Seq<char>,
    claims: Seq<Seq<char>>,
    source_refs: Seq<Seq<char>>,
    criteria: Seq<Seq<char>>,
) -> Seq<char> {
    let sources = if source_refs.len() == 0 {
        "no source reference"@
    } else {
        crate::lean_kernel::join(source_refs, ", "@)
    };
    "# Verified Workflow Knowledge\n\n- Workflow ID: `"@ + workflow_id + "`\n- Run ID: `"@ + run_id + "`\n- Task ID: `"@ + task_id
        + "`\n- Working artifact: `"@ + working.uri@ + "`\n- Working artifact hash: `"@ + working.hash@ + "`\n- Confidence: "@
        + confidence + "\n- Verification kernel: `"@ + kernel + "`\n\n## Claims\n\n"@ + crate::lean_kernel::join(
        framed(claims, "- "@, ""@),
        "\n"@,
    ) + "\n\n## Evidence Chain\n\n"@ + crate::lean_kernel::join(framed(claims, "- "@, " -> "@ + sources), "\n"@)
        + "\n\n## Acceptance Criteria\n\n"@ + crate::lean_kernel::join(framed(criteria, "- [x] "@, ""@), "\n"@) + "\n"@
}

/// Renders the semantic-memory note of a verified step; `confidence` is the scientist's
/// confidence as written with three decimals.
pub fn render_semantic_workflow_memory(
    workflow_id: &str,
    run_id: &str,
    task_id: &str,
    working_artifact: &ArtifactRef,
    confidence: &str,
    kernel_name: &str,
    claims: &Vec<String>,
    source_refs: &Vec<String>,
    acceptance_criteria: &Vec<String>,
) -> (res: String)
    ensures
        res@ == semantic_memory_text(
            workflow_id@,
            run_id@,
            task_id@,
            *working_artifact,
            confidence@,
            kernel_name@,
            strings_view(claims@),
            strings_view(source_refs@),
            strings_view(acceptance_criteria@),
        ),
{
    let mut tail: Vec<char> = Vec::new();
    push_str(&mut tail, " -> ");
    if source_refs.len() == 0 {
        push_str(&mut tail, "no source reference");
    } else {
        let j = crate::lean_kernel::join_ids(source_refs, ", ");
        append_chars(&mut tail, &j);
    }
    let tail_s = string_of(&tail);
    let claim_lines = framed_lines(claims, "- ", "");
    let evidence_lines = framed_lines(claims, "- ", tail_s.as_str());
    let criteria_lines = framed_lines(acceptance_criteria, "- [x] ", "");
    let c1 = crate::lean_kernel::join_ids(&claim_lines, "\n");
    let c2 = crate::lean_kernel::join_ids(&evidence_lines, "\n");
    let c3 = crate::lean_kernel::join_ids(&criteria_lines, "\n");
    let mut out: Vec<char> = Vec::new();
    push_str(&mut out, "# Verified Workflow Knowledge\n\n- Workflow ID: `");
    push_str(&mut out, workflow_id);
    push_str(&mut out, "`\n- Run ID: `");
    push_str(&mut out, run_id);
    push_str(&mut out, "`\n- Task ID: `");
    push_str(&mut out, task_id);
    push_str(&mut out, "`\n- Working artifact: `");
    push_str(&mut out, working_artifact.uri.as_str());
    push_str(&mut out, "`\n- Working artifact hash: `");
    push_str(&mut out, working_artifact.hash.as_str());
    push_str(&mut out, "`\n- Confidence: ");
    push_str(&mut out, confidence);
    push_str(&mut out, "\n- Verification kernel: `");
    push_str(&mut out, kernel_name);
    push_str(&mut out, "`\n\n## Claims\n\n");
    append_chars(&mut out, &c1);
    push_str(&mut out, "\n\n## Evidence Chain\n\n");
    append_chars(&mut out, &c2);
    push_str(&mut out, "\n\n## Acceptance Criteria\n\n");
    append_chars(&mut out, &c3);
    push_str(&mut out, "\n");
    proof {
        let sources = if source_refs@.len() == 0 {
            "no source reference"@
        } else {
            crate::lean_kernel::join(strings_view(source_refs@), ", "@)
        };
        assert(tail_s@ == " -> "@ + sources);
        assert(framed(strings_view(claims@), "- "@, tail_s@) == framed(strings_view(claims@), "- "@, " -> "@ + sources));
    }
    string_of(&out)
}

} // verus!

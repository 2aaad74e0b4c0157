//! The events a workflow run records in its ledger: what happened to the run and its steps,
//! the findings of the verifiers, and when a replan was asked for.

use vstd::prelude::*;
use crate::completion::{decimal, decimal_text};
use crate::dispatch::{sandbox_view, SandboxPolicy, SandboxView, StepDispatch};
use crate::text::{copy_strings, owned, push_str, string_of, strings_view, append_chars, trim, trim_chars, chars_of};
use crate::replan::{digest_entry_view, DigestEntryView, OrchestratorReplanRequest, StepReport, StepReportDigestEntry};
use crate::completion::{finding_view, findings_view, FindingView};
use crate::workflow::{
    copy_usizes, ArtifactContract, ArtifactRef, RunStatus, StepReportStatus, VerificationLevel,
    VerificationOutcome, WorkflowIr, WorkflowIrView, WorkflowRunState, WorkflowStatus, WorkflowStepKind,
    WorkflowStepMode, WorkflowPatch, report_severity, step_report_event_severity, verification_event,
    verification_event_name, verification_severity, verification_event_severity, patch_decision_verb,
};

verus! {

/// The value of an event attribute.
#[derive(Debug, Clone)]
pub enum EventValue {
    Null,
    Text(String),
    Number(usize),
    /// The bit pattern of a 32-bit float.
    Real(u32),
    Flag(bool),
    Texts(Vec<String>),
    Numbers(Vec<usize>),
    Json(serde_json::Value),
    Contract(ArtifactContract),
    Sandbox(SandboxPolicy),
}

pub struct ContractView {
    pub expected_output: Seq<char>,
    pub acceptance_criteria: Seq<Seq<char>>,
    pub success_clauses: Seq<usize>,
}

pub open spec fn contract_view(c: ArtifactContract) -> ContractView {
    ContractView {
        expected_output: c.expected_output@,
        acceptance_criteria: strings_view(c.acceptance_criteria@),
        success_clauses: c.success_clauses@,
    }
}

pub enum EventValueView {
    Null,
    Text(Seq<char>),
    Number(usize),
    Real(u32),
    Flag(bool),
    Texts(Seq<Seq<char>>),
    Numbers(Seq<usize>),
    Json(serde_json::Value),
    Contract(ContractView),
    Sandbox(SandboxView),
}

pub open spec fn event_value_view(v: EventValue) -> EventValueView {
    match v {
        EventValue::Null => EventValueView::Null,
        EventValue::Text(s) => EventValueView::Text(s@),
        EventValue::Number(n) => EventValueView::Number(n),
        EventValue::Real(b) => EventValueView::Real(b),
        EventValue::Flag(b) => EventValueView::Flag(b),
        EventValue::Texts(v) => EventValueView::Texts(strings_view(v@)),
        EventValue::Numbers(v) => EventValueView::Numbers(v@),
        EventValue::Json(j) => EventValueView::Json(j),
        EventValue::Contract(c) => EventValueView::Contract(contract_view(c)),
        EventValue::Sandbox(p) => EventValueView::Sandbox(sandbox_view(p)),
    }
}

pub open spec fn attrs_view(a: Seq<(String, EventValue)>) -> Seq<(Seq<char>, EventValueView)> {
    a.map_values(|p: (String, EventValue)| (p.0@, event_value_view(p.1)))
}

/// One record of the run ledger.
#[derive(Debug, Clone)]
pub struct HarnessEvent {
    pub timestamp: String,
    pub severity_text: String,
    pub event_name: String,
    pub body: String,
    pub attributes: Vec<(String, EventValue)>,
}

pub struct EventView {
    pub timestamp: Seq<char>,
    pub severity: Seq<char>,
    pub name: Seq<char>,
    pub body: Seq<char>,
    pub attributes: Seq<(Seq<char>, EventValueView)>,
}

pub open spec fn event_view(e: HarnessEvent) -> EventView {
    EventView {
        timestamp: e.timestamp@,
        severity: e.severity_text@,
        name: e.event_name@,
        body: e.body@,
        attributes: attrs_view(e.attributes@),
    }
}

pub open spec fn events_view(es: Seq<HarnessEvent>) -> Seq<EventView> {
    es.map_values(|e: HarnessEvent| event_view(e))
}

impl HarnessEvent {
    pub fn new(timestamp: &str, severity_text: &str, event_name: &str, body: &str, attributes: Vec<(String, EventValue)>) -> (res: HarnessEvent)
        ensures
            event_view(res) == (EventView {
                timestamp: timestamp@,
                severity: severity_text@,
                name: event_name@,
                body: body@,
                attributes: attrs_view(attributes@),
            }),
    {
        HarnessEvent {
            timestamp: owned(timestamp),
            severity_text: owned(severity_text),
            event_name: owned(event_name),
            body: owned(body),
            attributes,
        }
    }
}

/// The events one thing that happened to a run adds to its ledger.
#[derive(Debug, Clone)]
pub struct WorkflowRuntimeEventChain {
    pub workflow_id: String,
    pub run_id: String,
    pub events: Vec<HarnessEvent>,
    pub replan_requested: bool,
}

pub struct ChainView {
    pub workflow_id: Seq<char>,
    pub run_id: Seq<char>,
    pub events: Seq<EventView>,
    pub replan_requested: bool,
}

pub open spec fn chain_view(c: WorkflowRuntimeEventChain) -> ChainView {
    ChainView {
        workflow_id: c.workflow_id@,
        run_id: c.run_id@,
        events: events_view(c.events@),
        replan_requested: c.replan_requested,
    }
}

// ---------------------------------------------------------------------------------------
// Names of states, as they are written out.
// ---------------------------------------------------------------------------------------

pub open spec fn workflow_status_name(s: WorkflowStatus) -> Seq<char> {
    match s {
        WorkflowStatus::Draft => "draft"@,
        WorkflowStatus::Running => "running"@,
        WorkflowStatus::Paused => "paused"@,
        WorkflowStatus::Completed => "completed"@,
        WorkflowStatus::Aborted => "aborted"@,
    }
}

fn workflow_status_text(s: WorkflowStatus) -> (res: String)
    ensures
        res@ == workflow_status_name(s),
{
    match s {
        WorkflowStatus::Draft => owned("draft"),
        WorkflowStatus::Running => owned("running"),
        WorkflowStatus::Paused => owned("paused"),
        WorkflowStatus::Completed => owned("completed"),
        WorkflowStatus::Aborted => owned("aborted"),
    }
}

pub open spec fn run_status_name(s: RunStatus) -> Seq<char> {
    match s {
        RunStatus::Queued => "queued"@,
        RunStatus::Running => "running"@,
        RunStatus::Paused => "paused"@,
        RunStatus::Failed => "failed"@,
        RunStatus::Succeeded => "succeeded"@,
    }
}

fn run_status_text(s: RunStatus) -> (res: String)
    ensures
        res@ == run_status_name(s),
{
    match s {
        RunStatus::Queued => owned("queued"),
        RunStatus::Running => owned("running"),
        RunStatus::Paused => owned("paused"),
        RunStatus::Failed => owned("failed"),
        RunStatus::Succeeded => owned("succeeded"),
    }
}

pub open spec fn report_status_name(s: StepReportStatus) -> Seq<char> {
    match s {
        StepReportStatus::Completed => "completed"@,
        StepReportStatus::Partial => "partial"@,
        StepReportStatus::Failed => "failed"@,
        StepReportStatus::Blocked => "blocked"@,
    }
}

fn report_status_text(s: StepReportStatus) -> (res: String)
    ensures
        res@ == report_status_name(s),
{
    match s {
        StepReportStatus::Completed => owned("completed"),
        StepReportStatus::Partial => owned("partial"),
        StepReportStatus::Failed => owned("failed"),
        StepReportStatus::Blocked => owned("blocked"),
    }
}

pub open spec fn level_name(l: VerificationLevel) -> Seq<char> {
    match l {
        VerificationLevel::Step => "step"@,
        VerificationLevel::Integration => "integration"@,
        VerificationLevel::Goal => "goal"@,
    }
}

fn level_text(l: VerificationLevel) -> (res: String)
    ensures
        res@ == level_name(l),
{
    match l {
        VerificationLevel::Step => owned("step"),
        VerificationLevel::Integration => owned("integration"),
        VerificationLevel::Goal => owned("goal"),
    }
}

pub open spec fn outcome_name(o: VerificationOutcome) -> Seq<char> {
    match o {
        VerificationOutcome::Pass => "pass"@,
        VerificationOutcome::Fail => "fail"@,
        VerificationOutcome::CannotVerify => "cannot_verify"@,
    }
}

fn outcome_text(o: VerificationOutcome) -> (res: String)
    ensures
        res@ == outcome_name(o),
{
    match o {
        VerificationOutcome::Pass => owned("pass"),
        VerificationOutcome::Fail => owned("fail"),
        VerificationOutcome::CannotVerify => owned("cannot_verify"),
    }
}

pub open spec fn kind_name(k: WorkflowStepKind) -> Seq<char> {
    match k {
        WorkflowStepKind::Research => "research"@,
        WorkflowStepKind::Implement => "implement"@,
        WorkflowStepKind::Test => "test"@,
        WorkflowStepKind::Review => "review"@,
        WorkflowStepKind::Verify => "verify"@,
        WorkflowStepKind::Merge => "merge"@,
    }
}

fn kind_text(k: WorkflowStepKind) -> (res: String)
    ensures
        res@ == kind_name(k),
{
    match k {
        WorkflowStepKind::Research => owned("research"),
        WorkflowStepKind::Implement => owned("implement"),
        WorkflowStepKind::Test => owned("test"),
        WorkflowStepKind::Review => owned("review"),
        WorkflowStepKind::Verify => owned("verify"),
        WorkflowStepKind::Merge => owned("merge"),
    }
}

pub open spec fn mode_name(m: WorkflowStepMode) -> Seq<char> {
    match m {
        WorkflowStepMode::ReadOnly => "read_only"@,
        WorkflowStepMode::WritePatch => "write_patch"@,
        WorkflowStepMode::TestOnly => "test_only"@,
        WorkflowStepMode::ReviewOnly => "review_only"@,
    }
}

fn mode_text(m: WorkflowStepMode) -> (res: String)
    ensures
        res@ == mode_name(m),
{
    match m {
        WorkflowStepMode::ReadOnly => owned("read_only"),
        WorkflowStepMode::WritePatch => owned("write_patch"),
        WorkflowStepMode::TestOnly => owned("test_only"),
        WorkflowStepMode::ReviewOnly => owned("review_only"),
    }
}

// ---------------------------------------------------------------------------------------
// Building attributes.
// ---------------------------------------------------------------------------------------

/// Appends an attribute.
fn put_attr(a: &mut Vec<(String, EventValue)>, key: &str, v: EventValue)
    ensures
        attrs_view(final(a)@) == attrs_view(old(a)@).push((key@, event_value_view(v))),
{
    let ghost vv = event_value_view(v);
    a.push((owned(key), v));
    assert(attrs_view(a@) =~= attrs_view(old(a)@).push((key@, vv)));
}

fn text_value(s: &String) -> (res: EventValue)
    ensures
        event_value_view(res) == EventValueView::Text(s@),
{
    EventValue::Text(s.clone())
}

fn texts_value(v: &Vec<String>) -> (res: EventValue)
    ensures
        event_value_view(res) == EventValueView::Texts(strings_view(v@)),
{
    EventValue::Texts(copy_strings(v))
}

fn copy_contract(c: &ArtifactContract) -> (res: ArtifactContract)
    ensures
        contract_view(res) == contract_view(*c),
{
    ArtifactContract {
        expected_output: c.expected_output.clone(),
        acceptance_criteria: copy_strings(&c.acceptance_criteria),
        success_clauses: copy_usizes(&c.success_clauses),
    }
}

pub open spec fn tv(s: Seq<char>) -> EventValueView {
    EventValueView::Text(s)
}

/// The attributes of a run: its ids, versions, statuses, active steps and digest version.
pub open spec fn run_attrs(w: WorkflowIrView, run: WorkflowRunState) -> Seq<(Seq<char>, EventValueView)> {
    seq![
        ("workflow_id"@, tv(w.workflow_id)),
        ("run_id"@, tv(run.run_id@)),
        ("workflow_version"@, EventValueView::Number(w.version)),
        ("workflow_status"@, tv(workflow_status_name(w.status))),
        ("run_status"@, tv(run_status_name(run.status))),
        ("active_step_ids"@, EventValueView::Texts(strings_view(run.active_step_ids@))),
        ("context_digest_version"@, EventValueView::Number(run.context_digest_version)),
    ]
}

fn make_run_attrs(workflow: &WorkflowIr, run: &WorkflowRunState) -> (res: Vec<(String, EventValue)>)
    ensures
        attrs_view(res@) == run_attrs(workflow@, *run),
{
    let mut a: Vec<(String, EventValue)> = Vec::new();
    put_attr(&mut a, "workflow_id", text_value(&workflow.workflow_id));
    put_attr(&mut a, "run_id", text_value(&run.run_id));
    put_attr(&mut a, "workflow_version", EventValue::Number(workflow.version));
    put_attr(&mut a, "workflow_status", EventValue::Text(workflow_status_text(workflow.status)));
    put_attr(&mut a, "run_status", EventValue::Text(run_status_text(run.status)));
    put_attr(&mut a, "active_step_ids", texts_value(&run.active_step_ids));
    put_attr(&mut a, "context_digest_version", EventValue::Number(run.context_digest_version));
    assert(attrs_view(a@) =~= run_attrs(workflow@, *run));
    a
}

/// The attributes of the end of a run: its ids, versions, statuses and end time.
pub open spec fn run_end_attrs(w: WorkflowIrView, run: WorkflowRunState) -> Seq<(Seq<char>, EventValueView)> {
    seq![
        ("workflow_id"@, tv(w.workflow_id)),
        ("run_id"@, tv(run.run_id@)),
        ("workflow_version"@, EventValueView::Number(w.version)),
        ("workflow_status"@, tv(workflow_status_name(w.status))),
        ("run_status"@, tv(run_status_name(run.status))),
        ("ended_at"@, match run.ended_at {
            Some(t) => tv(t@),
            None => EventValueView::Null,
        }),
    ]
}

fn make_run_end_attrs(workflow: &WorkflowIr, run: &WorkflowRunState) -> (res: Vec<(String, EventValue)>)
    ensures
        attrs_view(res@) == run_end_attrs(workflow@, *run),
{
    let mut a: Vec<(String, EventValue)> = Vec::new();
    put_attr(&mut a, "workflow_id", text_value(&workflow.workflow_id));
    put_attr(&mut a, "run_id", text_value(&run.run_id));
    put_attr(&mut a, "workflow_version", EventValue::Number(workflow.version));
    put_attr(&mut a, "workflow_status", EventValue::Text(workflow_status_text(workflow.status)));
    put_attr(&mut a, "run_status", EventValue::Text(run_status_text(run.status)));
    let ended = match &run.ended_at {
        Some(t) => text_value(t),
        None => EventValue::Null,
    };
    put_attr(&mut a, "ended_at", ended);
    assert(attrs_view(a@) =~= run_end_attrs(workflow@, *run));
    a
}

/// The attributes of a step event: the dispatch's ids, agent, capability, mode, attempt,
/// inputs, contract and sandbox; then the task where there is one, and the reason code and
/// summary of an error where there is one.
pub open spec fn step_attrs(d: StepDispatch, task_id: Option<Seq<char>>, error: Option<(Seq<char>, Seq<char>)>) -> Seq<
    (Seq<char>, EventValueView),
> {
    let base = seq![
        ("workflow_id"@, tv(d.workflow_id@)),
        ("run_id"@, tv(d.run_id@)),
        ("step_id"@, tv(d.step_id@)),
        ("agent_type"@, tv(d.agent_type@)),
        ("capability"@, tv(kind_name(d.capability))),
        ("mode"@, tv(mode_name(d.mode))),
        ("attempt"@, EventValueView::Number(d.attempt)),
        ("inputs"@, EventValueView::Json(d.inputs)),
        ("artifact_contract"@, EventValueView::Contract(contract_view(d.artifact_contract))),
        ("sandbox_summary"@, EventValueView::Sandbox(sandbox_view(d.sandbox_policy))),
    ];
    let with_task = match task_id {
        Some(t) => base.push(("task_id"@, tv(t))),
        None => base,
    };
    match error {
        Some((code, summary)) => with_task.push(("reason_code"@, tv(code))).push(("summary"@, tv(summary))),
        None => with_task,
    }
}

fn step_event_attributes(d: &StepDispatch, task_id: Option<&str>, error: Option<(&str, &str)>) -> (res: Vec<(String, EventValue)>)
    ensures
        attrs_view(res@) == step_attrs(
            *d,
            match task_id {
                Some(t) => Some(t@),
                None => None,
            },
            match error {
                Some((c, s)) => Some((c@, s@)),
                None => None,
            },
        ),
{
    let mut a: Vec<(String, EventValue)> = Vec::new();
    put_attr(&mut a, "workflow_id", text_value(&d.workflow_id));
    put_attr(&mut a, "run_id", text_value(&d.run_id));
    put_attr(&mut a, "step_id", text_value(&d.step_id));
    put_attr(&mut a, "agent_type", text_value(&d.agent_type));
    put_attr(&mut a, "capability", EventValue::Text(kind_text(d.capability)));
    put_attr(&mut a, "mode", EventValue::Text(mode_text(d.mode)));
    put_attr(&mut a, "attempt", EventValue::Number(d.attempt));
    put_attr(&mut a, "inputs", EventValue::Json(d.inputs.clone()));
    put_attr(&mut a, "artifact_contract", EventValue::Contract(copy_contract(&d.artifact_contract)));
    put_attr(&mut a, "sandbox_summary", EventValue::Sandbox(d.sandbox_policy.copied()));
    match task_id {
        Some(t) => put_attr(&mut a, "task_id", EventValue::Text(owned(t))),
        None => {},
    }
    match error {
        Some((code, summary)) => {
            put_attr(&mut a, "reason_code", EventValue::Text(owned(code)));
            put_attr(&mut a, "summary", EventValue::Text(owned(summary)));
        },
        None => {},
    }
    a
}

/// A chain of one event.
pub open spec fn single(workflow_id: Seq<char>, run_id: Seq<char>, e: EventView) -> ChainView {
    ChainView { workflow_id, run_id, events: seq![e], replan_requested: false }
}

pub open spec fn ev(ts: Seq<char>, severity: Seq<char>, name: Seq<char>, body: Seq<char>, attrs: Seq<(Seq<char>, EventValueView)>) -> EventView {
    EventView { timestamp: ts, severity, name, body, attributes: attrs }
}

fn single_chain(workflow_id: String, run_id: String, e: HarnessEvent) -> (res: WorkflowRuntimeEventChain)
    ensures
        chain_view(res) == single(workflow_id@, run_id@, event_view(e)),
{
    let mut events: Vec<HarnessEvent> = Vec::new();
    let ghost evw = event_view(e);
    events.push(e);
    assert(events_view(events@) =~= seq![evw]);
    WorkflowRuntimeEventChain { workflow_id, run_id, events, replan_requested: false }
}

fn chars_to_string(v: &Vec<char>) -> (res: String)
    ensures
        res@ == v@,
{
    string_of(v)
}

// ---------------------------------------------------------------------------------------
// Run events.
// ---------------------------------------------------------------------------------------

pub open spec fn run_created_chain(w: WorkflowIrView, run: WorkflowRunState, ts: Seq<char>) -> ChainView {
    single(
        w.workflow_id,
        run.run_id@,
        ev(
            ts,
            "INFO"@,
            "workflow.run.created"@,
            "Workflow run "@ + run.run_id@ + " created for "@ + w.workflow_id + "@v"@ + decimal(w.version as nat) + "."@,
            run_attrs(w, run),
        ),
    )
}

pub open spec fn run_resumed_chain(w: WorkflowIrView, run: WorkflowRunState, ts: Seq<char>) -> ChainView {
    single(
        w.workflow_id,
        run.run_id@,
        ev(
            ts,
            "INFO"@,
            "workflow.run.resumed"@,
            "Workflow run "@ + run.run_id@ + " resumed for "@ + w.workflow_id + "@v"@ + decimal(w.version as nat) + "."@,
            run_attrs(w, run),
        ),
    )
}

fn run_body(verb: &str, workflow: &WorkflowIr, run: &WorkflowRunState) -> (res: String)
    ensures
        res@ == "Workflow run "@ + run.run_id@ + verb@ + workflow@.workflow_id + "@v"@ + decimal(workflow.version as nat) + "."@,
{
    let mut b: Vec<char> = Vec::new();
    push_str(&mut b, "Workflow run ");
    push_str(&mut b, run.run_id.as_str());
    push_str(&mut b, verb);
    push_str(&mut b, workflow.workflow_id.as_str());
    push_str(&mut b, "@v");
    let d = decimal_text(workflow.version);
    append_chars(&mut b, &d);
    push_str(&mut b, ".");
    string_of(&b)
}

impl WorkflowRuntimeEventChain {
    pub fn from_run_created(workflow: &WorkflowIr, run: &WorkflowRunState, timestamp: &str) -> (res: WorkflowRuntimeEventChain)
        ensures
            chain_view(res) == run_created_chain(workflow@, *run, timestamp@),
    {
        let body = run_body(" created for ", workflow, run);
        let e = HarnessEvent::new(timestamp, "INFO", "workflow.run.created", body.as_str(), make_run_attrs(workflow, run));
        single_chain(workflow.workflow_id.clone(), run.run_id.clone(), e)
    }

    pub fn from_run_resumed(workflow: &WorkflowIr, run: &WorkflowRunState, timestamp: &str) -> (res: WorkflowRuntimeEventChain)
        ensures
            chain_view(res) == run_resumed_chain(workflow@, *run, timestamp@),
    {
        let body = run_body(" resumed for ", workflow, run);
        let e = HarnessEvent::new(timestamp, "INFO", "workflow.run.resumed", body.as_str(), make_run_attrs(workflow, run));
        single_chain(workflow.workflow_id.clone(), run.run_id.clone(), e)
    }
}

// ---------------------------------------------------------------------------------------
// Step events.
// ---------------------------------------------------------------------------------------

pub open spec fn dispatched_event(d: StepDispatch, ts: Seq<char>) -> EventView {
    ev(
        ts,
        "INFO"@,
        "workflow.step.dispatched"@,
        "Workflow step "@ + d.step_id@ + " dispatched to "@ + d.agent_type@ + "."@,
        step_attrs(d, None, None),
    )
}

pub open spec fn dispatches_chain(ds: Seq<StepDispatch>, ts: Seq<char>) -> ChainView {
    ChainView {
        workflow_id: if ds.len() > 0 {
            ds[0].workflow_id@
        } else {
            Seq::empty()
        },
        run_id: if ds.len() > 0 {
            ds[0].run_id@
        } else {
            Seq::empty()
        },
        events: ds.map_values(|d: StepDispatch| dispatched_event(d, ts)),
        replan_requested: false,
    }
}

pub open spec fn step_task_chain(d: StepDispatch, name: Seq<char>, body: Seq<char>, attrs: Seq<(Seq<char>, EventValueView)>, ts: Seq<char>) -> ChainView {
    single(d.workflow_id@, d.run_id@, ev(ts, "INFO"@, name, body, attrs))
}

pub open spec fn step_queued_chain(d: StepDispatch, task_id: Seq<char>, ts: Seq<char>) -> ChainView {
    step_task_chain(
        d,
        "workflow.step.queued"@,
        "Workflow step "@ + d.step_id@ + " queued as task "@ + task_id + "."@,
        step_attrs(d, Some(task_id), None),
        ts,
    )
}

pub open spec fn step_running_chain(d: StepDispatch, task_id: Seq<char>, ts: Seq<char>) -> ChainView {
    step_task_chain(
        d,
        "workflow.step.running"@,
        "Workflow step "@ + d.step_id@ + " is running as task "@ + task_id + "."@,
        step_attrs(d, Some(task_id), None),
        ts,
    )
}

pub open spec fn step_reported_chain(d: StepDispatch, task_id: Seq<char>, summary: Seq<char>, ts: Seq<char>) -> ChainView {
    step_task_chain(
        d,
        "workflow.step.reported"@,
        "Workflow step "@ + d.step_id@ + " reported from task "@ + task_id + "."@,
        step_attrs(d, Some(task_id), None).push(("summary"@, tv(summary))),
        ts,
    )
}

pub open spec fn artifact_attrs(a: ArtifactRef) -> Seq<(Seq<char>, EventValueView)> {
    seq![("artifact_id"@, tv(a.artifact_id@)), ("artifact_uri"@, tv(a.uri@)), ("artifact_hash"@, tv(a.hash@))]
}

pub open spec fn step_verified_chain(d: StepDispatch, task_id: Seq<char>, a: ArtifactRef, ts: Seq<char>) -> ChainView {
    step_task_chain(
        d,
        "workflow.step.verified"@,
        "Workflow step "@ + d.step_id@ + " passed verification."@,
        seq![
            ("workflow_id"@, tv(d.workflow_id@)),
            ("run_id"@, tv(d.run_id@)),
            ("step_id"@, tv(d.step_id@)),
            ("attempt"@, EventValueView::Number(d.attempt)),
            ("task_id"@, tv(task_id)),
        ] + artifact_attrs(a),
        ts,
    )
}

pub open spec fn semantic_promoted_chain(workflow_id: Seq<char>, run_id: Seq<char>, step_id: Seq<char>, a: ArtifactRef, ts: Seq<char>) -> ChainView {
    single(
        workflow_id,
        run_id,
        ev(
            ts,
            "INFO"@,
            "workflow.semantic.promoted"@,
            "Verified workflow knowledge was promoted from step "@ + step_id + "."@,
            seq![("workflow_id"@, tv(workflow_id)), ("run_id"@, tv(run_id)), ("step_id"@, tv(step_id))] + artifact_attrs(a),
        ),
    )
}

pub open spec fn step_failed_chain(d: StepDispatch, task_id: Seq<char>, reason_code: Seq<char>, summary: Seq<char>, ts: Seq<char>) -> ChainView {
    single(
        d.workflow_id@,
        d.run_id@,
        ev(ts, "ERROR"@, "workflow.step.failed"@, summary, step_attrs(d, Some(task_id), Some((reason_code, summary)))),
    )
}

pub open spec fn step_unsupported_chain(d: StepDispatch, reason_code: Seq<char>, summary: Seq<char>, ts: Seq<char>) -> ChainView {
    single(
        d.workflow_id@,
        d.run_id@,
        ev(ts, "WARN"@, "workflow.step.unsupported"@, summary, step_attrs(d, None, Some((reason_code, summary)))),
    )
}

pub open spec fn run_succeeded_chain(w: WorkflowIrView, run: WorkflowRunState, ts: Seq<char>) -> ChainView {
    single(
        w.workflow_id,
        run.run_id@,
        ev(ts, "INFO"@, "workflow.run.succeeded"@, "Workflow run "@ + run.run_id@ + " succeeded."@, run_end_attrs(w, run)),
    )
}

pub open spec fn run_failed_chain(w: WorkflowIrView, run: WorkflowRunState, reason_code: Seq<char>, summary: Seq<char>, ts: Seq<char>) -> ChainView {
    single(
        w.workflow_id,
        run.run_id@,
        ev(ts, "ERROR"@, "workflow.run.failed"@, summary, run_end_attrs(w, run).push(("reason_code"@, tv(reason_code)))),
    )
}

pub open spec fn patch_attrs(p: WorkflowPatch) -> Seq<(Seq<char>, EventValueView)> {
    seq![
        ("failed_steps"@, EventValueView::Texts(strings_view(p.basis.failed_steps@))),
        ("failed_goal_clauses"@, EventValueView::Numbers(p.basis.failed_goal_clauses@)),
        ("op_count"@, EventValueView::Number(p.ops@.len() as usize)),
    ]
}

pub open spec fn patch_decision_chain(
    workflow_id: Seq<char>,
    run_id: Seq<char>,
    p: WorkflowPatch,
    accepted: bool,
    ts: Seq<char>,
    reason: Seq<char>,
) -> ChainView {
    let verb = if accepted {
        "accepted"@
    } else {
        "rejected"@
    };
    single(
        workflow_id,
        run_id,
        ev(
            ts,
            if accepted {
                "INFO"@
            } else {
                "WARN"@
            },
            if accepted {
                "workflow.patch.accepted"@
            } else {
                "workflow.patch.rejected"@
            },
            if trim(reason).len() == 0 {
                "Workflow patch "@ + p.patch_id@ + " "@ + verb + "."@
            } else {
                "Workflow patch "@ + p.patch_id@ + " "@ + verb + ": "@ + reason
            },
            seq![
                ("workflow_id"@, tv(workflow_id)),
                ("run_id"@, tv(run_id)),
                ("patch_id"@, tv(p.patch_id@)),
                ("from_version"@, EventValueView::Number(p.from_version)),
                ("to_version"@, EventValueView::Number(p.to_version)),
                ("accepted"@, EventValueView::Flag(accepted)),
                ("reason"@, tv(reason)),
            ] + patch_attrs(p),
        ),
    )
}

pub open spec fn patch_review_chain(run_id: Seq<char>, p: WorkflowPatch, proposal_id: Seq<char>, ts: Seq<char>) -> ChainView {
    single(
        p.workflow_id@,
        run_id,
        ev(
            ts,
            "WARN"@,
            "workflow.patch.review_requested"@,
            "Workflow patch "@ + p.patch_id@ + " was routed to Bridge for human review."@,
            seq![
                ("workflow_id"@, tv(p.workflow_id@)),
                ("run_id"@, tv(run_id)),
                ("patch_id"@, tv(p.patch_id@)),
                ("proposal_id"@, tv(proposal_id)),
                ("from_version"@, EventValueView::Number(p.from_version)),
                ("to_version"@, EventValueView::Number(p.to_version)),
            ] + patch_attrs(p),
        ),
    )
}

fn text3(a: &str, b: &str, c: &str) -> (res: String)
    ensures
        res@ == a@ + b@ + c@,
{
    let mut v: Vec<char> = Vec::new();
    push_str(&mut v, a);
    push_str(&mut v, b);
    push_str(&mut v, c);
    string_of(&v)
}

fn text5(a: &str, b: &str, c: &str, d: &str, e: &str) -> (res: String)
    ensures
        res@ == a@ + b@ + c@ + d@ + e@,
{
    let mut v: Vec<char> = Vec::new();
    push_str(&mut v, a);
    push_str(&mut v, b);
    push_str(&mut v, c);
    push_str(&mut v, d);
    push_str(&mut v, e);
    string_of(&v)
}

fn put_artifact_attrs(a: &mut Vec<(String, EventValue)>, art: &ArtifactRef)
    ensures
        attrs_view(final(a)@) == attrs_view(old(a)@) + artifact_attrs(*art),
{
    put_attr(a, "artifact_id", text_value(&art.artifact_id));
    put_attr(a, "artifact_uri", text_value(&art.uri));
    put_attr(a, "artifact_hash", text_value(&art.hash));
    assert(attrs_view(a@) =~= attrs_view(old(a)@) + artifact_attrs(*art));
}

fn put_patch_attrs(a: &mut Vec<(String, EventValue)>, p: &WorkflowPatch)
    ensures
        attrs_view(final(a)@) == attrs_view(old(a)@) + patch_attrs(*p),
{
    put_attr(a, "failed_steps", texts_value(&p.basis.failed_steps));
    put_attr(a, "failed_goal_clauses", EventValue::Numbers(copy_usizes(&p.basis.failed_goal_clauses)));
    put_attr(a, "op_count", EventValue::Number(p.ops.len()));
    assert(attrs_view(a@) =~= attrs_view(old(a)@) + patch_attrs(*p));
}

impl WorkflowRuntimeEventChain {
    pub fn from_step_dispatches(dispatches: &Vec<StepDispatch>, timestamp: &str) -> (res: WorkflowRuntimeEventChain)
        ensures
            chain_view(res) == dispatches_chain(dispatches@, timestamp@),
    {
        let workflow_id = if dispatches.len() > 0 {
            dispatches[0].workflow_id.clone()
        } else {
            String::new()
        };
        let run_id = if dispatches.len() > 0 {
            dispatches[0].run_id.clone()
        } else {
            String::new()
        };
        let mut events: Vec<HarnessEvent> = Vec::new();
        let mut i: usize = 0;
        while i < dispatches.len()
            invariant
                i <= dispatches.len(),
                events_view(events@) == dispatches@.take(i as int).map_values(|d: StepDispatch| dispatched_event(d, timestamp@)),
            decreases dispatches.len() - i,
        {
            let d = &dispatches[i];
            let body = text5("Workflow step ", d.step_id.as_str(), " dispatched to ", d.agent_type.as_str(), ".");
            let e = HarnessEvent::new(timestamp, "INFO", "workflow.step.dispatched", body.as_str(), step_event_attributes(d, None, None));
            let ghost before = events_view(events@);
            events.push(e);
            assert(events_view(events@) =~= before.push(event_view(e)));
            assert(dispatches@.take(i + 1).map_values(|d: StepDispatch| dispatched_event(d, timestamp@)) =~= dispatches@.take(
                i as int,
            ).map_values(|d: StepDispatch| dispatched_event(d, timestamp@)).push(dispatched_event(dispatches@[i as int], timestamp@)));
            i = i + 1;
        }
        assert(dispatches@.take(dispatches.len() as int) =~= dispatches@);
        WorkflowRuntimeEventChain { workflow_id, run_id, events, replan_requested: false }
    }

    pub fn from_step_queued(dispatch: &StepDispatch, task_id: &str, timestamp: &str) -> (res: WorkflowRuntimeEventChain)
        ensures
            chain_view(res) == step_queued_chain(*dispatch, task_id@, timestamp@),
    {
        let body = text5("Workflow step ", dispatch.step_id.as_str(), " queued as task ", task_id, ".");
        let e = HarnessEvent::new(timestamp, "INFO", "workflow.step.queued", body.as_str(), step_event_attributes(dispatch, Some(task_id), None));
        single_chain(dispatch.workflow_id.clone(), dispatch.run_id.clone(), e)
    }

    pub fn from_step_running(dispatch: &StepDispatch, task_id: &str, timestamp: &str) -> (res: WorkflowRuntimeEventChain)
        ensures
            chain_view(res) == step_running_chain(*dispatch, task_id@, timestamp@),
    {
        let body = text5("Workflow step ", dispatch.step_id.as_str(), " is running as task ", task_id, ".");
        let e = HarnessEvent::new(timestamp, "INFO", "workflow.step.running", body.as_str(), step_event_attributes(dispatch, Some(task_id), None));
        single_chain(dispatch.workflow_id.clone(), dispatch.run_id.clone(), e)
    }

    pub fn from_step_reported(dispatch: &StepDispatch, task_id: &str, summary: &str, timestamp: &str) -> (res: WorkflowRuntimeEventChain)
        ensures
            chain_view(res) == step_reported_chain(*dispatch, task_id@, summary@, timestamp@),
    {
        let mut attributes = step_event_attributes(dispatch, Some(task_id), None);
        put_attr(&mut attributes, "summary", EventValue::Text(owned(summary)));
        let body = text5("Workflow step ", dispatch.step_id.as_str(), " reported from task ", task_id, ".");
        let e = HarnessEvent::new(timestamp, "INFO", "workflow.step.reported", body.as_str(), attributes);
        single_chain(dispatch.workflow_id.clone(), dispatch.run_id.clone(), e)
    }

    pub fn from_step_verified(dispatch: &StepDispatch, task_id: &str, working_artifact: &ArtifactRef, timestamp: &str) -> (res: WorkflowRuntimeEventChain)
        ensures
            chain_view(res) == step_verified_chain(*dispatch, task_id@, *working_artifact, timestamp@),
    {
        let mut a: Vec<(String, EventValue)> = Vec::new();
        put_attr(&mut a, "workflow_id", text_value(&dispatch.workflow_id));
        put_attr(&mut a, "run_id", text_value(&dispatch.run_id));
        put_attr(&mut a, "step_id", text_value(&dispatch.step_id));
        put_attr(&mut a, "attempt", EventValue::Number(dispatch.attempt));
        put_attr(&mut a, "task_id", EventValue::Text(owned(task_id)));
        let ghost head = attrs_view(a@);
        put_artifact_attrs(&mut a, working_artifact);
        assert(head =~= seq![
            ("workflow_id"@, tv(dispatch.workflow_id@)),
            ("run_id"@, tv(dispatch.run_id@)),
            ("step_id"@, tv(dispatch.step_id@)),
            ("attempt"@, EventValueView::Number(dispatch.attempt)),
            ("task_id"@, tv(task_id@)),
        ]);
        let body = text3("Workflow step ", dispatch.step_id.as_str(), " passed verification.");
        let e = HarnessEvent::new(timestamp, "INFO", "workflow.step.verified", body.as_str(), a);
        single_chain(dispatch.workflow_id.clone(), dispatch.run_id.clone(), e)
    }

    pub fn from_semantic_promoted(workflow_id: &str, run_id: &str, step_id: &str, artifact: &ArtifactRef, timestamp: &str) -> (res: WorkflowRuntimeEventChain)
        ensures
            chain_view(res) == semantic_promoted_chain(workflow_id@, run_id@, step_id@, *artifact, timestamp@),
    {
        let mut a: Vec<(String, EventValue)> = Vec::new();
        put_attr(&mut a, "workflow_id", EventValue::Text(owned(workflow_id)));
        put_attr(&mut a, "run_id", EventValue::Text(owned(run_id)));
        put_attr(&mut a, "step_id", EventValue::Text(owned(step_id)));
        let ghost head = attrs_view(a@);
        put_artifact_attrs(&mut a, artifact);
        assert(head =~= seq![("workflow_id"@, tv(workflow_id@)), ("run_id"@, tv(run_id@)), ("step_id"@, tv(step_id@))]);
        let body = text3("Verified workflow knowledge was promoted from step ", step_id, ".");
        let e = HarnessEvent::new(timestamp, "INFO", "workflow.semantic.promoted", body.as_str(), a);
        single_chain(owned(workflow_id), owned(run_id), e)
    }

    pub fn from_run_succeeded(workflow: &WorkflowIr, run: &WorkflowRunState, timestamp: &str) -> (res: WorkflowRuntimeEventChain)
        ensures
            chain_view(res) == run_succeeded_chain(workflow@, *run, timestamp@),
    {
        let body = text3("Workflow run ", run.run_id.as_str(), " succeeded.");
        let e = HarnessEvent::new(timestamp, "INFO", "workflow.run.succeeded", body.as_str(), make_run_end_attrs(workflow, run));
        single_chain(workflow.workflow_id.clone(), run.run_id.clone(), e)
    }

    pub fn from_run_failed(workflow: &WorkflowIr, run: &WorkflowRunState, reason_code: &str, summary: &str, timestamp: &str) -> (res: WorkflowRuntimeEventChain)
        ensures
            chain_view(res) == run_failed_chain(workflow@, *run, reason_code@, summary@, timestamp@),
    {
        let mut a = make_run_end_attrs(workflow, run);
        put_attr(&mut a, "reason_code", EventValue::Text(owned(reason_code)));
        let e = HarnessEvent::new(timestamp, "ERROR", "workflow.run.failed", summary, a);
        single_chain(workflow.workflow_id.clone(), run.run_id.clone(), e)
    }

    pub fn from_step_failed(dispatch: &StepDispatch, task_id: &str, reason_code: &str, summary: &str, timestamp: &str) -> (res: WorkflowRuntimeEventChain)
        ensures
            chain_view(res) == step_failed_chain(*dispatch, task_id@, reason_code@, summary@, timestamp@),
    {
        let a = step_event_attributes(dispatch, Some(task_id), Some((reason_code, summary)));
        let e = HarnessEvent::new(timestamp, "ERROR", "workflow.step.failed", summary, a);
        single_chain(dispatch.workflow_id.clone(), dispatch.run_id.clone(), e)
    }

    pub fn from_step_unsupported(dispatch: &StepDispatch, reason_code: &str, summary: &str, timestamp: &str) -> (res: WorkflowRuntimeEventChain)
        ensures
            chain_view(res) == step_unsupported_chain(*dispatch, reason_code@, summary@, timestamp@),
    {
        let a = step_event_attributes(dispatch, None, Some((reason_code, summary)));
        let e = HarnessEvent::new(timestamp, "WARN", "workflow.step.unsupported", summary, a);
        single_chain(dispatch.workflow_id.clone(), dispatch.run_id.clone(), e)
    }

    pub fn from_patch_decision(workflow_id: &str, run_id: &str, patch: &WorkflowPatch, accepted: bool, timestamp: &str, reason: &str) -> (res: WorkflowRuntimeEventChain)
        ensures
            chain_view(res) == patch_decision_chain(workflow_id@, run_id@, *patch, accepted, timestamp@, reason@),
    {
        let event_name = if accepted {
            "workflow.patch.accepted"
        } else {
            "workflow.patch.rejected"
        };
        let severity = if accepted {
            "INFO"
        } else {
            "WARN"
        };
        let verb = patch_decision_verb(accepted);
        let blank = trim_chars(&chars_of(reason)).len() == 0;
        let body = if blank {
            text5("Workflow patch ", patch.patch_id.as_str(), " ", verb, ".")
        } else {
            let mut v: Vec<char> = Vec::new();
            push_str(&mut v, "Workflow patch ");
            push_str(&mut v, patch.patch_id.as_str());
            push_str(&mut v, " ");
            push_str(&mut v, verb);
            push_str(&mut v, ": ");
            push_str(&mut v, reason);
            string_of(&v)
        };
        let mut a: Vec<(String, EventValue)> = Vec::new();
        put_attr(&mut a, "workflow_id", EventValue::Text(owned(workflow_id)));
        put_attr(&mut a, "run_id", EventValue::Text(owned(run_id)));
        put_attr(&mut a, "patch_id", text_value(&patch.patch_id));
        put_attr(&mut a, "from_version", EventValue::Number(patch.from_version));
        put_attr(&mut a, "to_version", EventValue::Number(patch.to_version));
        put_attr(&mut a, "accepted", EventValue::Flag(accepted));
        put_attr(&mut a, "reason", EventValue::Text(owned(reason)));
        let ghost head = attrs_view(a@);
        put_patch_attrs(&mut a, patch);
        assert(head =~= seq![
            ("workflow_id"@, tv(workflow_id@)),
            ("run_id"@, tv(run_id@)),
            ("patch_id"@, tv(patch.patch_id@)),
            ("from_version"@, EventValueView::Number(patch.from_version)),
            ("to_version"@, EventValueView::Number(patch.to_version)),
            ("accepted"@, EventValueView::Flag(accepted)),
            ("reason"@, tv(reason@)),
        ]);
        let e = HarnessEvent::new(timestamp, severity, event_name, body.as_str(), a);
        single_chain(owned(workflow_id), owned(run_id), e)
    }

    pub fn from_patch_review_request(run_id: &str, patch: &WorkflowPatch, proposal_id: &str, timestamp: &str) -> (res: WorkflowRuntimeEventChain)
        ensures
            chain_view(res) == patch_review_chain(run_id@, *patch, proposal_id@, timestamp@),
    {
        let mut a: Vec<(String, EventValue)> = Vec::new();
        put_attr(&mut a, "workflow_id", text_value(&patch.workflow_id));
        put_attr(&mut a, "run_id", EventValue::Text(owned(run_id)));
        put_attr(&mut a, "patch_id", text_value(&patch.patch_id));
        put_attr(&mut a, "proposal_id", EventValue::Text(owned(proposal_id)));
        put_attr(&mut a, "from_version", EventValue::Number(patch.from_version));
        put_attr(&mut a, "to_version", EventValue::Number(patch.to_version));
        let ghost head = attrs_view(a@);
        put_patch_attrs(&mut a, patch);
        assert(head =~= seq![
            ("workflow_id"@, tv(patch.workflow_id@)),
            ("run_id"@, tv(run_id@)),
            ("patch_id"@, tv(patch.patch_id@)),
            ("proposal_id"@, tv(proposal_id@)),
            ("from_version"@, EventValueView::Number(patch.from_version)),
            ("to_version"@, EventValueView::Number(patch.to_version)),
        ]);
        let body = text3("Workflow patch ", patch.patch_id.as_str(), " was routed to Bridge for human review.");
        let e = HarnessEvent::new(timestamp, "WARN", "workflow.patch.review_requested", body.as_str(), a);
        single_chain(patch.workflow_id.clone(), owned(run_id), e)
    }
}

// ---------------------------------------------------------------------------------------
// Assessments and replans.
// ---------------------------------------------------------------------------------------

/// The attributes of a finding, with the step it is about where one is named.
pub open spec fn finding_attrs(f: FindingView, workflow_id: Seq<char>, run_id: Seq<char>, step_id: Option<Seq<char>>) -> Seq<
    (Seq<char>, EventValueView),
> {
    seq![("workflow_id"@, tv(workflow_id)), ("run_id"@, tv(run_id)), ("verification_id"@, tv(f.verification_id))] + match step_id {
        Some(s) => seq![("step_id"@, tv(s))],
        None => Seq::empty(),
    } + seq![
        ("level"@, tv(level_name(f.level))),
        ("target"@, tv(f.target)),
        ("result"@, tv(outcome_name(f.result))),
        ("failed_clauses"@, EventValueView::Numbers(f.failed_clauses)),
        ("reason_code"@, tv(f.reason_code)),
        ("evidence_refs"@, EventValueView::Texts(f.evidence_refs)),
        ("minimal_fix_surface"@, EventValueView::Texts(f.minimal_fix_surface)),
    ]
}

pub open spec fn finding_event(f: FindingView, workflow_id: Seq<char>, run_id: Seq<char>, step_id: Option<Seq<char>>, ts: Seq<char>) -> EventView {
    ev(ts, verification_severity(f.result), verification_event(f.result), f.summary, finding_attrs(f, workflow_id, run_id, step_id))
}

fn make_finding_event(
    f: &crate::workflow::VerificationFinding,
    workflow_id: &str,
    run_id: &str,
    step_id: Option<&str>,
    timestamp: &str,
) -> (res: HarnessEvent)
    ensures
        event_view(res) == finding_event(
            finding_view(*f),
            workflow_id@,
            run_id@,
            match step_id {
                Some(s) => Some(s@),
                None => None,
            },
            timestamp@,
        ),
{
    let mut a: Vec<(String, EventValue)> = Vec::new();
    put_attr(&mut a, "workflow_id", EventValue::Text(owned(workflow_id)));
    put_attr(&mut a, "run_id", EventValue::Text(owned(run_id)));
    put_attr(&mut a, "verification_id", text_value(&f.verification_id));
    let ghost head = attrs_view(a@);
    match step_id {
        Some(s) => put_attr(&mut a, "step_id", EventValue::Text(owned(s))),
        None => {},
    }
    let ghost mid = attrs_view(a@);
    put_attr(&mut a, "level", EventValue::Text(level_text(f.level)));
    put_attr(&mut a, "target", text_value(&f.target));
    put_attr(&mut a, "result", EventValue::Text(outcome_text(f.result)));
    put_attr(&mut a, "failed_clauses", EventValue::Numbers(copy_usizes(&f.failed_clauses)));
    put_attr(&mut a, "reason_code", text_value(&f.reason_code));
    put_attr(&mut a, "evidence_refs", texts_value(&f.evidence_refs));
    put_attr(&mut a, "minimal_fix_surface", texts_value(&f.minimal_fix_surface));
    let ghost sv = match step_id {
        Some(s) => Some(s@),
        None => None::<Seq<char>>,
    };
    assert(attrs_view(a@) =~= finding_attrs(finding_view(*f), workflow_id@, run_id@, sv));
    HarnessEvent::new(
        timestamp,
        verification_event_severity(&f.result),
        verification_event_name(&f.result),
        f.summary.as_str(),
        a,
    )
}

/// The record of a step report.
pub open spec fn report_event(r: StepReport, workflow_id: Seq<char>, run_id: Seq<char>, ts: Seq<char>) -> EventView {
    ev(
        ts,
        report_severity(r.status),
        "workflow.step_report.recorded"@,
        "Step report "@ + r.report_id@ + " recorded for "@ + r.step_id@ + "."@,
        seq![
            ("workflow_id"@, tv(workflow_id)),
            ("run_id"@, tv(run_id)),
            ("report_id"@, tv(r.report_id@)),
            ("step_id"@, tv(r.step_id@)),
            ("status"@, tv(report_status_name(r.status))),
            ("confidence"@, EventValueView::Real(r.confidence_bits)),
            ("artifact_ids"@, EventValueView::Texts(r.artifacts@.map_values(|a: ArtifactRef| a.artifact_id@))),
            ("evidence_count"@, EventValueView::Number(r.evidence@.len() as usize)),
        ],
    )
}

/// A step report, then one record per finding about the step.
pub open spec fn step_assessed_chain(
    workflow_id: Seq<char>,
    run_id: Seq<char>,
    r: StepReport,
    findings: Seq<FindingView>,
    ts: Seq<char>,
) -> ChainView {
    ChainView {
        workflow_id,
        run_id,
        events: seq![report_event(r, workflow_id, run_id, ts)] + findings.map_values(
            |f: FindingView| finding_event(f, workflow_id, run_id, Some(r.step_id@), ts),
        ),
        replan_requested: false,
    }
}

/// The record of a report's digest.
pub open spec fn digest_event(e: DigestEntryView, workflow_id: Seq<char>, run_id: Seq<char>, ts: Seq<char>) -> EventView {
    ev(
        ts,
        report_severity(e.status),
        "workflow.step_report.recorded"@,
        "Step report "@ + e.report_id + " recorded for "@ + e.step_id + "."@,
        seq![
            ("workflow_id"@, tv(workflow_id)),
            ("run_id"@, tv(run_id)),
            ("report_id"@, tv(e.report_id)),
            ("step_id"@, tv(e.step_id)),
            ("status"@, tv(report_status_name(e.status))),
            ("confidence"@, EventValueView::Real(e.confidence_bits)),
            ("artifact_count"@, EventValueView::Number(e.artifact_ids.len() as usize)),
            ("risk_count"@, EventValueView::Number(e.risks.len() as usize)),
            ("blocked_by_count"@, EventValueView::Number(e.blocked_by.len() as usize)),
        ],
    )
}

/// Every failed goal clause named by the findings, finding by finding.
pub open spec fn all_failed_clauses(fs: Seq<FindingView>) -> Seq<usize>
    decreases fs.len(),
{
    if fs.len() == 0 {
        Seq::empty()
    } else {
        all_failed_clauses(fs.drop_last()) + fs.last().failed_clauses
    }
}

/// Strictly increasing.
pub open spec fn increasing(r: Seq<usize>) -> bool {
    forall|i: int, j: int| 0 <= i < j < r.len() ==> r[i] < r[j]
}

/// The failed goal clauses of the findings, each once, in increasing order.
pub open spec fn failed_clause_set(fs: Seq<FindingView>) -> Seq<usize> {
    choose|r: Seq<usize>| increasing(r) && forall|x: usize| r.contains(x) <==> all_failed_clauses(fs).contains(x)
}

/// Whether a replan is asked for: the policy asks for replans on failed verification, and
/// some finding did not pass.
pub open spec fn replan_needed(request: OrchestratorReplanRequest) -> bool {
    request.runtime_policies.replan_on_verification_fail && exists|i: int|
        0 <= i < request.verifier_findings@.len() && (#[trigger] request.verifier_findings@[i]).result
            != VerificationOutcome::Pass
}

pub open spec fn replan_event(request: OrchestratorReplanRequest, ts: Seq<char>) -> EventView {
    let s = request.workflow_state_summary;
    ev(
        ts,
        "WARN"@,
        "workflow.replan.requested"@,
        "Workflow verifier requested orchestrator replan for "@ + s.workflow_id@ + "@v"@ + decimal(s.workflow_version as nat) + "."@,
        seq![
            ("workflow_id"@, tv(s.workflow_id@)),
            ("run_id"@, tv(s.run_id@)),
            ("workflow_version"@, EventValueView::Number(s.workflow_version)),
            ("finding_count"@, EventValueView::Number(request.verifier_findings@.len() as usize)),
            ("failed_step_ids"@, EventValueView::Texts(strings_view(s.failed_step_ids@))),
            ("failed_goal_clauses"@, EventValueView::Numbers(failed_clause_set(findings_view(request.verifier_findings@)))),
            ("allowed_orchestrator_outputs"@, EventValueView::Texts(strings_view(request.runtime_policies.allowed_orchestrator_outputs@))),
        ],
    )
}

/// A record per report digest, then per finding; then, where a replan is needed, the replan
/// request.
pub open spec fn replan_chain(request: OrchestratorReplanRequest, ts: Seq<char>) -> ChainView {
    let wid = request.workflow_state_summary.workflow_id@;
    let rid = request.workflow_state_summary.run_id@;
    let base = request.step_reports_digest.entries@.map_values(
        |e: StepReportDigestEntry| digest_event(digest_entry_view(e), wid, rid, ts),
    ) + findings_view(request.verifier_findings@).map_values(|f: FindingView| finding_event(f, wid, rid, None, ts));
    ChainView {
        workflow_id: wid,
        run_id: rid,
        events: if replan_needed(request) {
            base.push(replan_event(request, ts))
        } else {
            base
        },
        replan_requested: replan_needed(request),
    }
}

proof fn lemma_increasing_unique(a: Seq<usize>, b: Seq<usize>)
    requires
        increasing(a),
        increasing(b),
        forall|x: usize| a.contains(x) <==> b.contains(x),
    ensures
        a == b,
    decreases a.len(),
{
    if a.len() == 0 {
        if b.len() > 0 {
            assert(b.contains(b[0]));
        }
        assert(a =~= b);
    } else {
        assert(a.contains(a[0]));
        assert(b.contains(a[0]));
        let j = choose|j: int| 0 <= j < b.len() && b[j] == a[0];
        assert(b.contains(b[0]));
        assert(a.contains(b[0]));
        let k = choose|k: int| 0 <= k < a.len() && a[k] == b[0];
        assert(a[0] <= a[k]);
        assert(b[0] <= b[j]);
        assert(a[0] == b[0]);
        let a1 = a.drop_first();
        let b1 = b.drop_first();
        assert forall|x: usize| a1.contains(x) <==> b1.contains(x) by {
            if a1.contains(x) {
                let p = choose|p: int| 0 <= p < a1.len() && a1[p] == x;
                assert(a[p + 1] == x);
                assert(a[0] < x);
                assert(a.contains(x));
                let q = choose|q: int| 0 <= q < b.len() && b[q] == x;
                assert(q != 0);
                assert(b1[q - 1] == x);
            }
            if b1.contains(x) {
                let p = choose|p: int| 0 <= p < b1.len() && b1[p] == x;
                assert(b[p + 1] == x);
                assert(b[0] < x);
                assert(b.contains(x));
                let q = choose|q: int| 0 <= q < a.len() && a[q] == x;
                assert(q != 0);
                assert(a1[q - 1] == x);
            }
        }
        lemma_increasing_unique(a1, b1);
        assert(a =~= b) by {
            assert forall|i: int| 0 <= i < a.len() implies a[i] == b[i] by {
                if i > 0 {
                    assert(a[i] == a1[i - 1]);
                    assert(b[i] == b1[i - 1]);
                }
            }
        }
    }
}

/// Adds `c` to an increasing sequence of clauses, keeping it increasing and without repeats.
fn insert_clause(out: &mut Vec<usize>, c: usize)
    requires
        increasing(old(out)@),
    ensures
        increasing(final(out)@),
        forall|x: usize| final(out)@.contains(x) <==> (old(out)@.contains(x) || x == c),
{
    let mut p: usize = 0;
    while p < out.len() && out[p] < c
        invariant
            p <= out@.len(),
            forall|i: int| 0 <= i < p ==> out@[i] < c,
        decreases out@.len() - p,
    {
        p = p + 1;
    }
    if p < out.len() && out[p] == c {
        assert(out@ == old(out)@);
        assert(out@.contains(c)) by {
            assert(out@[p as int] == c);
        }
        assert forall|x: usize| (old(out)@.contains(x) || x == c) implies out@.contains(x) by {}
        assert forall|x: usize| out@.contains(x) implies (old(out)@.contains(x) || x == c) by {}
        return;
    }
    let ghost before = out@;
    assert(before == old(out)@);
    out.insert(p, c);
    assert(out@ == before.insert(p as int, c));
    assert forall|i: int, j: int| 0 <= i < j < out@.len() implies out@[i] < out@[j] by {
        if j < p {
        } else if j == p {
        } else if i < p {
            assert(out@[j] == before[j - 1]);
            if j - 1 > p {
                assert(before[p as int] < before[j - 1]);
            }
            assert(before[p as int] >= c);
        } else if i == p {
            assert(out@[j] == before[j - 1]);
            assert(before[p as int] > c);
            if j - 1 > p {
                assert(before[p as int] < before[j - 1]);
            }
        } else {
            assert(out@[i] == before[i - 1] && out@[j] == before[j - 1]);
        }
    }
    assert forall|x: usize| out@.contains(x) implies (before.contains(x) || x == c) by {
        let k = choose|k: int| 0 <= k < out@.len() && out@[k] == x;
        if k < p {
            assert(before[k] == x);
        } else if k > p {
            assert(before[k - 1] == x);
        }
    }
    assert forall|x: usize| (before.contains(x) || x == c) implies out@.contains(x) by {
        if before.contains(x) {
            let k = choose|k: int| 0 <= k < before.len() && before[k] == x;
            if k < p {
                assert(out@[k] == x);
            } else {
                assert(out@[k + 1] == x);
            }
        } else {
            assert(out@[p as int] == c);
        }
    }
    assert(forall|x: usize| out@.contains(x) ==> (before.contains(x) || x == c));
    assert(forall|x: usize| (before.contains(x) || x == c) ==> out@.contains(x));
}

/// The failed goal clauses of the findings, each once, in increasing order.
fn failed_clauses_of(findings: &Vec<crate::workflow::VerificationFinding>) -> (res: Vec<usize>)
    ensures
        res@ == failed_clause_set(findings_view(findings@)),
{
    let ghost fv = findings_view(findings@);
    let mut out: Vec<usize> = Vec::new();
    let mut i: usize = 0;
    while i < findings.len()
        invariant
            i <= findings.len(),
            fv == findings_view(findings@),
            increasing(out@),
            forall|x: usize| out@.contains(x) <==> all_failed_clauses(fv.take(i as int)).contains(x),
        decreases findings.len() - i,
    {
        assert(fv.take(i + 1).drop_last() == fv.take(i as int));
        assert(fv.take(i + 1).last() == finding_view(findings@[i as int]));
        let fc = &findings[i].failed_clauses;
        let ghost prefix = all_failed_clauses(fv.take(i as int));
        let mut k: usize = 0;
        while k < fc.len()
            invariant
                k <= fc@.len(),
                increasing(out@),
                forall|x: usize| out@.contains(x) <==> (prefix + fc@.take(k as int)).contains(x),
            decreases fc@.len() - k,
        {
            insert_clause(&mut out, fc[k]);
            proof {
                assert(prefix + fc@.take(k + 1) == (prefix + fc@.take(k as int)).push(fc@[k as int]));
                assert forall|x: usize| out@.contains(x) <==> (prefix + fc@.take(k + 1)).contains(x) by {
                    crate::link_graph::lemma_push_contains(prefix + fc@.take(k as int), fc@[k as int], x);
                }
            }
            k = k + 1;
        }
        assert(fc@.take(fc@.len() as int) == fc@);
        assert(all_failed_clauses(fv.take(i + 1)) == prefix + fc@);
        i = i + 1;
    }
    assert(fv.take(findings.len() as int) == fv);
    proof {
        let r = failed_clause_set(fv);
        assert(increasing(out@) && forall|x: usize| out@.contains(x) <==> all_failed_clauses(fv).contains(x));
        lemma_increasing_unique(out@, r);
    }
    out
}

impl WorkflowRuntimeEventChain {
    pub fn from_step_assessed(
        workflow_id: &str,
        run_id: &str,
        report: &StepReport,
        findings: &Vec<crate::workflow::VerificationFinding>,
        timestamp: &str,
    ) -> (res: WorkflowRuntimeEventChain)
        ensures
            chain_view(res) == step_assessed_chain(workflow_id@, run_id@, *report, findings_view(findings@), timestamp@),
    {
        let mut a: Vec<(String, EventValue)> = Vec::new();
        put_attr(&mut a, "workflow_id", EventValue::Text(owned(workflow_id)));
        put_attr(&mut a, "run_id", EventValue::Text(owned(run_id)));
        put_attr(&mut a, "report_id", text_value(&report.report_id));
        put_attr(&mut a, "step_id", text_value(&report.step_id));
        put_attr(&mut a, "status", EventValue::Text(report_status_text(report.status)));
        put_attr(&mut a, "confidence", EventValue::Real(report.confidence_bits));
        let ids = crate::replan::artifact_ids_of(&report.artifacts);
        put_attr(&mut a, "artifact_ids", EventValue::Texts(ids));
        put_attr(&mut a, "evidence_count", EventValue::Number(report.evidence.len()));
        assert(attrs_view(a@) =~= report_event(*report, workflow_id@, run_id@, timestamp@).attributes);
        let body = text5("Step report ", report.report_id.as_str(), " recorded for ", report.step_id.as_str(), ".");
        let first = HarnessEvent::new(timestamp, step_report_event_severity(&report.status), "workflow.step_report.recorded", body.as_str(), a);
        assert(event_view(first) == report_event(*report, workflow_id@, run_id@, timestamp@));
        let ghost fv = findings_view(findings@);
        let ghost fe = fv.map_values(|f: FindingView| finding_event(f, workflow_id@, run_id@, Some(report.step_id@), timestamp@));
        let mut events: Vec<HarnessEvent> = Vec::new();
        let ghost e0 = event_view(first);
        events.push(first);
        assert(events_view(events@) =~= seq![e0] + fe.take(0));
        let mut i: usize = 0;
        while i < findings.len()
            invariant
                i <= findings.len(),
                fv == findings_view(findings@),
                fe == fv.map_values(|f: FindingView| finding_event(f, workflow_id@, run_id@, Some(report.step_id@), timestamp@)),
                events_view(events@) == seq![e0] + fe.take(i as int),
            decreases findings.len() - i,
        {
            let e = make_finding_event(&findings[i], workflow_id, run_id, Some(report.step_id.as_str()), timestamp);
            assert(event_view(e) == fe[i as int]);
            let ghost before = events_view(events@);
            events.push(e);
            assert(events_view(events@) =~= before.push(event_view(e)));
            assert(fe.take(i + 1) =~= fe.take(i as int).push(fe[i as int]));
            assert(events_view(events@) =~= seq![e0] + fe.take(i + 1));
            i = i + 1;
        }
        assert(fe.take(findings.len() as int) =~= fe);
        WorkflowRuntimeEventChain { workflow_id: owned(workflow_id), run_id: owned(run_id), events, replan_requested: false }
    }

    pub fn from_replan_request(request: &OrchestratorReplanRequest, timestamp: &str) -> (res: WorkflowRuntimeEventChain)
        ensures
            chain_view(res) == replan_chain(*request, timestamp@),
    {
        let s = &request.workflow_state_summary;
        let wid = s.workflow_id.as_str();
        let rid = s.run_id.as_str();
        let entries = &request.step_reports_digest.entries;
        let ghost de = entries@.map_values(|e: StepReportDigestEntry| digest_event(digest_entry_view(e), wid@, rid@, timestamp@));
        let mut events: Vec<HarnessEvent> = Vec::new();
        let mut i: usize = 0;
        while i < entries.len()
            invariant
                i <= entries.len(),
                de == entries@.map_values(|e: StepReportDigestEntry| digest_event(digest_entry_view(e), wid@, rid@, timestamp@)),
                events_view(events@) == de.take(i as int),
            decreases entries.len() - i,
        {
            let r = &entries[i];
            let mut a: Vec<(String, EventValue)> = Vec::new();
            put_attr(&mut a, "workflow_id", EventValue::Text(owned(wid)));
            put_attr(&mut a, "run_id", EventValue::Text(owned(rid)));
            put_attr(&mut a, "report_id", text_value(&r.report_id));
            put_attr(&mut a, "step_id", text_value(&r.step_id));
            put_attr(&mut a, "status", EventValue::Text(report_status_text(r.status)));
            put_attr(&mut a, "confidence", EventValue::Real(r.confidence_bits));
            put_attr(&mut a, "artifact_count", EventValue::Number(r.artifact_ids.len()));
            put_attr(&mut a, "risk_count", EventValue::Number(r.risks.len()));
            put_attr(&mut a, "blocked_by_count", EventValue::Number(r.blocked_by.len()));
            assert(attrs_view(a@) =~= digest_event(digest_entry_view(*r), wid@, rid@, timestamp@).attributes);
            let body = text5("Step report ", r.report_id.as_str(), " recorded for ", r.step_id.as_str(), ".");
            let e = HarnessEvent::new(timestamp, step_report_event_severity(&r.status), "workflow.step_report.recorded", body.as_str(), a);
            assert(event_view(e) == de[i as int]);
            let ghost before = events_view(events@);
            events.push(e);
            assert(events_view(events@) =~= before.push(event_view(e)));
            assert(de.take(i + 1) =~= de.take(i as int).push(de[i as int]));
            i = i + 1;
        }
        assert(de.take(entries.len() as int) =~= de);
        let findings = &request.verifier_findings;
        let ghost fv = findings_view(findings@);
        let ghost fe = fv.map_values(|f: FindingView| finding_event(f, wid@, rid@, None, timestamp@));
        let mut failed_seen = false;
        let mut j: usize = 0;
        assert(events_view(events@) =~= de + fe.take(0));
        while j < findings.len()
            invariant
                j <= findings.len(),
                fv == findings_view(findings@),
                fe == fv.map_values(|f: FindingView| finding_event(f, wid@, rid@, None, timestamp@)),
                events_view(events@) == de + fe.take(j as int),
                failed_seen == exists|k: int| 0 <= k < j && (#[trigger] findings@[k]).result != VerificationOutcome::Pass,
            decreases findings.len() - j,
        {
            let e = make_finding_event(&findings[j], wid, rid, None, timestamp);
            assert(event_view(e) == fe[j as int]);
            let ghost before = events_view(events@);
            events.push(e);
            assert(events_view(events@) =~= before.push(event_view(e)));
            assert(fe.take(j + 1) =~= fe.take(j as int).push(fe[j as int]));
            assert(events_view(events@) =~= de + fe.take(j + 1));
            if findings[j].result != VerificationOutcome::Pass {
                failed_seen = true;
            }
            proof {
                if findings@[j as int].result != VerificationOutcome::Pass {
                    assert(exists|k: int| 0 <= k < j + 1 && (#[trigger] findings@[k]).result != VerificationOutcome::Pass);
                }
            }
            j = j + 1;
        }
        assert(fe.take(findings.len() as int) =~= fe);
        let replan_requested = request.runtime_policies.replan_on_verification_fail && failed_seen;
        if replan_requested {
            let clauses = failed_clauses_of(findings);
            let mut a: Vec<(String, EventValue)> = Vec::new();
            put_attr(&mut a, "workflow_id", EventValue::Text(owned(wid)));
            put_attr(&mut a, "run_id", EventValue::Text(owned(rid)));
            put_attr(&mut a, "workflow_version", EventValue::Number(s.workflow_version));
            put_attr(&mut a, "finding_count", EventValue::Number(findings.len()));
            put_attr(&mut a, "failed_step_ids", texts_value(&s.failed_step_ids));
            put_attr(&mut a, "failed_goal_clauses", EventValue::Numbers(clauses));
            put_attr(&mut a, "allowed_orchestrator_outputs", texts_value(&request.runtime_policies.allowed_orchestrator_outputs));
            let mut b: Vec<char> = Vec::new();
            push_str(&mut b, "Workflow verifier requested orchestrator replan for ");
            push_str(&mut b, wid);
            push_str(&mut b, "@v");
            let d = decimal_text(s.workflow_version);
            append_chars(&mut b, &d);
            push_str(&mut b, ".");
            let body = string_of(&b);
            assert(attrs_view(a@) =~= replan_event(*request, timestamp@).attributes);
            let e = HarnessEvent::new(timestamp, "WARN", "workflow.replan.requested", body.as_str(), a);
            assert(event_view(e) == replan_event(*request, timestamp@));
            let ghost before = events_view(events@);
            events.push(e);
            assert(events_view(events@) =~= before.push(event_view(e)));
        }
        WorkflowRuntimeEventChain { workflow_id: s.workflow_id.clone(), run_id: s.run_id.clone(), events, replan_requested }
    }
}

/// A replan is asked for only where the policy asks for replans and some finding did not
/// pass, and then the last record of the chain is the request.
pub proof fn lemma_replan_only_after_failed_verification(request: OrchestratorReplanRequest, ts: Seq<char>)
    ensures
        replan_chain(request, ts).replan_requested ==> request.runtime_policies.replan_on_verification_fail,
        replan_chain(request, ts).replan_requested ==> exists|i: int|
            0 <= i < request.verifier_findings@.len() && (#[trigger] request.verifier_findings@[i]).result
                != VerificationOutcome::Pass,
        replan_chain(request, ts).replan_requested ==> replan_chain(request, ts).events.last().name
            == "workflow.replan.requested"@,
        !replan_chain(request, ts).replan_requested ==> replan_chain(request, ts).events.len()
            == request.step_reports_digest.entries@.len() + request.verifier_findings@.len(),
{
}

/// The failed goal clauses of a replan request are exactly those the findings name, each once
/// and in increasing order.
pub proof fn lemma_failed_clauses_sorted_and_complete(fs: Seq<FindingView>, x: usize)
    requires
        exists|r: Seq<usize>| increasing(r) && forall|y: usize| r.contains(y) <==> all_failed_clauses(fs).contains(y),
    ensures
        increasing(failed_clause_set(fs)),
        failed_clause_set(fs).contains(x) <==> all_failed_clauses(fs).contains(x),
{
}

} // verus!

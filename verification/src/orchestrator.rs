//! Supervision of research agents: what an audit decides, the parallel verification tracks,
//! and the status the orchestrator reports.

use vstd::prelude::*;
use crate::dispatch::{sandbox_view, SandboxPolicy, SandboxView};
use crate::regression::{epoch_end_reason_name, EpochEndReason};
use crate::text::{append_chars, owned, push_str, string_of, strings_view, copy_strings};
use crate::completion::{decimal, decimal_text};

verus! {

#[derive(Debug, Clone, Copy, PartialEq, Eq, Structural)]
pub enum AuditAction {
    Healthy,
    Degraded,
    Terminated,
    Cooldown,
}

#[derive(Debug, Clone, Copy, PartialEq, Eq, Structural)]
pub enum AgentStatus {
    Healthy,
    Degraded,
    Terminated,
    Cooldown,
    Unknown,
}

/// How an agent stands with the orchestrator.
#[derive(Debug, Clone, PartialEq, Eq)]
pub struct AgentState {
    pub agent_id: String,
    pub status: AgentStatus,
    pub regression_count: usize,
    pub last_epoch: usize,
}

/// A verification track and where it stands.
#[derive(Debug, Clone, PartialEq, Eq)]
pub struct TrackInfo {
    pub track_id: String,
    pub focus: String,
    pub status: String,
    pub parent_agent: String,
}

/// The material a parallel verification track starts from.
#[derive(Debug, Clone)]
pub struct OrchestratorMaterialPacket {
    pub track_id: String,
    pub parent_task_id: String,
    pub focus: String,
    pub instruction: String,
    pub prompt: String,
    pub claims: Vec<String>,
    pub source_refs: Vec<String>,
    pub sandbox_policy: SandboxPolicy,
}

#[derive(Debug, Clone, Copy, PartialEq, Eq, Structural)]
pub enum OrchestratorEventType {
    AuditPassed,
    RegressionDetected,
    AgentDegraded,
    CleanKnowledgeExtracted,
    ParallelTracksSpawned,
    TrackCompleted,
    TrackFailed,
    TrackCancelled,
}

/// Something the orchestrator did or saw.
#[derive(Debug, Clone, PartialEq, Eq)]
pub struct OrchestratorEvent {
    pub epoch: usize,
    pub agent_id: String,
    pub event_type: OrchestratorEventType,
    pub timestamp: u64,
    pub detail: Option<String>,
}

/// What the orchestrator reports of itself.
#[derive(Debug, Clone)]
pub struct OrchestratorStatus {
    pub active_agents: usize,
    pub degraded_agents: Vec<String>,
    pub epoch_count: usize,
    pub track_count: usize,
    pub last_event: Option<OrchestratorEvent>,
    pub recent_events: Vec<OrchestratorEvent>,
    pub agent_states: Vec<AgentState>,
    pub track_details: Vec<TrackInfo>,
}

/// Reasons that count as a regression.
pub open spec fn regressive(r: EpochEndReason) -> bool {
    r == EpochEndReason::NoveltyPlateau || r == EpochEndReason::EvidencePlateau || r
        == EpochEndReason::ContradictionRiskHigh || r == EpochEndReason::ToolLoop || r
        == EpochEndReason::BudgetExhausted
}

pub fn is_regressive_reason(reason: &EpochEndReason) -> (res: bool)
    ensures
        res == regressive(*reason),
{
    match reason {
        EpochEndReason::NoveltyPlateau | EpochEndReason::EvidencePlateau | EpochEndReason::ContradictionRiskHigh
        | EpochEndReason::ToolLoop | EpochEndReason::BudgetExhausted => true,
        _ => false,
    }
}

/// The reason names joined by commas.
pub open spec fn joined_reasons(r: Seq<EpochEndReason>) -> Seq<char>
    decreases r.len(),
{
    if r.len() == 0 {
        Seq::empty()
    } else if r.len() == 1 {
        epoch_end_reason_name(r[0])
    } else {
        joined_reasons(r.drop_last()) + seq![','] + epoch_end_reason_name(r.last())
    }
}

/// The reasons for a log line: `none`, or their names joined by commas.
pub open spec fn reasons_text(r: Seq<EpochEndReason>) -> Seq<char> {
    if r.len() == 0 {
        "none"@
    } else {
        joined_reasons(r)
    }
}

pub fn format_reasons(reasons: &Vec<EpochEndReason>) -> (res: String)
    ensures
        res@ == reasons_text(reasons@),
{
    if reasons.len() == 0 {
        return owned("none");
    }
    let mut out: Vec<char> = Vec::new();
    let mut i: usize = 0;
    while i < reasons.len()
        invariant
            i <= reasons.len(),
            out@ == joined_reasons(reasons@.take(i as int)),
        decreases reasons.len() - i,
    {
        assert(reasons@.take(i + 1).drop_last() == reasons@.take(i as int));
        if i > 0 {
            out.push(',');
        }
        push_str(&mut out, reasons[i].as_str());
        assert(out@ =~= joined_reasons(reasons@.take(i + 1)));
        i = i + 1;
    }
    assert(reasons@.take(reasons.len() as int) == reasons@);
    string_of(&out)
}

/// What an audit of an agent's epoch decides once its measures are known. A regression
/// (measures past their thresholds) degrades the agent; with automatic termination, the
/// regression that reaches the allowed number in a row terminates it and starts a cooldown;
/// an agent in cooldown is only reported so; a healthy epoch clears the count.
#[derive(Debug, Clone, Copy, PartialEq, Eq, Structural)]
pub struct AuditDecision {
    pub action: AuditAction,
    pub regression_count: Option<usize>,
    pub degrade: bool,
    pub start_cooldown: bool,
}

pub open spec fn audit_outcome(
    early: bool,
    regressed: bool,
    in_cooldown: bool,
    auto_terminate: bool,
    prior_count: usize,
    max_consecutive: usize,
) -> AuditDecision {
    if early {
        AuditDecision { action: AuditAction::Healthy, regression_count: None, degrade: false, start_cooldown: false }
    } else if in_cooldown {
        AuditDecision { action: AuditAction::Cooldown, regression_count: None, degrade: false, start_cooldown: false }
    } else if regressed {
        if auto_terminate {
            let count = (prior_count + 1) as usize;
            if count >= max_consecutive {
                AuditDecision { action: AuditAction::Terminated, regression_count: Some(count), degrade: true, start_cooldown: true }
            } else {
                AuditDecision { action: AuditAction::Degraded, regression_count: Some(count), degrade: true, start_cooldown: false }
            }
        } else {
            AuditDecision { action: AuditAction::Degraded, regression_count: None, degrade: false, start_cooldown: false }
        }
    } else {
        AuditDecision { action: AuditAction::Healthy, regression_count: Some(0), degrade: false, start_cooldown: false }
    }
}

/// Decides an audit. `early` is an epoch before auditing starts; `regressed` that the
/// measures crossed a threshold.
pub fn audit_decision(
    early: bool,
    regressed: bool,
    in_cooldown: bool,
    auto_terminate: bool,
    prior_count: usize,
    max_consecutive: usize,
) -> (res: AuditDecision)
    requires
        prior_count < usize::MAX,
    ensures
        res == audit_outcome(early, regressed, in_cooldown, auto_terminate, prior_count, max_consecutive),
{
    if early {
        AuditDecision { action: AuditAction::Healthy, regression_count: None, degrade: false, start_cooldown: false }
    } else if in_cooldown {
        AuditDecision { action: AuditAction::Cooldown, regression_count: None, degrade: false, start_cooldown: false }
    } else if regressed {
        if auto_terminate {
            let count = prior_count + 1;
            if count >= max_consecutive {
                AuditDecision { action: AuditAction::Terminated, regression_count: Some(count), degrade: true, start_cooldown: true }
            } else {
                AuditDecision { action: AuditAction::Degraded, regression_count: Some(count), degrade: true, start_cooldown: false }
            }
        } else {
            AuditDecision { action: AuditAction::Degraded, regression_count: None, degrade: false, start_cooldown: false }
        }
    } else {
        AuditDecision { action: AuditAction::Healthy, regression_count: Some(0), degrade: false, start_cooldown: false }
    }
}

/// An agent is terminated only by the regression that makes the allowed number in a row,
/// with automatic termination on; a healthy epoch resets the count; a degraded or
/// terminated agent has regressed.
pub proof fn lemma_termination_needs_consecutive_regressions(
    early: bool,
    regressed: bool,
    in_cooldown: bool,
    auto_terminate: bool,
    prior_count: usize,
    max_consecutive: usize,
)
    requires
        prior_count < usize::MAX,
    ensures
        ({
            let d = audit_outcome(early, regressed, in_cooldown, auto_terminate, prior_count, max_consecutive);
            &&& d.action == AuditAction::Terminated ==> auto_terminate && regressed && !in_cooldown && !early
                && prior_count + 1 >= max_consecutive && d.start_cooldown
            &&& (d.action == AuditAction::Terminated || d.action == AuditAction::Degraded) ==> regressed
            &&& (!early && !in_cooldown && !regressed) ==> d.regression_count == Some(0usize)
        }),
{
}

/// The three verification tracks: their focus and instruction.
pub open spec fn focuses() -> Seq<(Seq<char>, Seq<char>)> {
    seq![
        ("correctness"@, "Verify factual correctness of each claim, check for contradictions with known facts"@),
        ("consistency"@, "Check internal logical consistency, ensure no self-contradiction in conclusions"@),
        ("verification"@, "Cross-reference claims against external sources, flag unsupported assertions"@),
    ]
}

pub fn track_focuses() -> (res: Vec<(String, String)>)
    ensures
        res@.map_values(|p: (String, String)| (p.0@, p.1@)) == focuses(),
{
    let mut v: Vec<(String, String)> = Vec::new();
    v.push((owned("correctness"), owned("Verify factual correctness of each claim, check for contradictions with known facts")));
    v.push((owned("consistency"), owned("Check internal logical consistency, ensure no self-contradiction in conclusions")));
    v.push((owned("verification"), owned("Cross-reference claims against external sources, flag unsupported assertions")));
    assert(v@.map_values(|p: (String, String)| (p.0@, p.1@)) =~= focuses());
    v
}

/// Lines of `- item`, joined by line feeds.
pub open spec fn bullet_lines(items: Seq<Seq<char>>) -> Seq<char>
    decreases items.len(),
{
    if items.len() == 0 {
        Seq::empty()
    } else if items.len() == 1 {
        "- "@ + items[0]
    } else {
        bullet_lines(items.drop_last()) + seq!['\n'] + "- "@ + items.last()
    }
}

pub open spec fn bullets_or(items: Seq<Seq<char>>, empty: Seq<char>) -> Seq<char> {
    if items.len() == 0 {
        empty
    } else {
        bullet_lines(items)
    }
}

fn bullets(items: &Vec<String>, empty: &str) -> (res: Vec<char>)
    ensures
        res@ == bullets_or(strings_view(items@), empty@),
{
    let mut out: Vec<char> = Vec::new();
    if items.len() == 0 {
        push_str(&mut out, empty);
        return out;
    }
    let ghost iv = strings_view(items@);
    let mut i: usize = 0;
    while i < items.len()
        invariant
            i <= items.len(),
            iv == strings_view(items@),
            out@ == bullet_lines(iv.take(i as int)),
        decreases items.len() - i,
    {
        assert(iv.take(i + 1).drop_last() == iv.take(i as int));
        if i > 0 {
            out.push('\n');
        }
        push_str(&mut out, "- ");
        push_str(&mut out, items[i].as_str());
        assert(out@ =~= bullet_lines(iv.take(i + 1)));
        i = i + 1;
    }
    assert(iv.take(items.len() as int) == iv);
    out
}

/// The prompt of a verification track.
pub open spec fn track_prompt(
    task_id: Seq<char>,
    intent: Seq<char>,
    focus: Seq<char>,
    instruction: Seq<char>,
    claims: Seq<Seq<char>>,
    sources: Seq<Seq<char>>,
) -> Seq<char> {
    "Orchestrator material packet\n\nParent task: "@ + task_id + "\nIntent: "@ + intent + "\nFocus: "@ + focus
        + "\nInstruction: "@ + instruction + "\n\nClaims:\n"@ + bullets_or(claims, "- No claims extracted"@)
        + "\n\nSources:\n"@ + bullets_or(sources, "- No source fragments attached"@)
        + "\n\nReturn a verification report. Do not edit files directly."@
}

pub fn build_track_prompt(
    focus: &str,
    instruction: &str,
    claims: &Vec<String>,
    source_keys: &Vec<String>,
    task_id: &str,
    intent: &str,
) -> (res: String)
    ensures
        res@ == track_prompt(task_id@, intent@, focus@, instruction@, strings_view(claims@), strings_view(source_keys@)),
{
    let c = bullets(claims, "- No claims extracted");
    let s = bullets(source_keys, "- No source fragments attached");
    let mut out: Vec<char> = Vec::new();
    push_str(&mut out, "Orchestrator material packet\n\nParent task: ");
    push_str(&mut out, task_id);
    push_str(&mut out, "\nIntent: ");
    push_str(&mut out, intent);
    push_str(&mut out, "\nFocus: ");
    push_str(&mut out, focus);
    push_str(&mut out, "\nInstruction: ");
    push_str(&mut out, instruction);
    push_str(&mut out, "\n\nClaims:\n");
    append_chars(&mut out, &c);
    push_str(&mut out, "\n\nSources:\n");
    append_chars(&mut out, &s);
    push_str(&mut out, "\n\nReturn a verification report. Do not edit files directly.");
    string_of(&out)
}

/// How many tracks are still open: spawned less those that ended, never below zero.
pub open spec fn count_of(events: Seq<OrchestratorEvent>, t: OrchestratorEventType) -> nat
    decreases events.len(),
{
    if events.len() == 0 {
        0
    } else {
        count_of(events.drop_last(), t) + if events.last().event_type == t {
            1nat
        } else {
            0nat
        }
    }
}

pub open spec fn open_tracks(events: Seq<OrchestratorEvent>) -> int {
    let spawned = count_of(events, OrchestratorEventType::ParallelTracksSpawned);
    let ended = count_of(events, OrchestratorEventType::TrackCompleted) + count_of(
        events,
        OrchestratorEventType::TrackFailed,
    ) + count_of(events, OrchestratorEventType::TrackCancelled);
    if spawned >= ended {
        spawned - ended
    } else {
        0
    }
}

proof fn lemma_count_bound(events: Seq<OrchestratorEvent>, t: OrchestratorEventType)
    ensures
        count_of(events, t) <= events.len(),
    decreases events.len(),
{
    if events.len() > 0 {
        lemma_count_bound(events.drop_last(), t);
    }
}

proof fn lemma_counts_sum(events: Seq<OrchestratorEvent>)
    ensures
        count_of(events, OrchestratorEventType::ParallelTracksSpawned) + count_of(events, OrchestratorEventType::TrackCompleted)
            + count_of(events, OrchestratorEventType::TrackFailed) + count_of(events, OrchestratorEventType::TrackCancelled)
            <= events.len(),
    decreases events.len(),
{
    if events.len() > 0 {
        lemma_counts_sum(events.drop_last());
    }
}

/// The number of tracks still open in the event log.
pub fn track_count(events: &Vec<OrchestratorEvent>) -> (res: usize)
    ensures
        res == open_tracks(events@),
{
    let mut spawned: usize = 0;
    let mut completed: usize = 0;
    let mut failed: usize = 0;
    let mut cancelled: usize = 0;
    let mut i: usize = 0;
    while i < events.len()
        invariant
            i <= events.len(),
            spawned == count_of(events@.take(i as int), OrchestratorEventType::ParallelTracksSpawned),
            completed == count_of(events@.take(i as int), OrchestratorEventType::TrackCompleted),
            failed == count_of(events@.take(i as int), OrchestratorEventType::TrackFailed),
            cancelled == count_of(events@.take(i as int), OrchestratorEventType::TrackCancelled),
            spawned + completed + failed + cancelled <= i,
        decreases events.len() - i,
    {
        assert(events@.take(i + 1).drop_last() == events@.take(i as int));
        proof {
            lemma_counts_sum(events@.take(i + 1));
        }
        match events[i].event_type {
            OrchestratorEventType::ParallelTracksSpawned => spawned = spawned + 1,
            OrchestratorEventType::TrackCompleted => completed = completed + 1,
            OrchestratorEventType::TrackFailed => failed = failed + 1,
            OrchestratorEventType::TrackCancelled => cancelled = cancelled + 1,
            _ => {},
        }
        i = i + 1;
    }
    assert(events@.take(events.len() as int) == events@);
    spawned.saturating_sub(completed + failed + cancelled)
}

/// The tracks that completed or failed, in log order, named by the event's agent.
pub open spec fn track_details_of(events: Seq<OrchestratorEvent>) -> Seq<(Seq<char>, Seq<char>)>
    decreases events.len(),
{
    if events.len() == 0 {
        Seq::empty()
    } else {
        let rest = track_details_of(events.drop_last());
        let e = events.last();
        if e.event_type == OrchestratorEventType::TrackCompleted {
            rest.push((e.agent_id@, "completed"@))
        } else if e.event_type == OrchestratorEventType::TrackFailed {
            rest.push((e.agent_id@, "failed"@))
        } else {
            rest
        }
    }
}

pub open spec fn track_info_view(t: TrackInfo) -> (Seq<char>, Seq<char>) {
    (t.track_id@, t.status@)
}

/// A track that is its own parent and has no focus recorded.
pub open spec fn self_parented(t: TrackInfo) -> bool {
    t.parent_agent@ == t.track_id@ && t.focus@.len() == 0
}

/// The finished tracks of the event log; each is its own parent and has no focus recorded.
pub fn track_details(events: &Vec<OrchestratorEvent>) -> (res: Vec<TrackInfo>)
    ensures
        res@.map_values(|t: TrackInfo| track_info_view(t)) == track_details_of(events@),
        forall|k: int| 0 <= k < res@.len() ==> self_parented(#[trigger] res@[k]),
{
    let mut out: Vec<TrackInfo> = Vec::new();
    let mut i: usize = 0;
    while i < events.len()
        invariant
            i <= events.len(),
            out@.map_values(|t: TrackInfo| track_info_view(t)) == track_details_of(events@.take(i as int)),
            forall|k: int| 0 <= k < out@.len() ==> self_parented(#[trigger] out@[k]),
        decreases events.len() - i,
    {
        assert(events@.take(i + 1).drop_last() == events@.take(i as int));
        let e = &events[i];
        let status: Option<&str> = match e.event_type {
            OrchestratorEventType::TrackCompleted => Some("completed"),
            OrchestratorEventType::TrackFailed => Some("failed"),
            _ => None,
        };
        match status {
            Some(st) => {
                let ghost before = out@.map_values(|t: TrackInfo| track_info_view(t));
                let info = TrackInfo {
                    track_id: e.agent_id.clone(),
                    focus: String::new(),
                    status: owned(st),
                    parent_agent: e.agent_id.clone(),
                };
                out.push(info);
                assert(out@.map_values(|t: TrackInfo| track_info_view(t)) =~= before.push(track_info_view(info)));
            },
            None => {},
        }
        i = i + 1;
    }
    assert(events@.take(events.len() as int) == events@);
    out
}

/// A finished track never counts as open: open tracks never exceed spawned ones.
pub proof fn lemma_open_tracks_bounded(events: Seq<OrchestratorEvent>)
    ensures
        0 <= open_tracks(events) <= count_of(events, OrchestratorEventType::ParallelTracksSpawned),
{
}

/// The packet of track `i`: named after the task and its number, with the focus, the
/// instruction, the prompt built from them, the claims, the source keys and the sandbox.
pub open spec fn packet_ok(
    p: OrchestratorMaterialPacket,
    i: int,
    task_id: Seq<char>,
    intent: Seq<char>,
    claims: Seq<Seq<char>>,
    sources: Seq<Seq<char>>,
    sandbox: SandboxView,
) -> bool {
    let (focus, instruction) = focuses()[i];
    &&& p.track_id@ == task_id + "_track_"@ + decimal(i as nat)
    &&& p.parent_task_id@ == task_id
    &&& p.focus@ == focus
    &&& p.instruction@ == instruction
    &&& p.prompt@ == track_prompt(task_id, intent, focus, instruction, claims, sources)
    &&& strings_view(p.claims@) == claims
    &&& strings_view(p.source_refs@) == sources
    &&& sandbox_view(p.sandbox_policy) == sandbox
}

/// The material packets of the parallel verification tracks, one per focus, in order.
pub fn track_packets(
    task_id: &str,
    intent: &str,
    claims: &Vec<String>,
    source_keys: &Vec<String>,
    sandbox: &SandboxPolicy,
) -> (res: Vec<OrchestratorMaterialPacket>)
    ensures
        res@.len() == focuses().len(),
        forall|i: int| 0 <= i < res@.len() ==> packet_ok(#[trigger] res@[i], i, task_id@, intent@, strings_view(claims@), strings_view(source_keys@), sandbox_view(*sandbox)),
{
    let fs = track_focuses();
    let mut out: Vec<OrchestratorMaterialPacket> = Vec::new();
    let mut i: usize = 0;
    while i < fs.len()
        invariant
            i <= fs.len(),
            fs@.map_values(|p: (String, String)| (p.0@, p.1@)) == focuses(),
            out@.len() == i,
            forall|k: int| 0 <= k < i ==> packet_ok(#[trigger] out@[k], k, task_id@, intent@, strings_view(claims@), strings_view(source_keys@), sandbox_view(*sandbox)),
        decreases fs.len() - i,
    {
        let (focus, instruction) = (&fs[i].0, &fs[i].1);
        assert(focuses()[i as int] == (focus@, instruction@));
        let mut id: Vec<char> = Vec::new();
        push_str(&mut id, task_id);
        push_str(&mut id, "_track_");
        let d = decimal_text(i);
        append_chars(&mut id, &d);
        let prompt = build_track_prompt(focus.as_str(), instruction.as_str(), claims, source_keys, task_id, intent);
        let p = OrchestratorMaterialPacket {
            track_id: string_of(&id),
            parent_task_id: owned(task_id),
            focus: focus.clone(),
            instruction: instruction.clone(),
            prompt,
            claims: copy_strings(claims),
            source_refs: copy_strings(source_keys),
            sandbox_policy: sandbox.copied(),
        };
        out.push(p);
        i = i + 1;
    }
    out
}

} // verus!

//! Bridge proposals: what the AI asks a human to review, how risky it is, and what the human
//! can do about it.

use vstd::prelude::*;
use crate::bridge::{
    BridgeProposalSource, BridgeProposalStatus, EvidenceKind, ImpactScope, ProposalAction,
    ProposalActionKind, ProposalRisk, SourceRef, SourceRefKind,
};
use crate::completion::{decimal, decimal_text};
use crate::text::{append_chars, chars_of, copy_strings, owned, push_str, string_of, strings_view};

verus! {

/// A piece of evidence shown with a proposal. Its confidence, where there is one, is kept as
/// the bit pattern of the 32-bit float it was given as.
#[derive(Debug, Clone)]
pub struct EvidenceRef {
    pub label: String,
    pub kind: EvidenceKind,
    pub reference: String,
    pub confidence_bits: Option<u32>,
    pub excerpt: Option<String>,
}

/// How much the user has come to trust the AI. The score and acceptance rate are kept as the
/// bit patterns of the 32-bit floats they were given as.
#[derive(Debug, Clone)]
pub struct TrustSnapshot {
    pub score_bits: u32,
    pub acceptance_rate_bits: u32,
    pub total_interactions: u64,
    pub recommended_mode: String,
}

/// The bit pattern of the 32-bit float 0.5.
pub const HALF_BITS: u32 = 0x3f00_0000u32;

pub struct TrustView {
    pub score_bits: u32,
    pub acceptance_rate_bits: u32,
    pub total_interactions: u64,
    pub recommended_mode: Seq<char>,
}

pub open spec fn trust_view(t: TrustSnapshot) -> TrustView {
    TrustView {
        score_bits: t.score_bits,
        acceptance_rate_bits: t.acceptance_rate_bits,
        total_interactions: t.total_interactions,
        recommended_mode: t.recommended_mode@,
    }
}

impl Default for TrustSnapshot {
    /// A score of one half, no acceptance yet, no interactions, manual mode.
    fn default() -> (res: TrustSnapshot)
        ensures
            trust_view(res) == (TrustView {
                score_bits: HALF_BITS,
                acceptance_rate_bits: 0,
                total_interactions: 0,
                recommended_mode: "manual"@,
            }),
    {
        TrustSnapshot {
            score_bits: HALF_BITS,
            acceptance_rate_bits: 0,
            total_interactions: 0,
            recommended_mode: owned("manual"),
        }
    }
}

impl TrustSnapshot {
    fn copied(&self) -> (res: TrustSnapshot)
        ensures
            trust_view(res) == trust_view(*self),
    {
        TrustSnapshot {
            score_bits: self.score_bits,
            acceptance_rate_bits: self.acceptance_rate_bits,
            total_interactions: self.total_interactions,
            recommended_mode: self.recommended_mode.clone(),
        }
    }
}

/// Something the AI asks a human to review.
#[derive(Debug, Clone)]
pub struct BridgeProposal {
    pub id: String,
    pub intent: String,
    pub summary: String,
    pub task_type: Option<String>,
    pub sandbox_summary: Option<String>,
    pub expected_output: Option<String>,
    pub risk_reason: Option<String>,
    pub source: BridgeProposalSource,
    pub source_ref: SourceRef,
    pub status: BridgeProposalStatus,
    pub evidence: Vec<EvidenceRef>,
    pub impact: ImpactScope,
    pub risk: ProposalRisk,
    pub actions: Vec<ProposalAction>,
    pub trust_snapshot: TrustSnapshot,
    pub created_at: u64,
    pub updated_at: u64,
}

// ---------------------------------------------------------------------------------------
// Risk.
// ---------------------------------------------------------------------------------------

/// High where notes are modified, data exported, something outside touched, or verification
/// found problems; medium where several notes are involved or files created; low otherwise.
pub open spec fn risk_of(impact: ImpactScope, has_verification_violations: bool) -> ProposalRisk {
    if impact.modifies_notes || impact.exports_data || impact.external_side_effect || has_verification_violations {
        ProposalRisk::High
    } else if impact.notes@.len() > 1 || impact.creates_files {
        ProposalRisk::Medium
    } else {
        ProposalRisk::Low
    }
}

impl BridgeProposal {
    pub fn classify_risk(impact: &ImpactScope, has_verification_violations: bool) -> (res: ProposalRisk)
        ensures
            res == risk_of(*impact, has_verification_violations),
    {
        if impact.modifies_notes || impact.exports_data || impact.external_side_effect || has_verification_violations {
            ProposalRisk::High
        } else if impact.notes.len() > 1 || impact.creates_files {
            ProposalRisk::Medium
        } else {
            ProposalRisk::Low
        }
    }
}

// ---------------------------------------------------------------------------------------
// Payloads and ids.
// ---------------------------------------------------------------------------------------

/// The JSON object with the given text members, in order (`serde_json::Value::Object`).
pub uninterp spec fn json_object_of(members: Seq<(Seq<char>, Seq<char>)>) -> serde_json::Value;

pub open spec fn pairs_text(v: Seq<(String, String)>) -> Seq<(Seq<char>, Seq<char>)> {
    v.map_values(|p: (String, String)| (p.0@, p.1@))
}

/// Builds a JSON object of text members (`serde_json::Value::Object` over
/// `serde_json::Value::String`s); of the value the library knows its name.
#[verifier::external_body]
pub(crate) fn json_text_object(members: &Vec<(String, String)>) -> (res: serde_json::Value)
    ensures
        res == json_object_of(pairs_text(members@)),
{
    serde_json::Value::Object(
        members.iter().map(|(k, v)| (k.clone(), serde_json::Value::String(v.clone()))).collect(),
    )
}

fn payload(members: Vec<(String, String)>) -> (res: serde_json::Value)
    ensures
        res == json_object_of(pairs_text(members@)),
{
    json_text_object(&members)
}

/// A proposal id: `bridge_` and a random UUID without its hyphens.
pub open spec fn is_proposal_id(id: Seq<char>) -> bool {
    id.len() >= 7 && id.take(7) == "bridge_"@ && !id.skip(7).contains('-')
}

fn next_id() -> (res: String)
    ensures
        is_proposal_id(res@),
{
    let u = crate::block_id::random_uuid_text();
    let cs = chars_of(u.as_str());
    let mut out: Vec<char> = Vec::new();
    push_str(&mut out, "bridge_");
    proof {
        reveal_strlit("bridge_");
    }
    let ghost head = out@;
    assert(head.len() == 7);
    let mut i: usize = 0;
    while i < cs.len()
        invariant
            i <= cs.len(),
            out@.len() >= 7,
            out@.take(7) == head,
            head == "bridge_"@,
            !out@.skip(7).contains('-'),
        decreases cs.len() - i,
    {
        if cs[i] != '-' {
            let ghost before = out@;
            out.push(cs[i]);
            assert(out@.take(7) == before.take(7));
            assert(out@.skip(7) == before.skip(7).push(cs@[i as int]));
            proof {
                crate::link_graph::lemma_push_contains(before.skip(7), cs@[i as int], '-');
            }
        }
        i = i + 1;
    }
    string_of(&out)
}

// ---------------------------------------------------------------------------------------
// Views of the parts of a proposal.
// ---------------------------------------------------------------------------------------

pub struct EvidenceView {
    pub label: Seq<char>,
    pub kind: EvidenceKind,
    pub reference: Seq<char>,
    pub confidence_bits: Option<u32>,
    pub excerpt: Option<Seq<char>>,
}

pub open spec fn optional_text(o: Option<String>) -> Option<Seq<char>> {
    match o {
        Some(s) => Some(s@),
        None => None,
    }
}

pub open spec fn evidence_view(e: EvidenceRef) -> EvidenceView {
    EvidenceView {
        label: e.label@,
        kind: e.kind,
        reference: e.reference@,
        confidence_bits: e.confidence_bits,
        excerpt: optional_text(e.excerpt),
    }
}

pub struct ActionView {
    pub id: Seq<char>,
    pub label: Seq<char>,
    pub kind: ProposalActionKind,
    pub payload: serde_json::Value,
}

pub open spec fn action_view(a: ProposalAction) -> ActionView {
    ActionView { id: a.id@, label: a.label@, kind: a.kind, payload: a.payload }
}

pub struct ImpactView {
    pub notes: Seq<Seq<char>>,
    pub creates_files: bool,
    pub modifies_notes: bool,
    pub exports_data: bool,
    pub external_side_effect: bool,
}

pub open spec fn impact_view(i: ImpactScope) -> ImpactView {
    ImpactView {
        notes: strings_view(i.notes@),
        creates_files: i.creates_files,
        modifies_notes: i.modifies_notes,
        exports_data: i.exports_data,
        external_side_effect: i.external_side_effect,
    }
}

/// What every new proposal has: a fresh id, its source, no task details, pending status, its
/// impact and the risk that follows from it, the trust snapshot, and the time on both stamps.
pub open spec fn fresh_proposal(
    p: BridgeProposal,
    source: BridgeProposalSource,
    kind: SourceRefKind,
    ref_id: Seq<char>,
    ref_path: Option<Seq<char>>,
    notes: Seq<Seq<char>>,
    modifies_notes: bool,
    violations: bool,
    trust: TrustSnapshot,
    now: u64,
) -> bool {
    &&& is_proposal_id(p.id@)
    &&& p.source == source
    &&& p.source_ref.kind == kind
    &&& p.source_ref.id@ == ref_id
    &&& optional_text(p.source_ref.path) == ref_path
    &&& p.task_type is None
    &&& p.sandbox_summary is None
    &&& p.expected_output is None
    &&& p.risk_reason is None
    &&& p.status == BridgeProposalStatus::Pending
    &&& impact_view(p.impact) == (ImpactView {
        notes,
        creates_files: false,
        modifies_notes,
        exports_data: false,
        external_side_effect: false,
    })
    &&& p.risk == risk_of(p.impact, violations)
    &&& trust_view(p.trust_snapshot) == trust_view(trust)
    &&& p.created_at == now
    &&& p.updated_at == now
}

fn evidence(label: &str, kind: EvidenceKind, reference: &str, excerpt: Option<String>) -> (res: EvidenceRef)
    ensures
        evidence_view(res) == (EvidenceView {
            label: label@,
            kind,
            reference: reference@,
            confidence_bits: None,
            excerpt: optional_text(excerpt),
        }),
{
    EvidenceRef { label: owned(label), kind, reference: owned(reference), confidence_bits: None, excerpt }
}

fn action(id: &str, label: &str, kind: ProposalActionKind, payload: serde_json::Value) -> (res: ProposalAction)
    ensures
        action_view(res) == (ActionView { id: id@, label: label@, kind, payload }),
{
    ProposalAction { id: owned(id), label: owned(label), kind, payload }
}

fn one_member(key: &str, value: &str) -> (res: Vec<(String, String)>)
    ensures
        pairs_text(res@) == seq![(key@, value@)],
{
    let mut v: Vec<(String, String)> = Vec::new();
    v.push((owned(key), owned(value)));
    assert(pairs_text(v@) =~= seq![(key@, value@)]);
    v
}

fn two_members(k1: &str, v1: &str, k2: &str, v2: &str) -> (res: Vec<(String, String)>)
    ensures
        pairs_text(res@) == seq![(k1@, v1@), (k2@, v2@)],
{
    let mut v: Vec<(String, String)> = Vec::new();
    v.push((owned(k1), owned(v1)));
    v.push((owned(k2), owned(v2)));
    assert(pairs_text(v@) =~= seq![(k1@, v1@), (k2@, v2@)]);
    v
}

fn no_members() -> (res: Vec<(String, String)>)
    ensures
        pairs_text(res@) == Seq::<(Seq<char>, Seq<char>)>::empty(),
{
    let v: Vec<(String, String)> = Vec::new();
    assert(pairs_text(v@) =~= Seq::<(Seq<char>, Seq<char>)>::empty());
    v
}

fn concat(a: &str, b: &Vec<char>, c: &str) -> (res: String)
    ensures
        res@ == a@ + b@ + c@,
{
    let mut v: Vec<char> = Vec::new();
    push_str(&mut v, a);
    append_chars(&mut v, b);
    push_str(&mut v, c);
    string_of(&v)
}

// ---------------------------------------------------------------------------------------
// The proposals.
// ---------------------------------------------------------------------------------------

/// A task waiting for approval: its intent, the task as evidence, and approve and reject.
pub open spec fn task_proposal(p: BridgeProposal, task_id: Seq<char>, intent: Seq<char>, trust: TrustSnapshot, now: u64) -> bool {
    &&& fresh_proposal(p, BridgeProposalSource::Tool, SourceRefKind::Task, task_id, None, Seq::empty(), false, false, trust, now)
    &&& p.intent@ == intent
    &&& p.summary@ == "AI 准备执行一个需要人类确认的任务。"@
    &&& p.evidence@.map_values(|e: EvidenceRef| evidence_view(e)) == seq![
        EvidenceView { label: "Agent task"@, kind: EvidenceKind::Trace, reference: task_id, confidence_bits: None, excerpt: Some(intent) },
    ]
    &&& p.actions@.map_values(|a: ProposalAction| action_view(a)) == seq![
        ActionView { id: "approve"@, label: "批准"@, kind: ProposalActionKind::ApproveTask, payload: json_object_of(seq![("task_id"@, task_id)]) },
        ActionView { id: "reject"@, label: "拒绝"@, kind: ProposalActionKind::Reject, payload: json_object_of(seq![("task_id"@, task_id)]) },
    ]
}

/// A scheduled job waiting for approval: the job as evidence, and approve and reject.
pub open spec fn scheduler_proposal(p: BridgeProposal, task_id: Seq<char>, job_id: Seq<char>, trust: TrustSnapshot, now: u64) -> bool {
    &&& fresh_proposal(
        p,
        BridgeProposalSource::Scheduler,
        SourceRefKind::SchedulerJob,
        task_id,
        Some(job_id),
        Seq::empty(),
        false,
        false,
        trust,
        now,
    )
    &&& p.intent@ == "审查定时任务: "@ + job_id
    &&& p.summary@ == "Scheduler 触发了 `"@ + job_id + "`，需要人类确认后执行。"@
    &&& p.evidence@.map_values(|e: EvidenceRef| evidence_view(e)) == seq![
        EvidenceView { label: "Scheduler job"@, kind: EvidenceKind::Trace, reference: task_id, confidence_bits: None, excerpt: Some(job_id) },
    ]
    &&& p.actions@.map_values(|a: ProposalAction| action_view(a)) == seq![
        ActionView {
            id: "approve"@,
            label: "批准"@,
            kind: ProposalActionKind::ApproveTask,
            payload: json_object_of(seq![("task_id"@, task_id), ("job_id"@, job_id)]),
        },
        ActionView {
            id: "reject"@,
            label: "拒绝"@,
            kind: ProposalActionKind::Reject,
            payload: json_object_of(seq![("task_id"@, task_id), ("job_id"@, job_id)]),
        },
    ]
}

/// Ghost blocks waiting for review: they modify the target note; open the diff or reject.
pub open spec fn ghost_proposal(p: BridgeProposal, ghost_id: Seq<char>, target_note: Seq<char>, block_count: usize, trust: TrustSnapshot, now: u64) -> bool {
    &&& fresh_proposal(
        p,
        BridgeProposalSource::GhostNote,
        SourceRefKind::GhostNote,
        ghost_id,
        Some(target_note),
        seq![target_note],
        true,
        false,
        trust,
        now,
    )
    &&& p.intent@ == "审阅 "@ + decimal(block_count as nat) + " 个 Ghost 建议块"@
    &&& p.summary@ == "AI 为 `"@ + target_note + "` 创建了 "@ + decimal(block_count as nat) + " 个待审阅建议块。"@
    &&& p.evidence@.map_values(|e: EvidenceRef| evidence_view(e)) == seq![
        EvidenceView { label: "Ghost diff"@, kind: EvidenceKind::Diff, reference: ghost_id, confidence_bits: None, excerpt: None },
    ]
    &&& p.actions@.map_values(|a: ProposalAction| action_view(a)) == seq![
        ActionView { id: "open-diff"@, label: "打开 Diff"@, kind: ProposalActionKind::OpenDiff, payload: json_object_of(seq![("ghost_id"@, ghost_id)]) },
        ActionView { id: "reject"@, label: "拒绝"@, kind: ProposalActionKind::Reject, payload: json_object_of(seq![("ghost_id"@, ghost_id)]) },
    ]
}

/// A refined research result for review: high risk where verification found problems; open
/// the trace or archive.
pub open spec fn scientist_proposal(
    p: BridgeProposal,
    task_id: Seq<char>,
    topic: Seq<char>,
    claim_count: usize,
    violation_count: usize,
    related_notes: Seq<Seq<char>>,
    trust: TrustSnapshot,
    now: u64,
) -> bool {
    &&& fresh_proposal(
        p,
        BridgeProposalSource::Scientist,
        SourceRefKind::ScientistOutput,
        task_id,
        None,
        related_notes,
        false,
        violation_count > 0,
        trust,
        now,
    )
    &&& p.intent@ == "审阅 Scientist 精炼结果: "@ + topic
    &&& p.summary@ == "Scientist 提取了 "@ + decimal(claim_count as nat) + " 条 claims，发现 "@ + decimal(violation_count as nat) + " 个验证问题。"@
    &&& p.evidence@.map_values(|e: EvidenceRef| evidence_view(e)) == seq![
        EvidenceView {
            label: "Scientist verification"@,
            kind: EvidenceKind::Verification,
            reference: task_id,
            confidence_bits: None,
            excerpt: Some("claims="@ + decimal(claim_count as nat) + ", violations="@ + decimal(violation_count as nat)),
        },
    ]
    &&& p.actions@.map_values(|a: ProposalAction| action_view(a)) == seq![
        ActionView { id: "open-trace"@, label: "打开 Trace"@, kind: ProposalActionKind::OpenTrace, payload: json_object_of(seq![("task_id"@, task_id)]) },
        ActionView { id: "archive"@, label: "归档"@, kind: ProposalActionKind::Archive, payload: json_object_of(Seq::empty()) },
    ]
}

/// Dream insights to look back on: no write; archive only.
pub open spec fn dream_proposal(p: BridgeProposal, cycle_id: Seq<char>, insight_count: usize, related_notes: Seq<Seq<char>>, trust: TrustSnapshot, now: u64) -> bool {
    &&& fresh_proposal(
        p,
        BridgeProposalSource::Dream,
        SourceRefKind::DreamInsight,
        cycle_id,
        None,
        related_notes,
        false,
        false,
        trust,
        now,
    )
    &&& p.intent@ == "审阅 Dream 洞察"@
    &&& p.summary@ == "Dream cycle 生成了 "@ + decimal(insight_count as nat) + " 条可回看洞察。"@
    &&& p.evidence@.map_values(|e: EvidenceRef| evidence_view(e)) == seq![
        EvidenceView {
            label: "Dream insights"@,
            kind: EvidenceKind::Trace,
            reference: cycle_id,
            confidence_bits: None,
            excerpt: Some("insights="@ + decimal(insight_count as nat)),
        },
    ]
    &&& p.actions@.map_values(|a: ProposalAction| action_view(a)) == seq![
        ActionView { id: "archive"@, label: "归档"@, kind: ProposalActionKind::Archive, payload: json_object_of(Seq::empty()) },
    ]
}

fn impact_of(notes: Vec<String>, modifies_notes: bool) -> (res: ImpactScope)
    ensures
        impact_view(res) == (ImpactView {
            notes: strings_view(notes@),
            creates_files: false,
            modifies_notes,
            exports_data: false,
            external_side_effect: false,
        }),
{
    ImpactScope { notes, creates_files: false, modifies_notes, exports_data: false, external_side_effect: false }
}

impl BridgeProposal {
    pub fn for_task(task_id: &str, intent: &str, trust_snapshot: TrustSnapshot, now: u64) -> (res: BridgeProposal)
        ensures
            task_proposal(res, task_id@, intent@, trust_snapshot, now),
    {
        let impact = impact_of(Vec::new(), false);
        assert(strings_view(impact.notes@) =~= Seq::<Seq<char>>::empty());
        let mut evidence_list: Vec<EvidenceRef> = Vec::new();
        let e = evidence("Agent task", EvidenceKind::Trace, task_id, Some(owned(intent)));
        let ghost ev = evidence_view(e);
        evidence_list.push(e);
        assert(evidence_list@.map_values(|e: EvidenceRef| evidence_view(e)) =~= seq![ev]);
        let a1 = action("approve", "批准", ProposalActionKind::ApproveTask, payload(one_member("task_id", task_id)));
        let a2 = action("reject", "拒绝", ProposalActionKind::Reject, payload(one_member("task_id", task_id)));
        let ghost (v1, v2) = (action_view(a1), action_view(a2));
        let mut actions: Vec<ProposalAction> = Vec::new();
        actions.push(a1);
        actions.push(a2);
        assert(actions@.map_values(|a: ProposalAction| action_view(a)) =~= seq![v1, v2]);
        let risk = BridgeProposal::classify_risk(&impact, false);
        BridgeProposal {
            id: next_id(),
            intent: owned(intent),
            summary: owned("AI 准备执行一个需要人类确认的任务。"),
            task_type: None,
            sandbox_summary: None,
            expected_output: None,
            risk_reason: None,
            source: BridgeProposalSource::Tool,
            source_ref: SourceRef { kind: SourceRefKind::Task, id: owned(task_id), path: None },
            status: BridgeProposalStatus::Pending,
            evidence: evidence_list,
            impact,
            risk,
            actions,
            trust_snapshot,
            created_at: now,
            updated_at: now,
        }
    }

    pub fn for_scheduler_task(task_id: &str, job_id: &str, trust_snapshot: TrustSnapshot, now: u64) -> (res: BridgeProposal)
        ensures
            scheduler_proposal(res, task_id@, job_id@, trust_snapshot, now),
    {
        let impact = impact_of(Vec::new(), false);
        assert(strings_view(impact.notes@) =~= Seq::<Seq<char>>::empty());
        let mut evidence_list: Vec<EvidenceRef> = Vec::new();
        let e = evidence("Scheduler job", EvidenceKind::Trace, task_id, Some(owned(job_id)));
        let ghost ev = evidence_view(e);
        evidence_list.push(e);
        assert(evidence_list@.map_values(|e: EvidenceRef| evidence_view(e)) =~= seq![ev]);
        let a1 = action("approve", "批准", ProposalActionKind::ApproveTask, payload(two_members("task_id", task_id, "job_id", job_id)));
        let a2 = action("reject", "拒绝", ProposalActionKind::Reject, payload(two_members("task_id", task_id, "job_id", job_id)));
        let ghost (v1, v2) = (action_view(a1), action_view(a2));
        let mut actions: Vec<ProposalAction> = Vec::new();
        actions.push(a1);
        actions.push(a2);
        assert(actions@.map_values(|a: ProposalAction| action_view(a)) =~= seq![v1, v2]);
        let risk = BridgeProposal::classify_risk(&impact, false);
        let intent = crate::text::concat3("审查定时任务: ", job_id, "");
        let summary = crate::text::concat3("Scheduler 触发了 `", job_id, "`，需要人类确认后执行。");
        proof {
            reveal_strlit("");
            assert(intent@ =~= "审查定时任务: "@ + job_id@);
        }
        BridgeProposal {
            id: next_id(),
            intent,
            summary,
            task_type: None,
            sandbox_summary: None,
            expected_output: None,
            risk_reason: None,
            source: BridgeProposalSource::Scheduler,
            source_ref: SourceRef { kind: SourceRefKind::SchedulerJob, id: owned(task_id), path: Some(owned(job_id)) },
            status: BridgeProposalStatus::Pending,
            evidence: evidence_list,
            impact,
            risk,
            actions,
            trust_snapshot,
            created_at: now,
            updated_at: now,
        }
    }

    pub fn for_ghost(ghost_id: &str, target_note: &str, block_count: usize, trust_snapshot: TrustSnapshot, now: u64) -> (res: BridgeProposal)
        ensures
            ghost_proposal(res, ghost_id@, target_note@, block_count, trust_snapshot, now),
    {
        let mut notes: Vec<String> = Vec::new();
        notes.push(owned(target_note));
        let impact = impact_of(notes, true);
        assert(strings_view(impact.notes@) =~= seq![target_note@]);
        let mut evidence_list: Vec<EvidenceRef> = Vec::new();
        let e = evidence("Ghost diff", EvidenceKind::Diff, ghost_id, None);
        let ghost ev = evidence_view(e);
        evidence_list.push(e);
        assert(evidence_list@.map_values(|e: EvidenceRef| evidence_view(e)) =~= seq![ev]);
        let a1 = action("open-diff", "打开 Diff", ProposalActionKind::OpenDiff, payload(one_member("ghost_id", ghost_id)));
        let a2 = action("reject", "拒绝", ProposalActionKind::Reject, payload(one_member("ghost_id", ghost_id)));
        let ghost (v1, v2) = (action_view(a1), action_view(a2));
        let mut actions: Vec<ProposalAction> = Vec::new();
        actions.push(a1);
        actions.push(a2);
        assert(actions@.map_values(|a: ProposalAction| action_view(a)) =~= seq![v1, v2]);
        let risk = BridgeProposal::classify_risk(&impact, false);
        let count = decimal_text(block_count);
        let intent = concat("审阅 ", &count, " 个 Ghost 建议块");
        let mut s: Vec<char> = Vec::new();
        push_str(&mut s, "AI 为 `");
        push_str(&mut s, target_note);
        push_str(&mut s, "` 创建了 ");
        append_chars(&mut s, &count);
        push_str(&mut s, " 个待审阅建议块。");
        BridgeProposal {
            id: next_id(),
            intent,
            summary: string_of(&s),
            task_type: None,
            sandbox_summary: None,
            expected_output: None,
            risk_reason: None,
            source: BridgeProposalSource::GhostNote,
            source_ref: SourceRef { kind: SourceRefKind::GhostNote, id: owned(ghost_id), path: Some(owned(target_note)) },
            status: BridgeProposalStatus::Pending,
            evidence: evidence_list,
            impact,
            risk,
            actions,
            trust_snapshot,
            created_at: now,
            updated_at: now,
        }
    }

    pub fn for_scientist_result(
        task_id: &str,
        topic: &str,
        claim_count: usize,
        violation_count: usize,
        related_notes: Vec<String>,
        trust_snapshot: TrustSnapshot,
        now: u64,
    ) -> (res: BridgeProposal)
        ensures
            scientist_proposal(res, task_id@, topic@, claim_count, violation_count, strings_view(related_notes@), trust_snapshot, now),
    {
        let ghost notes_view = strings_view(related_notes@);
        let impact = impact_of(related_notes, false);
        let claims = decimal_text(claim_count);
        let violations = decimal_text(violation_count);
        let mut x: Vec<char> = Vec::new();
        push_str(&mut x, "claims=");
        append_chars(&mut x, &claims);
        push_str(&mut x, ", violations=");
        append_chars(&mut x, &violations);
        let mut evidence_list: Vec<EvidenceRef> = Vec::new();
        let e = evidence("Scientist verification", EvidenceKind::Verification, task_id, Some(string_of(&x)));
        let ghost ev = evidence_view(e);
        evidence_list.push(e);
        assert(evidence_list@.map_values(|e: EvidenceRef| evidence_view(e)) =~= seq![ev]);
        let a1 = action("open-trace", "打开 Trace", ProposalActionKind::OpenTrace, payload(one_member("task_id", task_id)));
        let a2 = action("archive", "归档", ProposalActionKind::Archive, payload(no_members()));
        let ghost (v1, v2) = (action_view(a1), action_view(a2));
        let mut actions: Vec<ProposalAction> = Vec::new();
        actions.push(a1);
        actions.push(a2);
        assert(actions@.map_values(|a: ProposalAction| action_view(a)) =~= seq![v1, v2]);
        let risk = BridgeProposal::classify_risk(&impact, violation_count > 0);
        let intent = crate::text::concat3("审阅 Scientist 精炼结果: ", topic, "");
        proof {
            reveal_strlit("");
            assert(intent@ =~= "审阅 Scientist 精炼结果: "@ + topic@);
        }
        let mut s: Vec<char> = Vec::new();
        push_str(&mut s, "Scientist 提取了 ");
        append_chars(&mut s, &claims);
        push_str(&mut s, " 条 claims，发现 ");
        append_chars(&mut s, &violations);
        push_str(&mut s, " 个验证问题。");
        BridgeProposal {
            id: next_id(),
            intent,
            summary: string_of(&s),
            task_type: None,
            sandbox_summary: None,
            expected_output: None,
            risk_reason: None,
            source: BridgeProposalSource::Scientist,
            source_ref: SourceRef { kind: SourceRefKind::ScientistOutput, id: owned(task_id), path: None },
            status: BridgeProposalStatus::Pending,
            evidence: evidence_list,
            impact,
            risk,
            actions,
            trust_snapshot,
            created_at: now,
            updated_at: now,
        }
    }

    pub fn for_dream_cycle(cycle_id: &str, insight_count: usize, related_notes: Vec<String>, trust_snapshot: TrustSnapshot, now: u64) -> (res: BridgeProposal)
        ensures
            dream_proposal(res, cycle_id@, insight_count, strings_view(related_notes@), trust_snapshot, now),
    {
        let impact = impact_of(related_notes, false);
        let count = decimal_text(insight_count);
        let mut x: Vec<char> = Vec::new();
        push_str(&mut x, "insights=");
        append_chars(&mut x, &count);
        let mut evidence_list: Vec<EvidenceRef> = Vec::new();
        let e = evidence("Dream insights", EvidenceKind::Trace, cycle_id, Some(string_of(&x)));
        let ghost ev = evidence_view(e);
        evidence_list.push(e);
        assert(evidence_list@.map_values(|e: EvidenceRef| evidence_view(e)) =~= seq![ev]);
        let a1 = action("archive", "归档", ProposalActionKind::Archive, payload(no_members()));
        let ghost v1 = action_view(a1);
        let mut actions: Vec<ProposalAction> = Vec::new();
        actions.push(a1);
        assert(actions@.map_values(|a: ProposalAction| action_view(a)) =~= seq![v1]);
        let risk = BridgeProposal::classify_risk(&impact, false);
        BridgeProposal {
            id: next_id(),
            intent: owned("审阅 Dream 洞察"),
            summary: concat("Dream cycle 生成了 ", &count, " 条可回看洞察。"),
            task_type: None,
            sandbox_summary: None,
            expected_output: None,
            risk_reason: None,
            source: BridgeProposalSource::Dream,
            source_ref: SourceRef { kind: SourceRefKind::DreamInsight, id: owned(cycle_id), path: None },
            status: BridgeProposalStatus::Pending,
            evidence: evidence_list,
            impact,
            risk,
            actions,
            trust_snapshot,
            created_at: now,
            updated_at: now,
        }
    }
}

/// A proposal that modifies a note, exports data, touches the outside or failed verification
/// is high risk whatever else it does; of the proposals made here, only ghost blocks modify
/// notes.
pub proof fn lemma_risk_is_conservative(impact: ImpactScope, violations: bool)
    ensures
        (impact.modifies_notes || impact.exports_data || impact.external_side_effect || violations) ==> risk_of(
            impact,
            violations,
        ) == ProposalRisk::High,
        risk_of(impact, violations) == ProposalRisk::Low ==> impact.notes@.len() <= 1 && !impact.creates_files,
{
}

} // verus!

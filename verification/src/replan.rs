//! What a replanning orchestrator is given: digests of the step reports, a summary of the
//! run, the verifier findings and the runtime policies; and what it may answer.

use vstd::prelude::*;
use crate::text::{copy_strings, owned, strings_view, trim, trim_chars, chars_of};
use crate::completion::{finding_view, findings_view, FindingView};
use crate::workflow::{
    copy_usizes, validate_ok, AgentRegistry, AgentEntryView, ArtifactRef, GoalContract, RunStatus,
    RuntimePolicies, StepReportStatus, SuggestedNextStep, VerificationFinding, VerificationLevel,
    VerificationOutcome, WorkflowError, WorkflowErrorView, WorkflowIr, WorkflowIrView, WorkflowPatch,
    WorkflowRunState, WorkflowStateSummary, WorkflowStatus, WorkflowStepStatus, WorkflowStepView,
};

verus! {

/// A place in a file that backs a claim.
#[derive(Debug, Clone, PartialEq, Eq)]
pub struct EvidenceRef {
    pub file: String,
    pub lines: Vec<usize>,
    pub claim: String,
}

/// What a step reported. Its confidence is kept as the bit pattern of the 32-bit float it was
/// given as.
#[derive(Debug, Clone)]
pub struct StepReport {
    pub report_id: String,
    pub step_id: String,
    pub attempt: usize,
    pub status: StepReportStatus,
    pub summary: String,
    pub artifacts: Vec<ArtifactRef>,
    pub evidence: Vec<EvidenceRef>,
    pub risks: Vec<String>,
    pub blocked_by: Vec<String>,
    pub suggested_next_steps: Vec<SuggestedNextStep>,
    pub resource_usage: serde_json::Value,
    pub confidence_bits: u32,
}

/// A step report as the orchestrator sees it: ids and claims, not artifact bodies.
#[derive(Debug, Clone)]
pub struct StepReportDigestEntry {
    pub report_id: String,
    pub step_id: String,
    pub status: StepReportStatus,
    pub summary: String,
    pub artifact_ids: Vec<String>,
    pub evidence_claims: Vec<String>,
    pub risks: Vec<String>,
    pub blocked_by: Vec<String>,
    pub suggested_next_steps: Vec<String>,
    pub confidence_bits: u32,
}

#[derive(Debug, Clone)]
pub struct StepReportsDigest {
    pub entries: Vec<StepReportDigestEntry>,
}

pub struct DigestEntryView {
    pub report_id: Seq<char>,
    pub step_id: Seq<char>,
    pub status: StepReportStatus,
    pub summary: Seq<char>,
    pub artifact_ids: Seq<Seq<char>>,
    pub evidence_claims: Seq<Seq<char>>,
    pub risks: Seq<Seq<char>>,
    pub blocked_by: Seq<Seq<char>>,
    pub suggested_next_steps: Seq<Seq<char>>,
    pub confidence_bits: u32,
}

pub open spec fn digest_entry_view(e: StepReportDigestEntry) -> DigestEntryView {
    DigestEntryView {
        report_id: e.report_id@,
        step_id: e.step_id@,
        status: e.status,
        summary: e.summary@,
        artifact_ids: strings_view(e.artifact_ids@),
        evidence_claims: strings_view(e.evidence_claims@),
        risks: strings_view(e.risks@),
        blocked_by: strings_view(e.blocked_by@),
        suggested_next_steps: strings_view(e.suggested_next_steps@),
        confidence_bits: e.confidence_bits,
    }
}

/// The digest of a report: its ids, status, summary, the ids of its artifacts, the claims of
/// its evidence, its risks and blockers, the proposals it suggests, and its confidence.
pub open spec fn digest_of(r: StepReport) -> DigestEntryView {
    DigestEntryView {
        report_id: r.report_id@,
        step_id: r.step_id@,
        status: r.status,
        summary: r.summary@,
        artifact_ids: r.artifacts@.map_values(|a: ArtifactRef| a.artifact_id@),
        evidence_claims: r.evidence@.map_values(|e: EvidenceRef| e.claim@),
        risks: strings_view(r.risks@),
        blocked_by: strings_view(r.blocked_by@),
        suggested_next_steps: r.suggested_next_steps@.map_values(|s: SuggestedNextStep| s.proposal@),
        confidence_bits: r.confidence_bits,
    }
}

pub(crate) fn artifact_ids_of(v: &Vec<ArtifactRef>) -> (res: Vec<String>)
    ensures
        strings_view(res@) == v@.map_values(|a: ArtifactRef| a.artifact_id@),
{
    let mut out: Vec<String> = Vec::new();
    let mut i: usize = 0;
    while i < v.len()
        invariant
            i <= v.len(),
            strings_view(out@) == v@.take(i as int).map_values(|a: ArtifactRef| a.artifact_id@),
        decreases v.len() - i,
    {
        let ghost before = strings_view(out@);
        out.push(v[i].artifact_id.clone());
        assert(strings_view(out@) =~= before.push(v@[i as int].artifact_id@));
        assert(v@.take(i + 1).map_values(|a: ArtifactRef| a.artifact_id@) =~= v@.take(i as int).map_values(|a: ArtifactRef| a.artifact_id@).push(v@[i as int].artifact_id@));
        i = i + 1;
    }
    assert(v@.take(v.len() as int) =~= v@);
    out
}

fn claims_of(v: &Vec<EvidenceRef>) -> (res: Vec<String>)
    ensures
        strings_view(res@) == v@.map_values(|e: EvidenceRef| e.claim@),
{
    let mut out: Vec<String> = Vec::new();
    let mut i: usize = 0;
    while i < v.len()
        invariant
            i <= v.len(),
            strings_view(out@) == v@.take(i as int).map_values(|e: EvidenceRef| e.claim@),
        decreases v.len() - i,
    {
        let ghost before = strings_view(out@);
        out.push(v[i].claim.clone());
        assert(strings_view(out@) =~= before.push(v@[i as int].claim@));
        assert(v@.take(i + 1).map_values(|e: EvidenceRef| e.claim@) =~= v@.take(i as int).map_values(|e: EvidenceRef| e.claim@).push(v@[i as int].claim@));
        i = i + 1;
    }
    assert(v@.take(v.len() as int) =~= v@);
    out
}

fn proposals_of(v: &Vec<SuggestedNextStep>) -> (res: Vec<String>)
    ensures
        strings_view(res@) == v@.map_values(|s: SuggestedNextStep| s.proposal@),
{
    let mut out: Vec<String> = Vec::new();
    let mut i: usize = 0;
    while i < v.len()
        invariant
            i <= v.len(),
            strings_view(out@) == v@.take(i as int).map_values(|s: SuggestedNextStep| s.proposal@),
        decreases v.len() - i,
    {
        let ghost before = strings_view(out@);
        out.push(v[i].proposal.clone());
        assert(strings_view(out@) =~= before.push(v@[i as int].proposal@));
        assert(v@.take(i + 1).map_values(|s: SuggestedNextStep| s.proposal@) =~= v@.take(i as int).map_values(|s: SuggestedNextStep| s.proposal@).push(v@[i as int].proposal@));
        i = i + 1;
    }
    assert(v@.take(v.len() as int) =~= v@);
    out
}

impl StepReportsDigest {
    /// One entry per report, in order.
    pub fn from_reports(reports: &Vec<StepReport>) -> (res: StepReportsDigest)
        ensures
            res.entries@.map_values(|e: StepReportDigestEntry| digest_entry_view(e)) == reports@.map_values(
                |r: StepReport| digest_of(r),
            ),
    {
        let mut entries: Vec<StepReportDigestEntry> = Vec::new();
        let mut i: usize = 0;
        while i < reports.len()
            invariant
                i <= reports.len(),
                entries@.map_values(|e: StepReportDigestEntry| digest_entry_view(e)) == reports@.take(
                    i as int,
                ).map_values(|r: StepReport| digest_of(r)),
            decreases reports.len() - i,
        {
            let r = &reports[i];
            let e = StepReportDigestEntry {
                report_id: r.report_id.clone(),
                step_id: r.step_id.clone(),
                status: r.status,
                summary: r.summary.clone(),
                artifact_ids: artifact_ids_of(&r.artifacts),
                evidence_claims: claims_of(&r.evidence),
                risks: copy_strings(&r.risks),
                blocked_by: copy_strings(&r.blocked_by),
                suggested_next_steps: proposals_of(&r.suggested_next_steps),
                confidence_bits: r.confidence_bits,
            };
            let ghost before = entries@.map_values(|e: StepReportDigestEntry| digest_entry_view(e));
            entries.push(e);
            assert(entries@.map_values(|e: StepReportDigestEntry| digest_entry_view(e)) =~= before.push(digest_entry_view(e)));
            assert(reports@.take(i + 1).map_values(|r: StepReport| digest_of(r)) =~= reports@.take(i as int).map_values(
                |r: StepReport| digest_of(r),
            ).push(digest_of(reports@[i as int])));
            i = i + 1;
        }
        assert(reports@.take(reports.len() as int) =~= reports@);
        StepReportsDigest { entries }
    }
}

// ---------------------------------------------------------------------------------------
// Run summary and runtime policies.
// ---------------------------------------------------------------------------------------

/// The ids of the steps whose status is among `statuses`, in order.
pub open spec fn ids_with_status(steps: Seq<WorkflowStepView>, statuses: Seq<WorkflowStepStatus>) -> Seq<Seq<char>>
    decreases steps.len(),
{
    if steps.len() == 0 {
        Seq::empty()
    } else {
        let rest = ids_with_status(steps.drop_last(), statuses);
        if statuses.contains(steps.last().status) {
            rest.push(steps.last().step_id)
        } else {
            rest
        }
    }
}

fn step_ids_with_statuses(workflow: &WorkflowIr, statuses: &[WorkflowStepStatus]) -> (res: Vec<String>)
    ensures
        strings_view(res@) == ids_with_status(workflow@.steps, statuses@),
{
    let ghost sv = workflow@.steps;
    let mut out: Vec<String> = Vec::new();
    let mut i: usize = 0;
    while i < workflow.steps.len()
        invariant
            i <= workflow.steps.len(),
            sv == workflow@.steps,
            sv.len() == workflow.steps@.len(),
            strings_view(out@) == ids_with_status(sv.take(i as int), statuses@),
        decreases workflow.steps.len() - i,
    {
        assert(sv.take(i + 1).drop_last() == sv.take(i as int));
        assert(sv.take(i + 1).last() == workflow.steps@[i as int]@);
        let st = workflow.steps[i].status;
        let mut found = false;
        let mut k: usize = 0;
        while k < statuses.len()
            invariant
                k <= statuses@.len(),
                found == statuses@.take(k as int).contains(st),
            decreases statuses@.len() - k,
        {
            proof {
                assert(statuses@.take(k + 1) == statuses@.take(k as int).push(statuses@[k as int]));
                crate::link_graph::lemma_push_contains(statuses@.take(k as int), statuses@[k as int], st);
            }
            if statuses[k] == st {
                found = true;
            }
            k = k + 1;
        }
        assert(statuses@.take(statuses@.len() as int) == statuses@);
        if found {
            let ghost before = strings_view(out@);
            out.push(workflow.steps[i].step_id.clone());
            assert(strings_view(out@) =~= before.push(sv[i as int].step_id));
        }
        i = i + 1;
    }
    assert(sv.take(workflow.steps.len() as int) == sv);
    out
}

/// A summary of where a run stands: the workflow's and run's ids, versions and statuses, the
/// active steps, and the steps pending (pending or ready), verified, failed and blocked.
pub open spec fn summary_ok(s: WorkflowStateSummary, w: WorkflowIrView, run: WorkflowRunState) -> bool {
    &&& s.workflow_id@ == w.workflow_id
    &&& s.workflow_version == w.version
    &&& s.workflow_status == w.status
    &&& s.run_id@ == run.run_id@
    &&& s.run_status == run.status
    &&& strings_view(s.active_step_ids@) == strings_view(run.active_step_ids@)
    &&& strings_view(s.pending_step_ids@) == ids_with_status(
        w.steps,
        seq![WorkflowStepStatus::Pending, WorkflowStepStatus::Ready],
    )
    &&& strings_view(s.verified_step_ids@) == ids_with_status(w.steps, seq![WorkflowStepStatus::Verified])
    &&& strings_view(s.failed_step_ids@) == ids_with_status(w.steps, seq![WorkflowStepStatus::Failed])
    &&& strings_view(s.blocked_step_ids@) == ids_with_status(w.steps, seq![WorkflowStepStatus::Blocked])
    &&& s.context_digest_version == run.context_digest_version
}

impl WorkflowStateSummary {
    pub fn from_runtime(workflow: &WorkflowIr, run: &WorkflowRunState) -> (res: WorkflowStateSummary)
        ensures
            summary_ok(res, workflow@, *run),
    {
        let pending_statuses = [WorkflowStepStatus::Pending, WorkflowStepStatus::Ready];
        let verified_statuses = [WorkflowStepStatus::Verified];
        let failed_statuses = [WorkflowStepStatus::Failed];
        let blocked_statuses = [WorkflowStepStatus::Blocked];
        let pending = step_ids_with_statuses(workflow, &pending_statuses);
        let verified = step_ids_with_statuses(workflow, &verified_statuses);
        let failed = step_ids_with_statuses(workflow, &failed_statuses);
        let blocked = step_ids_with_statuses(workflow, &blocked_statuses);
        assert(pending_statuses@ =~= seq![WorkflowStepStatus::Pending, WorkflowStepStatus::Ready]);
        assert(verified_statuses@ =~= seq![WorkflowStepStatus::Verified]);
        assert(failed_statuses@ =~= seq![WorkflowStepStatus::Failed]);
        assert(blocked_statuses@ =~= seq![WorkflowStepStatus::Blocked]);
        WorkflowStateSummary {
            workflow_id: workflow.workflow_id.clone(),
            workflow_version: workflow.version,
            workflow_status: workflow.status,
            run_id: run.run_id.clone(),
            run_status: run.status,
            active_step_ids: copy_strings(&run.active_step_ids),
            pending_step_ids: pending,
            verified_step_ids: verified,
            failed_step_ids: failed,
            blocked_step_ids: blocked,
            context_digest_version: run.context_digest_version,
        }
    }
}

/// The policies of a run: the workflow's limits, whether some agent may delegate, and the
/// three answers an orchestrator may give.
pub open spec fn policies_ok(p: RuntimePolicies, w: WorkflowIrView, registry: AgentRegistry) -> bool {
    &&& p.max_parallel_steps == w.control_policy.max_parallel_steps
    &&& p.max_patch_chain == w.control_policy.max_patch_chain
    &&& p.replan_on_verification_fail == w.control_policy.replan_on_verification_fail
    &&& p.allow_subagent_delegation == exists|name: Seq<char>|
        #[trigger] registry.lookup(name) is Some && registry.lookup(name)->0.can_delegate
    &&& strings_view(p.allowed_orchestrator_outputs@) == seq!["workflow_create"@, "workflow_patch"@, "cannot_proceed"@]
}

impl RuntimePolicies {
    pub fn from_workflow(workflow: &WorkflowIr, registry: &AgentRegistry) -> (res: RuntimePolicies)
        requires
            registry.well_formed(),
        ensures
            policies_ok(res, workflow@, *registry),
    {
        let mut outputs: Vec<String> = Vec::new();
        outputs.push(owned("workflow_create"));
        outputs.push(owned("workflow_patch"));
        outputs.push(owned("cannot_proceed"));
        assert(strings_view(outputs@) =~= seq!["workflow_create"@, "workflow_patch"@, "cannot_proceed"@]);
        RuntimePolicies {
            max_parallel_steps: workflow.control_policy.max_parallel_steps,
            max_patch_chain: workflow.control_policy.max_patch_chain,
            replan_on_verification_fail: workflow.control_policy.replan_on_verification_fail,
            allow_subagent_delegation: registry.any_can_delegate(),
            allowed_orchestrator_outputs: outputs,
        }
    }
}

// ---------------------------------------------------------------------------------------
// What an orchestrator answers.
// ---------------------------------------------------------------------------------------

/// An orchestrator's answer: a new workflow, a patch of the current one, or a reasoned refusal.
#[derive(Debug, Clone)]
pub enum OrchestratorOutput {
    WorkflowCreate { workflow: WorkflowIr },
    WorkflowPatch { patch: WorkflowPatch },
    CannotProceed { reason_code: String, summary: String },
}

/// Whether an answer is acceptable: a new workflow must validate against the goal and
/// registry; a patch must have some edit; a refusal must give a reason code and a summary
/// that are not blank.
pub open spec fn output_ok(o: OrchestratorOutput, goal: GoalContract, registry: AgentRegistry, res: Result<(), WorkflowError>) -> bool {
    match o {
        OrchestratorOutput::WorkflowCreate { workflow } => validate_ok(workflow@, goal, registry, res),
        OrchestratorOutput::WorkflowPatch { patch } => if patch.ops@.len() == 0 {
            res is Err && res->Err_0@ == WorkflowErrorView::EmptyPatch(patch.patch_id@)
        } else {
            res is Ok
        },
        OrchestratorOutput::CannotProceed { reason_code, summary } => if trim(reason_code@).len() == 0 || trim(
            summary@,
        ).len() == 0 {
            res is Err && res->Err_0@ == WorkflowErrorView::InvalidCannotProceed
        } else {
            res is Ok
        },
    }
}

impl OrchestratorOutput {
    pub fn validate(&self, goal: &GoalContract, registry: &AgentRegistry) -> (res: Result<(), WorkflowError>)
        requires
            registry.well_formed(),
        ensures
            output_ok(*self, *goal, *registry, res),
    {
        match self {
            OrchestratorOutput::WorkflowCreate { workflow } => workflow.validate(goal, registry),
            OrchestratorOutput::WorkflowPatch { patch } => {
                if patch.ops.len() == 0 {
                    return Err(WorkflowError::EmptyPatch(patch.patch_id.clone()));
                }
                Ok(())
            },
            OrchestratorOutput::CannotProceed { reason_code, summary } => {
                let r = trim_chars(&chars_of(reason_code.as_str()));
                let s = trim_chars(&chars_of(summary.as_str()));
                if r.len() == 0 || s.len() == 0 {
                    return Err(WorkflowError::InvalidCannotProceed);
                }
                Ok(())
            },
        }
    }
}

// ---------------------------------------------------------------------------------------
// The replan request.
// ---------------------------------------------------------------------------------------

pub struct GoalView {
    pub goal_id: Seq<char>,
    pub goal_text: Seq<char>,
    pub success_definition: Seq<Seq<char>>,
    pub non_goals: Seq<Seq<char>>,
    pub constraints: serde_json::Value,
    pub context_scope: Seq<Seq<char>>,
    pub approval_policy: serde_json::Value,
    pub budget: serde_json::Value,
    pub created_at: Seq<char>,
}

pub open spec fn goal_view(g: GoalContract) -> GoalView {
    GoalView {
        goal_id: g.goal_id@,
        goal_text: g.goal_text@,
        success_definition: strings_view(g.success_definition@),
        non_goals: strings_view(g.non_goals@),
        constraints: g.constraints,
        context_scope: strings_view(g.context_scope@),
        approval_policy: g.approval_policy,
        budget: g.budget,
        created_at: g.created_at@,
    }
}

fn copy_goal(g: &GoalContract) -> (res: GoalContract)
    ensures
        goal_view(res) == goal_view(*g),
{
    GoalContract {
        goal_id: g.goal_id.clone(),
        goal_text: g.goal_text.clone(),
        success_definition: copy_strings(&g.success_definition),
        non_goals: copy_strings(&g.non_goals),
        constraints: g.constraints.clone(),
        context_scope: copy_strings(&g.context_scope),
        approval_policy: g.approval_policy.clone(),
        budget: g.budget.clone(),
        created_at: g.created_at.clone(),
    }
}

fn copy_findings(v: &Vec<VerificationFinding>) -> (res: Vec<VerificationFinding>)
    ensures
        findings_view(res@) == findings_view(v@),
{
    let mut out: Vec<VerificationFinding> = Vec::new();
    let mut i: usize = 0;
    while i < v.len()
        invariant
            i <= v.len(),
            findings_view(out@) == findings_view(v@.take(i as int)),
        decreases v.len() - i,
    {
        let f = &v[i];
        let c = VerificationFinding {
            verification_id: f.verification_id.clone(),
            level: f.level,
            target: f.target.clone(),
            result: f.result,
            failed_clauses: copy_usizes(&f.failed_clauses),
            reason_code: f.reason_code.clone(),
            summary: f.summary.clone(),
            evidence_refs: copy_strings(&f.evidence_refs),
            minimal_fix_surface: copy_strings(&f.minimal_fix_surface),
        };
        let ghost before = findings_view(out@);
        out.push(c);
        assert(findings_view(out@) =~= before.push(finding_view(c)));
        assert(findings_view(v@.take(i + 1)) =~= findings_view(v@.take(i as int)).push(finding_view(v@[i as int])));
        i = i + 1;
    }
    assert(v@.take(v.len() as int) =~= v@);
    out
}

/// All an orchestrator is given to replan a run.
#[derive(Debug, Clone)]
pub struct OrchestratorReplanRequest {
    pub goal_contract: GoalContract,
    pub workflow_state_summary: WorkflowStateSummary,
    pub step_reports_digest: StepReportsDigest,
    pub verifier_findings: Vec<VerificationFinding>,
    pub agent_registry: AgentRegistry,
    pub runtime_policies: RuntimePolicies,
}

impl OrchestratorReplanRequest {
    /// The six inputs of a replan: the goal, a summary of the run, the digests of the reports
    /// (not their artifacts), the findings, the registry and the policies.
    pub fn from_runtime(
        goal: &GoalContract,
        workflow: &WorkflowIr,
        run: &WorkflowRunState,
        reports: &Vec<StepReport>,
        findings: &Vec<VerificationFinding>,
        registry: &AgentRegistry,
    ) -> (res: OrchestratorReplanRequest)
        requires
            registry.well_formed(),
        ensures
            goal_view(res.goal_contract) == goal_view(*goal),
            summary_ok(res.workflow_state_summary, workflow@, *run),
            res.step_reports_digest.entries@.map_values(|e: StepReportDigestEntry| digest_entry_view(e))
                == reports@.map_values(|r: StepReport| digest_of(r)),
            findings_view(res.verifier_findings@) == findings_view(findings@),
            res.agent_registry.entries_view() == registry.entries_view(),
            policies_ok(res.runtime_policies, workflow@, *registry),
    {
        OrchestratorReplanRequest {
            goal_contract: copy_goal(goal),
            workflow_state_summary: WorkflowStateSummary::from_runtime(workflow, run),
            step_reports_digest: StepReportsDigest::from_reports(reports),
            verifier_findings: copy_findings(findings),
            agent_registry: registry.copied(),
            runtime_policies: RuntimePolicies::from_workflow(workflow, registry),
        }
    }
}

} // verus!

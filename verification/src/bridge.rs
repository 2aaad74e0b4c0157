//! Bridge proposals: the statuses a proposal moves through and how they are named.

use vstd::prelude::*;
use crate::text::{ascii_lower, chars_are, chars_of, concat3, to_ascii_lowercase, join_path, path_join, push_str, string_of, owned};
use crate::dispatch::{json_member, json_member_value, json_as_text, json_string_text};

verus! {

#[derive(Debug, Clone, Copy, PartialEq, Eq, Structural)]
pub enum BridgeProposalSource {
    Tool,
    Scientist,
    Dream,
    GhostNote,
    Scheduler,
}

#[derive(Debug, Clone, Copy, PartialEq, Eq, Structural)]
pub enum SourceRefKind {
    Task,
    GhostNote,
    DreamInsight,
    ScientistOutput,
    SchedulerJob,
    ToolCall,
}

/// What a proposal came from.
#[derive(Debug, Clone, PartialEq, Eq)]
pub struct SourceRef {
    pub kind: SourceRefKind,
    pub id: String,
    pub path: Option<String>,
}

#[derive(Debug, Clone, Copy, PartialEq, Eq, Structural)]
pub enum EvidenceKind {
    Note,
    Chunk,
    Trace,
    ToolResult,
    Verification,
    Diff,
}

/// What carrying out a proposal would touch.
#[derive(Debug, Clone, Default, PartialEq, Eq)]
pub struct ImpactScope {
    pub notes: Vec<String>,
    pub creates_files: bool,
    pub modifies_notes: bool,
    pub exports_data: bool,
    pub external_side_effect: bool,
}

#[derive(Debug, Clone, Copy, PartialEq, Eq, Structural)]
pub enum ProposalRisk {
    Low,
    Medium,
    High,
}

#[derive(Debug, Clone, Copy, PartialEq, Eq, Structural)]
pub enum BridgeProposalStatus {
    Pending,
    Approved,
    Rejected,
    Applied,
    Archived,
}

#[derive(Debug, Clone, Copy, PartialEq, Eq, Structural)]
pub enum ProposalActionKind {
    ApproveTask,
    OpenDiff,
    OpenTrace,
    ApplyGhost,
    Reject,
    Archive,
}

/// The wire name of a status.
pub open spec fn status_name(s: BridgeProposalStatus) -> Seq<char> {
    match s {
        BridgeProposalStatus::Pending => "pending"@,
        BridgeProposalStatus::Approved => "approved"@,
        BridgeProposalStatus::Rejected => "rejected"@,
        BridgeProposalStatus::Applied => "applied"@,
        BridgeProposalStatus::Archived => "archived"@,
    }
}

/// The status a lower-case name stands for.
pub open spec fn status_named(n: Seq<char>) -> Option<BridgeProposalStatus> {
    if n == "pending"@ {
        Some(BridgeProposalStatus::Pending)
    } else if n == "approved"@ {
        Some(BridgeProposalStatus::Approved)
    } else if n == "rejected"@ {
        Some(BridgeProposalStatus::Rejected)
    } else if n == "applied"@ {
        Some(BridgeProposalStatus::Applied)
    } else if n == "archived"@ {
        Some(BridgeProposalStatus::Archived)
    } else {
        None
    }
}

/// What parsing a status name answers: the status its ASCII lower case names, or an error
/// that quotes the name.
pub open spec fn parse_status_spec(value: Seq<char>) -> Result<BridgeProposalStatus, Seq<char>> {
    match status_named(ascii_lower(value)) {
        Some(s) => Ok(s),
        None => Err("Unknown bridge proposal status: "@ + value + ""@),
    }
}

pub open spec fn status_result_view(r: Result<BridgeProposalStatus, String>) -> Result<BridgeProposalStatus, Seq<char>> {
    match r {
        Ok(s) => Ok(s),
        Err(e) => Err(e@),
    }
}

impl BridgeProposalStatus {
    /// Reads a status name, ignoring ASCII case.
    pub fn parse(value: &str) -> (res: Result<BridgeProposalStatus, String>)
        ensures
            status_result_view(res) == parse_status_spec(value@),
    {
        let cs = chars_of(value);
        let low = to_ascii_lowercase(&cs);
        if chars_are(&low, "pending") {
            Ok(BridgeProposalStatus::Pending)
        } else if chars_are(&low, "approved") {
            Ok(BridgeProposalStatus::Approved)
        } else if chars_are(&low, "rejected") {
            Ok(BridgeProposalStatus::Rejected)
        } else if chars_are(&low, "applied") {
            Ok(BridgeProposalStatus::Applied)
        } else if chars_are(&low, "archived") {
            Ok(BridgeProposalStatus::Archived)
        } else {
            Err(concat3("Unknown bridge proposal status: ", value, ""))
        }
    }

    /// The wire name of the status.
    pub fn as_str(&self) -> (res: &'static str)
        ensures
            res@ == status_name(*self),
    {
        match self {
            BridgeProposalStatus::Pending => "pending",
            BridgeProposalStatus::Approved => "approved",
            BridgeProposalStatus::Rejected => "rejected",
            BridgeProposalStatus::Applied => "applied",
            BridgeProposalStatus::Archived => "archived",
        }
    }
}

/// Every status reads back from its own name.
pub proof fn lemma_status_name_round_trip(s: BridgeProposalStatus)
    ensures
        parse_status_spec(status_name(s)) == Ok::<BridgeProposalStatus, Seq<char>>(s),
{
    reveal_strlit("pending");
    reveal_strlit("approved");
    reveal_strlit("rejected");
    reveal_strlit("applied");
    reveal_strlit("archived");
    assert(ascii_lower(status_name(s)) =~= status_name(s));
    let n = status_name(s);
    match s {
        BridgeProposalStatus::Pending => {},
        BridgeProposalStatus::Approved => {
            assert(n.len() != "pending"@.len());
        },
        BridgeProposalStatus::Rejected => {
            assert(n.len() != "pending"@.len());
            assert(n[0] != "approved"@[0]);
        },
        BridgeProposalStatus::Applied => {
            assert(n[0] != "pending"@[0]);
            assert(n.len() != "approved"@.len());
        },
        BridgeProposalStatus::Archived => {
            assert(n.len() != "pending"@.len());
            assert(n[1] != "approved"@[1]);
            assert(n[0] != "rejected"@[0]);
            assert(n.len() != "applied"@.len());
        },
    }
}

/// Reads a status name given by a caller.
pub fn parse_status(status: &str) -> (res: Result<BridgeProposalStatus, String>)
    ensures
        status_result_view(res) == parse_status_spec(status@),
{
    BridgeProposalStatus::parse(status)
}

/// What a direct status update accepts: only archiving; the other statuses come from
/// executing a bridge action.
pub open spec fn direct_status_spec(status: Seq<char>) -> Result<BridgeProposalStatus, Seq<char>> {
    match parse_status_spec(status) {
        Err(e) => Err(e),
        Ok(BridgeProposalStatus::Archived) => Ok(BridgeProposalStatus::Archived),
        Ok(_) => Err("Bridge proposal status '"@ + status + "' requires a bridge action"@),
    }
}

/// Reads a status for a direct update, refusing those that need a bridge action.
pub fn parse_direct_status_update(status: &str) -> (res: Result<BridgeProposalStatus, String>)
    ensures
        status_result_view(res) == direct_status_spec(status@),
{
    let parsed = match parse_status(status) {
        Err(e) => return Err(e),
        Ok(p) => p,
    };
    match parsed {
        BridgeProposalStatus::Archived => Ok(parsed),
        _ => Err(concat3("Bridge proposal status '", status, "' requires a bridge action")),
    }
}

/// Whether a source reference points at a task or a scheduled job.
pub fn source_ref_is_task_like(kind: &SourceRefKind) -> (res: bool)
    ensures
        res == (*kind == SourceRefKind::Task || *kind == SourceRefKind::SchedulerJob),
{
    match kind {
        SourceRefKind::Task | SourceRefKind::SchedulerJob => true,
        _ => false,
    }
}


// ---------------------------------------------------------------------------------------------
// The proposal store and executing proposal actions
// ---------------------------------------------------------------------------------------------

/// One action a proposal offers.
#[derive(Debug, Clone)]
pub struct ProposalAction {
    pub id: String,
    pub label: String,
    pub kind: ProposalActionKind,
    pub payload: serde_json::Value,
}

/// Bridge proposals kept in `<root>/proposals.json`.
#[derive(Debug, Clone)]
pub struct BridgeProposalStore {
    root: String,
}

impl BridgeProposalStore {
    /// A store rooted at the directory.
    pub fn new(root: &str) -> (res: BridgeProposalStore)
        ensures
            res.root_dir()@ == root@,
    {
        BridgeProposalStore { root: owned(root) }
    }

    pub closed spec fn root_dir(&self) -> String {
        self.root
    }

    /// The directory of the store.
    pub fn root(&self) -> (res: String)
        ensures
            res@ == self.root_dir()@,
    {
        self.root.clone()
    }

    /// The file that holds the proposals.
    pub fn file_path(&self) -> (res: String)
        ensures
            res@ == path_join(self.root_dir()@, "proposals.json"@),
    {
        join_path(self.root.as_str(), "proposals.json")
    }
}

/// The store of a `.dualtrack` directory: its `bridge` subdirectory.
pub fn store_for_dualtrack_dir(dualtrack_dir: &str) -> (res: BridgeProposalStore)
    ensures
        res.root_dir()@ == path_join(dualtrack_dir@, "bridge"@),
{
    let root = join_path(dualtrack_dir, "bridge");
    BridgeProposalStore::new(root.as_str())
}

/// Whether a listing shows a proposal: with a status filter, those of that status; without,
/// all but archived ones.
pub fn listed_status(status: BridgeProposalStatus, filter: Option<BridgeProposalStatus>) -> (res: bool)
    ensures
        res == match filter {
            Some(f) => status == f,
            None => status != BridgeProposalStatus::Archived,
        },
{
    match filter {
        Some(f) => status == f,
        None => match status {
            BridgeProposalStatus::Archived => false,
            _ => true,
        },
    }
}

/// The handler an action hands the proposal's source id to.
#[derive(Debug, Clone, Copy, PartialEq, Eq, Structural)]
pub enum ActionHandler {
    ApproveTask,
    RejectTask,
    RejectGhost,
}

/// What executing an action comes to. `Update` sets the status, then hands the source id to
/// the handler where there is one (should the handler fail, the proposal goes back to
/// pending and its error is the answer), then answers `error_after` where there is one, and
/// success otherwise.
#[derive(Debug, Clone, PartialEq, Eq)]
pub enum ActionPlan {
    Fail(String),
    Update { status: BridgeProposalStatus, handler: Option<ActionHandler>, error_after: Option<String> },
    Navigate { target_panel: String, target_id: String },
}

pub enum ActionPlanView {
    Fail(Seq<char>),
    Update { status: BridgeProposalStatus, handler: Option<ActionHandler>, error_after: Option<Seq<char>> },
    Navigate { target_panel: Seq<char>, target_id: Seq<char> },
}

pub open spec fn plan_view(p: ActionPlan) -> ActionPlanView {
    match p {
        ActionPlan::Fail(m) => ActionPlanView::Fail(m@),
        ActionPlan::Update { status, handler, error_after } => ActionPlanView::Update {
            status,
            handler,
            error_after: match error_after {
                Some(e) => Some(e@),
                None => None,
            },
        },
        ActionPlan::Navigate { target_panel, target_id } => ActionPlanView::Navigate {
            target_panel: target_panel@,
            target_id: target_id@,
        },
    }
}

/// The `Debug` name of a status.
pub open spec fn status_debug(s: BridgeProposalStatus) -> Seq<char> {
    match s {
        BridgeProposalStatus::Pending => "Pending"@,
        BridgeProposalStatus::Approved => "Approved"@,
        BridgeProposalStatus::Rejected => "Rejected"@,
        BridgeProposalStatus::Applied => "Applied"@,
        BridgeProposalStatus::Archived => "Archived"@,
    }
}

/// The text under a key of the payload, where it is a string.
pub open spec fn payload_text(payload: serde_json::Value, key: Seq<char>) -> Option<Seq<char>> {
    match json_member_value(payload, key) {
        Some(v) => json_string_text(v),
        None => None,
    }
}

/// What executing an action on a proposal comes to. Only archiving works on a proposal that
/// is no longer pending; rejecting hands task-like sources to the task handler and ghost
/// sources to the ghost handler, where one is given; approving needs a payload task id equal
/// to the task-like source's id, and an approval handler; opening a diff or trace navigates;
/// applying a ghost is refused.
pub open spec fn action_plan(
    proposal_id: Seq<char>,
    status: BridgeProposalStatus,
    source: SourceRef,
    action: ProposalAction,
    has_approve: bool,
    has_reject_task: bool,
    has_reject_ghost: bool,
) -> ActionPlanView {
    if status != BridgeProposalStatus::Pending && action.kind != ProposalActionKind::Archive {
        ActionPlanView::Fail(
            "Bridge proposal "@ + proposal_id + " is "@ + status_debug(status) + "; cannot execute action "@ + action.id@,
        )
    } else {
        match action.kind {
            ProposalActionKind::Archive => ActionPlanView::Update {
                status: BridgeProposalStatus::Archived,
                handler: None,
                error_after: None,
            },
            ProposalActionKind::Reject => ActionPlanView::Update {
                status: BridgeProposalStatus::Rejected,
                handler: if (source.kind == SourceRefKind::Task || source.kind == SourceRefKind::SchedulerJob)
                    && has_reject_task {
                    Some(ActionHandler::RejectTask)
                } else if source.kind == SourceRefKind::GhostNote && has_reject_ghost {
                    Some(ActionHandler::RejectGhost)
                } else {
                    None
                },
                error_after: None,
            },
            ProposalActionKind::ApproveTask => match payload_text(action.payload, "task_id"@) {
                None => ActionPlanView::Fail("approve_task action missing task_id"@),
                Some(t) => if !(source.kind == SourceRefKind::Task || source.kind == SourceRefKind::SchedulerJob)
                    || source.id@ != t {
                    ActionPlanView::Fail(
                        "approve_task payload task_id does not match proposal source: "@ + t + " != "@ + source.id@,
                    )
                } else if has_approve {
                    ActionPlanView::Update {
                        status: BridgeProposalStatus::Approved,
                        handler: Some(ActionHandler::ApproveTask),
                        error_after: None,
                    }
                } else {
                    ActionPlanView::Update {
                        status: BridgeProposalStatus::Approved,
                        handler: None,
                        error_after: Some("approve_task action requires an approval handler"@),
                    }
                },
            },
            ProposalActionKind::OpenDiff => ActionPlanView::Navigate {
                target_panel: "diff"@,
                target_id: match payload_text(action.payload, "ghost_id"@) {
                    Some(g) => g,
                    None => source.id@,
                },
            },
            ProposalActionKind::OpenTrace => ActionPlanView::Navigate {
                target_panel: "tasks"@,
                target_id: match payload_text(action.payload, "task_id"@) {
                    Some(g) => g,
                    None => source.id@,
                },
            },
            ProposalActionKind::ApplyGhost => ActionPlanView::Fail(
                "apply_ghost action is not implemented; open the diff for review"@,
            ),
        }
    }
}

fn payload_text_exec(payload: &serde_json::Value, key: &str) -> (res: Option<String>)
    ensures
        match res {
            Some(t) => payload_text(*payload, key@) == Some(t@),
            None => payload_text(*payload, key@) is None,
        },
{
    match json_member(payload, key) {
        Some(v) => json_as_text(&v),
        None => None,
    }
}

fn status_debug_text(s: BridgeProposalStatus) -> (res: &'static str)
    ensures
        res@ == status_debug(s),
{
    match s {
        BridgeProposalStatus::Pending => "Pending",
        BridgeProposalStatus::Approved => "Approved",
        BridgeProposalStatus::Rejected => "Rejected",
        BridgeProposalStatus::Applied => "Applied",
        BridgeProposalStatus::Archived => "Archived",
    }
}

/// Decides what executing an action on a proposal comes to; the caller performs it.
pub fn plan_bridge_action(
    proposal_id: &str,
    status: BridgeProposalStatus,
    source: &SourceRef,
    action: &ProposalAction,
    has_approve: bool,
    has_reject_task: bool,
    has_reject_ghost: bool,
) -> (res: ActionPlan)
    ensures
        plan_view(res) == action_plan(
            proposal_id@,
            status,
            *source,
            *action,
            has_approve,
            has_reject_task,
            has_reject_ghost,
        ),
{
    let pending = match status {
        BridgeProposalStatus::Pending => true,
        _ => false,
    };
    let archive = match action.kind {
        ProposalActionKind::Archive => true,
        _ => false,
    };
    if !pending && !archive {
        let mut m: Vec<char> = Vec::new();
        push_str(&mut m, "Bridge proposal ");
        push_str(&mut m, proposal_id);
        push_str(&mut m, " is ");
        push_str(&mut m, status_debug_text(status));
        push_str(&mut m, "; cannot execute action ");
        push_str(&mut m, action.id.as_str());
        return ActionPlan::Fail(string_of(&m));
    }
    let task_like = source_ref_is_task_like(&source.kind);
    match action.kind {
        ProposalActionKind::Archive => ActionPlan::Update {
            status: BridgeProposalStatus::Archived,
            handler: None,
            error_after: None,
        },
        ProposalActionKind::Reject => {
            let is_ghost = match source.kind {
                SourceRefKind::GhostNote => true,
                _ => false,
            };
            let handler = if task_like && has_reject_task {
                Some(ActionHandler::RejectTask)
            } else if is_ghost && has_reject_ghost {
                Some(ActionHandler::RejectGhost)
            } else {
                None
            };
            ActionPlan::Update { status: BridgeProposalStatus::Rejected, handler, error_after: None }
        },
        ProposalActionKind::ApproveTask => match payload_text_exec(&action.payload, "task_id") {
            None => ActionPlan::Fail(owned("approve_task action missing task_id")),
            Some(t) => {
                if !task_like || !(source.id == t) {
                    let mut m: Vec<char> = Vec::new();
                    push_str(&mut m, "approve_task payload task_id does not match proposal source: ");
                    push_str(&mut m, t.as_str());
                    push_str(&mut m, " != ");
                    push_str(&mut m, source.id.as_str());
                    ActionPlan::Fail(string_of(&m))
                } else if has_approve {
                    ActionPlan::Update {
                        status: BridgeProposalStatus::Approved,
                        handler: Some(ActionHandler::ApproveTask),
                        error_after: None,
                    }
                } else {
                    ActionPlan::Update {
                        status: BridgeProposalStatus::Approved,
                        handler: None,
                        error_after: Some(owned("approve_task action requires an approval handler")),
                    }
                }
            },
        },
        ProposalActionKind::OpenDiff => ActionPlan::Navigate {
            target_panel: owned("diff"),
            target_id: match payload_text_exec(&action.payload, "ghost_id") {
                Some(g) => g,
                None => source.id.clone(),
            },
        },
        ProposalActionKind::OpenTrace => ActionPlan::Navigate {
            target_panel: owned("tasks"),
            target_id: match payload_text_exec(&action.payload, "task_id") {
                Some(g) => g,
                None => source.id.clone(),
            },
        },
        ProposalActionKind::ApplyGhost => ActionPlan::Fail(
            owned("apply_ghost action is not implemented; open the diff for review"),
        ),
    }
}

/// The status a proposal ends with once the handler has answered: the planned status when
/// it succeeded, pending again when it failed.
pub fn status_after_handler(planned: BridgeProposalStatus, handler_ok: bool) -> (res: BridgeProposalStatus)
    ensures
        res == if handler_ok {
            planned
        } else {
            BridgeProposalStatus::Pending
        },
{
    if handler_ok {
        planned
    } else {
        BridgeProposalStatus::Pending
    }
}


/// A proposal that is no longer pending runs no action but archiving; archiving works in
/// every status and hands nothing to a handler; no action but approval ever approves, and
/// approval only for the proposal's own task.
pub proof fn lemma_only_pending_proposals_act(
    proposal_id: Seq<char>,
    status: BridgeProposalStatus,
    source: SourceRef,
    action: ProposalAction,
    has_approve: bool,
    has_reject_task: bool,
    has_reject_ghost: bool,
)
    ensures
        ({
            let p = action_plan(proposal_id, status, source, action, has_approve, has_reject_task, has_reject_ghost);
            &&& (status != BridgeProposalStatus::Pending && action.kind != ProposalActionKind::Archive) ==> p is Fail
            &&& action.kind == ProposalActionKind::Archive ==> p == ActionPlanView::Update {
                status: BridgeProposalStatus::Archived,
                handler: None,
                error_after: None,
            }
            &&& (p matches ActionPlanView::Update { status: s, .. } && s == BridgeProposalStatus::Approved) ==> (
                action.kind == ProposalActionKind::ApproveTask && payload_text(action.payload, "task_id"@) == Some(source.id@)
            )
        }),
{
}

/// Rejecting a pending proposal marks it rejected and settles its source: a task or a
/// scheduler job goes to the reject-task handler whenever one is given, a ghost note to the
/// reject-ghost handler whenever one is given, and no handler is called otherwise; a proposal
/// that is no longer pending is not rejected again.
pub proof fn lemma_reject_settles_its_source(
    proposal_id: Seq<char>,
    status: BridgeProposalStatus,
    source: SourceRef,
    action: ProposalAction,
    has_approve: bool,
    has_reject_task: bool,
    has_reject_ghost: bool,
)
    requires
        action.kind == ProposalActionKind::Reject,
    ensures
        ({
            let p = action_plan(proposal_id, status, source, action, has_approve, has_reject_task, has_reject_ghost);
            let task_like = source.kind == SourceRefKind::Task || source.kind == SourceRefKind::SchedulerJob;
            &&& status != BridgeProposalStatus::Pending ==> p is Fail
            &&& status == BridgeProposalStatus::Pending ==> (p matches ActionPlanView::Update { status: s, handler: h, error_after: e }
                && s == BridgeProposalStatus::Rejected && e is None
                && (task_like && has_reject_task ==> h == Some(ActionHandler::RejectTask))
                && (source.kind == SourceRefKind::GhostNote && has_reject_ghost ==> h == Some(ActionHandler::RejectGhost))
                && (h == Some(ActionHandler::RejectTask) ==> task_like && has_reject_task)
                && (h == Some(ActionHandler::RejectGhost) ==> source.kind == SourceRefKind::GhostNote && has_reject_ghost)
                && h != Some(ActionHandler::ApproveTask))
        }),
{
}

/// Approving a pending proposal approves the task it came from, and only that task: the action
/// must name a task id, which must be the id of the proposal's task or scheduler-job source,
/// else nothing is approved; when it is, the proposal is approved and the task handed to the
/// approval handler where there is one (without one the approval is recorded and an error
/// reported after).
pub proof fn lemma_approve_only_its_own_task(
    proposal_id: Seq<char>,
    source: SourceRef,
    action: ProposalAction,
    has_approve: bool,
    has_reject_task: bool,
    has_reject_ghost: bool,
)
    requires
        action.kind == ProposalActionKind::ApproveTask,
    ensures
        ({
            let p = action_plan(proposal_id, BridgeProposalStatus::Pending, source, action, has_approve, has_reject_task, has_reject_ghost);
            let task_like = source.kind == SourceRefKind::Task || source.kind == SourceRefKind::SchedulerJob;
            let named = payload_text(action.payload, "task_id"@);
            &&& (p is Update) <==> (task_like && named == Some(source.id@))
            &&& p matches ActionPlanView::Update { status: s, handler: h, error_after: e } ==> s == BridgeProposalStatus::Approved
                && (has_approve ==> h == Some(ActionHandler::ApproveTask) && e is None)
                && (!has_approve ==> h is None && e is Some)
        }),
{
}

} // verus!

//! Workflow IR of the harness: goal contracts, steps, the agent registry, validation and
//! versioned patches.

use vstd::prelude::*;
use crate::lean_kernel::{
    adj_view, black, dfs_state, index_cycle, lemma_enter, lemma_leave, lemma_unvisited_mono,
    unvisited,
};
use crate::text::{
    chars_of, copy_string, copy_strings, owned, seq_eq, strings_view, trim, trim_chars,
    contains_string, string_of, push_str, append_chars, path_join, join_path,
};

verus! {

/// JSON values that the harness carries through without reading them.
#[verifier::external_type_specification]
#[verifier::external_body]
pub struct ExJsonValue(serde_json::Value);

/// `serde_json::Value::clone` (derived): the clone is the same value.
pub assume_specification[ <serde_json::Value as Clone>::clone ](v: &serde_json::Value) -> (res: serde_json::Value)
    ensures
        res == *v,
;


#[derive(Debug, Clone, Copy, PartialEq, Eq, Structural)]
pub enum WorkflowStatus {
    Draft,
    Running,
    Paused,
    Completed,
    Aborted,
}

#[derive(Debug, Clone, Copy, PartialEq, Eq, Structural)]
pub enum WorkflowStepKind {
    Research,
    Implement,
    Test,
    Review,
    Verify,
    Merge,
}

#[derive(Debug, Clone, Copy, PartialEq, Eq, Structural)]
pub enum WorkflowStepMode {
    ReadOnly,
    WritePatch,
    TestOnly,
    ReviewOnly,
}

#[derive(Debug, Clone, Copy, PartialEq, Eq, Structural)]
pub enum WorkflowStepStatus {
    Pending,
    Ready,
    Running,
    Reported,
    Verified,
    Failed,
    Blocked,
    Skipped,
}

#[derive(Debug, Clone, Copy, PartialEq, Eq, Structural)]
pub struct RetryPolicy {
    pub max_attempts: usize,
    pub backoff_ms: u64,
}

#[derive(Debug, Clone, Copy, PartialEq, Eq, Structural)]
pub struct ControlPolicy {
    pub max_parallel_steps: usize,
    pub replan_on_verification_fail: bool,
    pub max_patch_chain: usize,
}

/// What a workflow is for and when it has succeeded.
#[derive(Debug, Clone)]
pub struct GoalContract {
    pub goal_id: String,
    pub goal_text: String,
    pub success_definition: Vec<String>,
    pub non_goals: Vec<String>,
    pub constraints: serde_json::Value,
    pub context_scope: Vec<String>,
    pub approval_policy: serde_json::Value,
    pub budget: serde_json::Value,
    pub created_at: String,
}

/// Which success clauses a step serves, and why.
#[derive(Debug, Clone)]
pub struct GoalAlignment {
    pub success_clauses: Vec<usize>,
    pub why_necessary: String,
}

/// One step of a workflow.
#[derive(Debug, Clone)]
pub struct WorkflowStep {
    pub step_id: String,
    pub title: String,
    pub kind: WorkflowStepKind,
    pub agent_type: String,
    pub mode: WorkflowStepMode,
    pub task: String,
    pub inputs: serde_json::Value,
    pub dependencies: Vec<String>,
    pub acceptance_criteria: Vec<String>,
    pub goal_alignment: GoalAlignment,
    pub retry_policy: RetryPolicy,
    pub status: WorkflowStepStatus,
}

/// A versioned workflow.
#[derive(Debug, Clone)]
pub struct WorkflowIr {
    pub workflow_id: String,
    pub goal_id: String,
    pub version: usize,
    pub parent_version: Option<usize>,
    pub status: WorkflowStatus,
    pub global_context: serde_json::Value,
    pub control_policy: ControlPolicy,
    pub steps: Vec<WorkflowStep>,
    pub created_by: String,
    pub created_at: String,
}

/// A step with its text as character sequences.
pub struct WorkflowStepView {
    pub step_id: Seq<char>,
    pub title: Seq<char>,
    pub kind: WorkflowStepKind,
    pub agent_type: Seq<char>,
    pub mode: WorkflowStepMode,
    pub task: Seq<char>,
    pub inputs: serde_json::Value,
    pub dependencies: Seq<Seq<char>>,
    pub acceptance_criteria: Seq<Seq<char>>,
    pub success_clauses: Seq<usize>,
    pub why_necessary: Seq<char>,
    pub retry_policy: RetryPolicy,
    pub status: WorkflowStepStatus,
}

impl View for WorkflowStep {
    type V = WorkflowStepView;

    open spec fn view(&self) -> WorkflowStepView {
        WorkflowStepView {
            step_id: self.step_id@,
            title: self.title@,
            kind: self.kind,
            agent_type: self.agent_type@,
            mode: self.mode,
            task: self.task@,
            inputs: self.inputs,
            dependencies: strings_view(self.dependencies@),
            acceptance_criteria: strings_view(self.acceptance_criteria@),
            success_clauses: self.goal_alignment.success_clauses@,
            why_necessary: self.goal_alignment.why_necessary@,
            retry_policy: self.retry_policy,
            status: self.status,
        }
    }
}

pub open spec fn steps_view(s: Seq<WorkflowStep>) -> Seq<WorkflowStepView> {
    s.map_values(|x: WorkflowStep| x@)
}

/// A workflow with its text as character sequences.
pub struct WorkflowIrView {
    pub workflow_id: Seq<char>,
    pub goal_id: Seq<char>,
    pub version: usize,
    pub parent_version: Option<usize>,
    pub status: WorkflowStatus,
    pub global_context: serde_json::Value,
    pub control_policy: ControlPolicy,
    pub steps: Seq<WorkflowStepView>,
    pub created_by: Seq<char>,
    pub created_at: Seq<char>,
}

impl View for WorkflowIr {
    type V = WorkflowIrView;

    open spec fn view(&self) -> WorkflowIrView {
        WorkflowIrView {
            workflow_id: self.workflow_id@,
            goal_id: self.goal_id@,
            version: self.version,
            parent_version: self.parent_version,
            status: self.status,
            global_context: self.global_context,
            control_policy: self.control_policy,
            steps: steps_view(self.steps@),
            created_by: self.created_by@,
            created_at: self.created_at@,
        }
    }
}

/// What an agent type may do.
#[derive(Debug, Clone)]
pub struct AgentRegistryEntry {
    pub agent_type: String,
    pub allowed_tools: Vec<String>,
    pub denied_tools: Vec<String>,
    pub default_mode: WorkflowStepMode,
    pub max_parallelism: usize,
    pub can_delegate: bool,
}

/// The agent types known to the harness, one entry per type.
#[derive(Debug, Clone)]
pub struct AgentRegistry {
    agents: Vec<AgentRegistryEntry>,
}

/// Why a workflow, patch or runtime record was refused.
#[derive(Debug, Clone, PartialEq, Eq)]
pub enum WorkflowError {
    GoalHasNoSuccessDefinition,
    GoalMismatch { workflow_goal_id: String, contract_goal_id: String },
    InvalidVersion(usize),
    EmptyWorkflow,
    InvalidControlPolicy(String),
    EmptyStepId,
    DuplicateStepId(String),
    UnknownAgentType(String),
    MissingAcceptanceCriteria(String),
    MissingGoalAlignment(String),
    GoalClauseOutOfRange { step_id: String, clause: usize },
    UnknownDependency { step_id: String, dependency: String },
    CyclicDependency(String),
    PatchWorkflowMismatch { expected: String, actual: String },
    RunWorkflowMismatch {
        run_workflow_id: String,
        run_workflow_version: usize,
        workflow_id: String,
        workflow_version: usize,
    },
    PatchVersionMismatch { expected: usize, actual: usize },
    InvalidPatchVersion { from_version: usize, to_version: usize },
    PatchTargetMissing(String),
    EmptyPatch(String),
    PatchChainLimitExceeded { patch_id: String, max_patch_chain: usize, attempted_to_version: usize },
    InvalidCannotProceed,
    UnsafeRuntimeComponent(String),
    RuntimeEventIo(String),
    RuntimeEventParse(String),
    RuntimeStateIo(String),
    RuntimeStateParse(String),
    RuntimeStateMissing(String),
}

/// A workflow error with its text as character sequences.
pub enum WorkflowErrorView {
    GoalHasNoSuccessDefinition,
    GoalMismatch { workflow_goal_id: Seq<char>, contract_goal_id: Seq<char> },
    InvalidVersion(usize),
    EmptyWorkflow,
    InvalidControlPolicy(Seq<char>),
    EmptyStepId,
    DuplicateStepId(Seq<char>),
    UnknownAgentType(Seq<char>),
    MissingAcceptanceCriteria(Seq<char>),
    MissingGoalAlignment(Seq<char>),
    GoalClauseOutOfRange { step_id: Seq<char>, clause: usize },
    UnknownDependency { step_id: Seq<char>, dependency: Seq<char> },
    CyclicDependency(Seq<char>),
    PatchWorkflowMismatch { expected: Seq<char>, actual: Seq<char> },
    RunWorkflowMismatch {
        run_workflow_id: Seq<char>,
        run_workflow_version: usize,
        workflow_id: Seq<char>,
        workflow_version: usize,
    },
    PatchVersionMismatch { expected: usize, actual: usize },
    InvalidPatchVersion { from_version: usize, to_version: usize },
    PatchTargetMissing(Seq<char>),
    EmptyPatch(Seq<char>),
    PatchChainLimitExceeded { patch_id: Seq<char>, max_patch_chain: usize, attempted_to_version: usize },
    InvalidCannotProceed,
    UnsafeRuntimeComponent(Seq<char>),
    RuntimeEventIo(Seq<char>),
    RuntimeEventParse(Seq<char>),
    RuntimeStateIo(Seq<char>),
    RuntimeStateParse(Seq<char>),
    RuntimeStateMissing(Seq<char>),
}

impl View for WorkflowError {
    type V = WorkflowErrorView;

    open spec fn view(&self) -> WorkflowErrorView {
        match self {
            WorkflowError::GoalHasNoSuccessDefinition => WorkflowErrorView::GoalHasNoSuccessDefinition,
            WorkflowError::GoalMismatch { workflow_goal_id, contract_goal_id } => WorkflowErrorView::GoalMismatch {
                workflow_goal_id: workflow_goal_id@,
                contract_goal_id: contract_goal_id@,
            },
            WorkflowError::InvalidVersion(v) => WorkflowErrorView::InvalidVersion(*v),
            WorkflowError::EmptyWorkflow => WorkflowErrorView::EmptyWorkflow,
            WorkflowError::InvalidControlPolicy(s) => WorkflowErrorView::InvalidControlPolicy(s@),
            WorkflowError::EmptyStepId => WorkflowErrorView::EmptyStepId,
            WorkflowError::DuplicateStepId(s) => WorkflowErrorView::DuplicateStepId(s@),
            WorkflowError::UnknownAgentType(s) => WorkflowErrorView::UnknownAgentType(s@),
            WorkflowError::MissingAcceptanceCriteria(s) => WorkflowErrorView::MissingAcceptanceCriteria(s@),
            WorkflowError::MissingGoalAlignment(s) => WorkflowErrorView::MissingGoalAlignment(s@),
            WorkflowError::GoalClauseOutOfRange { step_id, clause } => WorkflowErrorView::GoalClauseOutOfRange {
                step_id: step_id@,
                clause: *clause,
            },
            WorkflowError::UnknownDependency { step_id, dependency } => WorkflowErrorView::UnknownDependency {
                step_id: step_id@,
                dependency: dependency@,
            },
            WorkflowError::CyclicDependency(s) => WorkflowErrorView::CyclicDependency(s@),
            WorkflowError::PatchWorkflowMismatch { expected, actual } => WorkflowErrorView::PatchWorkflowMismatch {
                expected: expected@,
                actual: actual@,
            },
            WorkflowError::RunWorkflowMismatch {
                run_workflow_id,
                run_workflow_version,
                workflow_id,
                workflow_version,
            } => WorkflowErrorView::RunWorkflowMismatch {
                run_workflow_id: run_workflow_id@,
                run_workflow_version: *run_workflow_version,
                workflow_id: workflow_id@,
                workflow_version: *workflow_version,
            },
            WorkflowError::PatchVersionMismatch { expected, actual } => WorkflowErrorView::PatchVersionMismatch {
                expected: *expected,
                actual: *actual,
            },
            WorkflowError::InvalidPatchVersion { from_version, to_version } => WorkflowErrorView::InvalidPatchVersion {
                from_version: *from_version,
                to_version: *to_version,
            },
            WorkflowError::PatchTargetMissing(s) => WorkflowErrorView::PatchTargetMissing(s@),
            WorkflowError::EmptyPatch(s) => WorkflowErrorView::EmptyPatch(s@),
            WorkflowError::PatchChainLimitExceeded { patch_id, max_patch_chain, attempted_to_version } => WorkflowErrorView::PatchChainLimitExceeded {
                patch_id: patch_id@,
                max_patch_chain: *max_patch_chain,
                attempted_to_version: *attempted_to_version,
            },
            WorkflowError::InvalidCannotProceed => WorkflowErrorView::InvalidCannotProceed,
            WorkflowError::UnsafeRuntimeComponent(s) => WorkflowErrorView::UnsafeRuntimeComponent(s@),
            WorkflowError::RuntimeEventIo(s) => WorkflowErrorView::RuntimeEventIo(s@),
            WorkflowError::RuntimeEventParse(s) => WorkflowErrorView::RuntimeEventParse(s@),
            WorkflowError::RuntimeStateIo(s) => WorkflowErrorView::RuntimeStateIo(s@),
            WorkflowError::RuntimeStateParse(s) => WorkflowErrorView::RuntimeStateParse(s@),
            WorkflowError::RuntimeStateMissing(s) => WorkflowErrorView::RuntimeStateMissing(s@),
        }
    }
}

pub open spec fn unit_result_view(r: Result<(), WorkflowError>) -> Result<(), WorkflowErrorView> {
    match r {
        Ok(()) => Ok(()),
        Err(e) => Err(e@),
    }
}

// ---------------------------------------------------------------------------------------------
// Agent registry
// ---------------------------------------------------------------------------------------------

/// The entry registered for `name` when entries are added in order, later ones replacing
/// earlier ones of the same type.
pub open spec fn last_entry(agents: Seq<AgentRegistryEntry>, name: Seq<char>) -> Option<AgentRegistryEntry>
    decreases agents.len(),
{
    if agents.len() == 0 {
        None
    } else {
        match last_entry(agents.drop_first(), name) {
            Some(e) => Some(e),
            None => if agents[0].agent_type@ == name {
                Some(agents[0])
            } else {
                None
            },
        }
    }
}

/// Tools that hand work to other agents.
pub open spec fn delegation_tool(tool: Seq<char>) -> bool {
    tool == "delegate"@ || tool == "spawn_subagent"@ || tool == "agent_team"@ || tool
        == "direct_agent_message"@
}

/// The tools an entry grants: allowed, not denied, and delegation tools only when the agent
/// may delegate.
pub open spec fn granted_tools(e: AgentRegistryEntry) -> Seq<Seq<char>> {
    strings_view(e.allowed_tools@).filter(
        |t: Seq<char>|
            !strings_view(e.denied_tools@).contains(t) && (e.can_delegate || !delegation_tool(t)),
    )
}

/// Whether a tool is one that hands work to other agents.
pub fn is_delegation_tool(tool: &str) -> (res: bool)
    ensures
        res == delegation_tool(tool@),
{
    let t = chars_of(tool);
    seq_eq(&t, &chars_of("delegate")) || seq_eq(&t, &chars_of("spawn_subagent")) || seq_eq(
        &t,
        &chars_of("agent_team"),
    ) || seq_eq(&t, &chars_of("direct_agent_message"))
}

/// No two entries have the same agent type.
pub open spec fn entries_distinct(a: Seq<AgentRegistryEntry>) -> bool {
    forall|i: int, j: int|
        0 <= i < a.len() && 0 <= j < a.len() && i != j ==> a[i].agent_type@ != a[j].agent_type@
}

/// The entry of an agent type among entries.
pub open spec fn entries_lookup(a: Seq<AgentRegistryEntry>, name: Seq<char>) -> Option<AgentRegistryEntry> {
    if exists|i: int| 0 <= i < a.len() && a[i].agent_type@ == name {
        Some(a[choose|i: int| 0 <= i < a.len() && a[i].agent_type@ == name])
    } else {
        None
    }
}

/// A registry entry with its text as character sequences.
pub struct AgentEntryView {
    pub agent_type: Seq<char>,
    pub allowed_tools: Seq<Seq<char>>,
    pub denied_tools: Seq<Seq<char>>,
    pub default_mode: WorkflowStepMode,
    pub max_parallelism: usize,
    pub can_delegate: bool,
}

pub open spec fn agent_entry_view(e: AgentRegistryEntry) -> AgentEntryView {
    AgentEntryView {
        agent_type: e.agent_type@,
        allowed_tools: strings_view(e.allowed_tools@),
        denied_tools: strings_view(e.denied_tools@),
        default_mode: e.default_mode,
        max_parallelism: e.max_parallelism,
        can_delegate: e.can_delegate,
    }
}

impl AgentRegistry {
    /// No two entries have the same agent type.
    pub closed spec fn well_formed(&self) -> bool {
        entries_distinct(self.agents@)
    }

    /// The entry registered for an agent type.
    pub closed spec fn lookup(&self, name: Seq<char>) -> Option<AgentRegistryEntry> {
        entries_lookup(self.agents@, name)
    }

    /// Builds a registry from entries; a later entry replaces an earlier one of the same type.
    pub fn from_agents(agents: Vec<AgentRegistryEntry>) -> (res: Self)
        ensures
            res.well_formed(),
            forall|name: Seq<char>| #[trigger] res.lookup(name) == last_entry(agents@, name),
    {
        let mut out: Vec<AgentRegistryEntry> = Vec::new();
        let ghost orig = agents@;
        let mut agents = agents;
        assert(orig.skip(orig.len() as int) =~= Seq::<AgentRegistryEntry>::empty());
        while agents.len() > 0
            invariant
                agents@ == orig.take(agents@.len() as int),
                agents@.len() <= orig.len(),
                entries_distinct(out@),
                forall|name: Seq<char>|
                    #[trigger] entries_lookup(out@, name) == last_entry(
                        orig.skip(agents@.len() as int),
                        name,
                    ),
            decreases agents@.len(),
        {
            let ghost k = agents@.len() - 1;
            let entry = agents.pop().unwrap();
            let ghost e = entry;
            assert(e == orig[k]);
            assert(orig.skip(k).drop_first() == orig.skip(k + 1));
            assert(orig.skip(k)[0] == e);
            let mut j: usize = 0;
            while j < out.len() && !(out[j].agent_type == entry.agent_type)
                invariant
                    j <= out.len(),
                    e == entry,
                    forall|m: int| 0 <= m < j ==> out@[m].agent_type@ != e.agent_type@,
                decreases out.len() - j,
            {
                j = j + 1;
            }
            let present = j < out.len();
            assert(present == exists|m: int| 0 <= m < out@.len() && out@[m].agent_type@ == e.agent_type@);
            let ghost before = out@;
            if !present {
                out.push(entry);
            }
            proof {
                let after = out@;
                assert(entries_distinct(after)) by {
                    if !present {
                        assert forall|a: int, b: int|
                            0 <= a < after.len() && 0 <= b < after.len() && a != b implies after[a].agent_type@
                            != after[b].agent_type@ by {
                            if a < before.len() && b < before.len() {
                                assert(after[a] == before[a]);
                                assert(after[b] == before[b]);
                            } else if a < before.len() {
                                assert(after[a] == before[a]);
                            } else {
                                assert(after[b] == before[b]);
                            }
                        }
                    }
                }
                assert forall|name: Seq<char>| #[trigger] entries_lookup(after, name) == last_entry(
                    orig.skip(k),
                    name,
                ) by {
                    let prev = last_entry(orig.skip(k + 1), name);
                    assert(entries_lookup(before, name) == prev);
                    if !present {
                        if exists|i: int| 0 <= i < before.len() && before[i].agent_type@ == name {
                            let c = choose|i: int| 0 <= i < before.len() && before[i].agent_type@ == name;
                            let c2 = choose|i: int| 0 <= i < after.len() && after[i].agent_type@ == name;
                            assert(after[c] == before[c]);
                            if c2 != c {
                                assert(entries_distinct(after));
                            }
                        } else if name == e.agent_type@ {
                            let last = after.len() - 1;
                            assert(after[last] == e);
                            let c2 = choose|i: int| 0 <= i < after.len() && after[i].agent_type@ == name;
                            if c2 != last {
                                assert(after[c2] == before[c2]);
                            }
                        } else {
                            if exists|i: int| 0 <= i < after.len() && after[i].agent_type@ == name {
                                let c2 = choose|i: int| 0 <= i < after.len() && after[i].agent_type@ == name;
                                assert(c2 != after.len() - 1);
                                assert(after[c2] == before[c2]);
                            }
                        }
                    } else {
                        if name == e.agent_type@ {
                            let m = choose|m: int| 0 <= m < before.len() && before[m].agent_type@ == e.agent_type@;
                            assert(prev is Some);
                        }
                    }
                }
                assert(agents@ =~= orig.take(agents@.len() as int));
            }
        }
        assert(orig.skip(0) =~= orig);
        AgentRegistry { agents: out }
    }

    fn position(&self, agent_type: &str) -> (res: Option<usize>)
        requires
            self.well_formed(),
        ensures
            match res {
                Some(i) => i < self.agents@.len() && self.lookup(agent_type@) == Some(self.agents@[i as int]),
                None => self.lookup(agent_type@) is None,
            },
    {
        let name = chars_of(agent_type);
        let mut i: usize = 0;
        while i < self.agents.len()
            invariant
                i <= self.agents@.len(),
                name@ == agent_type@,
                self.well_formed(),
                forall|m: int| 0 <= m < i ==> self.agents@[m].agent_type@ != agent_type@,
            decreases self.agents@.len() - i,
        {
            let t = chars_of(self.agents[i].agent_type.as_str());
            if seq_eq(&t, &name) {
                proof {
                    let c = choose|m: int| 0 <= m < self.agents@.len() && self.agents@[m].agent_type@ == agent_type@;
                    assert(self.agents@[i as int].agent_type@ == agent_type@);
                    assert(entries_distinct(self.agents@));
                    assert(c == i);
                }
                return Some(i);
            }
            i = i + 1;
        }
        None
    }

    /// Whether some registered agent may delegate work.
    pub fn any_can_delegate(&self) -> (res: bool)
        requires
            self.well_formed(),
        ensures
            res == exists|name: Seq<char>| #[trigger] self.lookup(name) is Some && self.lookup(name)->0.can_delegate,
    {
        let mut i: usize = 0;
        while i < self.agents.len()
            invariant
                i <= self.agents.len(),
                entries_distinct(self.agents@),
                forall|j: int| 0 <= j < i ==> !(#[trigger] self.agents@[j]).can_delegate,
            decreases self.agents.len() - i,
        {
            if self.agents[i].can_delegate {
                proof {
                    let name = self.agents@[i as int].agent_type@;
                    let k = choose|k: int| 0 <= k < self.agents@.len() && self.agents@[k].agent_type@ == name;
                    assert(k == i);
                    assert(self.lookup(name) is Some);
                }
                return true;
            }
            i = i + 1;
        }
        proof {
            assert forall|name: Seq<char>| !(#[trigger] self.lookup(name) is Some && self.lookup(name)->0.can_delegate) by {
                if self.lookup(name) is Some {
                    let k = choose|k: int| 0 <= k < self.agents@.len() && self.agents@[k].agent_type@ == name;
                    assert(!self.agents@[k].can_delegate);
                }
            }
        }
        false
    }

    /// A copy of the registry.
    pub fn copied(&self) -> (res: AgentRegistry)
        ensures
            res.entries_view() == self.entries_view(),
    {
        let mut out: Vec<AgentRegistryEntry> = Vec::new();
        let mut i: usize = 0;
        while i < self.agents.len()
            invariant
                i <= self.agents.len(),
                out@.map_values(|e: AgentRegistryEntry| agent_entry_view(e)) == self.agents@.take(i as int).map_values(
                    |e: AgentRegistryEntry| agent_entry_view(e),
                ),
            decreases self.agents.len() - i,
        {
            let e = &self.agents[i];
            let c = AgentRegistryEntry {
                agent_type: e.agent_type.clone(),
                allowed_tools: copy_strings(&e.allowed_tools),
                denied_tools: copy_strings(&e.denied_tools),
                default_mode: e.default_mode,
                max_parallelism: e.max_parallelism,
                can_delegate: e.can_delegate,
            };
            let ghost before = out@.map_values(|e: AgentRegistryEntry| agent_entry_view(e));
            out.push(c);
            assert(out@.map_values(|e: AgentRegistryEntry| agent_entry_view(e)) =~= before.push(agent_entry_view(c)));
            assert(self.agents@.take(i + 1).map_values(|e: AgentRegistryEntry| agent_entry_view(e)) =~= self.agents@.take(
                i as int,
            ).map_values(|e: AgentRegistryEntry| agent_entry_view(e)).push(agent_entry_view(self.agents@[i as int])));
            i = i + 1;
        }
        assert(self.agents@.take(self.agents.len() as int) =~= self.agents@);
        AgentRegistry { agents: out }
    }

    /// The entries in order, their text as character sequences.
    pub closed spec fn entries_view(&self) -> Seq<AgentEntryView> {
        self.agents@.map_values(|e: AgentRegistryEntry| agent_entry_view(e))
    }

    pub fn get(&self, agent_type: &str) -> (res: Option<&AgentRegistryEntry>)
        requires
            self.well_formed(),
        ensures
            match res {
                Some(e) => self.lookup(agent_type@) == Some(*e),
                None => self.lookup(agent_type@) is None,
            },
    {
        match self.position(agent_type) {
            Some(i) => Some(&self.agents[i]),
            None => None,
        }
    }

    pub fn contains_agent(&self, agent_type: &str) -> (res: bool)
        requires
            self.well_formed(),
        ensures
            res == (self.lookup(agent_type@) is Some),
    {
        self.position(agent_type).is_some()
    }

    pub fn allows_tool(&self, agent_type: &str, tool: &str) -> (res: bool)
        requires
            self.well_formed(),
        ensures
            res == match self.lookup(agent_type@) {
                None => false,
                Some(e) => !strings_view(e.denied_tools@).contains(tool@) && strings_view(
                    e.allowed_tools@,
                ).contains(tool@),
            },
    {
        let agent = match self.get(agent_type) {
            None => return false,
            Some(a) => a,
        };
        let t = owned(tool);
        if contains_string(&agent.denied_tools, &t) {
            return false;
        }
        contains_string(&agent.allowed_tools, &t)
    }

    pub fn can_delegate(&self, agent_type: &str) -> (res: bool)
        requires
            self.well_formed(),
        ensures
            res == match self.lookup(agent_type@) {
                None => false,
                Some(e) => e.can_delegate,
            },
    {
        match self.get(agent_type) {
            Some(agent) => agent.can_delegate,
            None => false,
        }
    }

    pub fn tools_for_agent(&self, agent_type: &str) -> (res: Result<Vec<String>, WorkflowError>)
        requires
            self.well_formed(),
        ensures
            match self.lookup(agent_type@) {
                None => res is Err && res->Err_0@ == WorkflowErrorView::UnknownAgentType(agent_type@),
                Some(e) => res is Ok && strings_view(res->Ok_0@) == granted_tools(e),
            },
    {
        let agent = match self.get(agent_type) {
            None => return Err(WorkflowError::UnknownAgentType(owned(agent_type))),
            Some(a) => a,
        };
        let ghost e = *agent;
        let ghost pred = |t: Seq<char>|
            !strings_view(e.denied_tools@).contains(t) && (e.can_delegate || !delegation_tool(t));
        let mut out: Vec<String> = Vec::new();
        let mut i: usize = 0;
        while i < agent.allowed_tools.len()
            invariant
                i <= agent.allowed_tools.len(),
                e == *agent,
                pred == (|t: Seq<char>|
                    !strings_view(e.denied_tools@).contains(t) && (e.can_delegate || !delegation_tool(t))),
                strings_view(out@) == strings_view(agent.allowed_tools@).take(i as int).filter(pred),
            decreases agent.allowed_tools.len() - i,
        {
            let tool = &agent.allowed_tools[i];
            let keep = !contains_string(&agent.denied_tools, tool) && (agent.can_delegate
                || !is_delegation_tool(tool.as_str()));
            let ghost all = strings_view(agent.allowed_tools@);
            proof {
                assert(all.take(i + 1).drop_last() == all.take(i as int));
                assert(all.take(i + 1).last() == tool@);
                assert(keep == pred(tool@));
                reveal_with_fuel(Seq::filter, 1);
            }
            if keep {
                out.push(tool.clone());
                assert(strings_view(out@) =~= all.take(i as int).filter(pred).push(tool@));
            }
            i = i + 1;
        }
        assert(strings_view(agent.allowed_tools@).take(agent.allowed_tools@.len() as int)
            == strings_view(agent.allowed_tools@));
        Ok(out)
    }
}


// ---------------------------------------------------------------------------------------------
// Validation
// ---------------------------------------------------------------------------------------------

pub open spec fn step_ids(steps: Seq<WorkflowStepView>) -> Seq<Seq<char>> {
    steps.map_values(|s: WorkflowStepView| s.step_id)
}

/// The first blank or repeated step id from index `i` on.
pub open spec fn id_error(steps: Seq<WorkflowStepView>, i: int) -> Option<WorkflowErrorView>
    decreases steps.len() - i,
{
    if i < 0 || i >= steps.len() {
        None
    } else if trim(steps[i].step_id).len() == 0 {
        Some(WorkflowErrorView::EmptyStepId)
    } else if step_ids(steps).take(i).contains(steps[i].step_id) {
        Some(WorkflowErrorView::DuplicateStepId(steps[i].step_id))
    } else {
        id_error(steps, i + 1)
    }
}

/// The first success clause that is zero or beyond the goal's success definition.
pub open spec fn first_bad_clause(clauses: Seq<usize>, goal_len: int) -> Option<usize>
    decreases clauses.len(),
{
    if clauses.len() == 0 {
        None
    } else if clauses[0] == 0 || clauses[0] > goal_len {
        Some(clauses[0])
    } else {
        first_bad_clause(clauses.drop_first(), goal_len)
    }
}

/// The first dependency that names no step.
pub open spec fn first_unknown_dep(deps: Seq<Seq<char>>, ids: Seq<Seq<char>>) -> Option<Seq<char>>
    decreases deps.len(),
{
    if deps.len() == 0 {
        None
    } else if !ids.contains(deps[0]) {
        Some(deps[0])
    } else {
        first_unknown_dep(deps.drop_first(), ids)
    }
}

/// What is wrong with one step, checked in the order: agent, acceptance criteria, goal
/// alignment, clause range, dependencies.
pub open spec fn step_error(s: WorkflowStepView, ids: Seq<Seq<char>>, goal_len: int, reg: AgentRegistry) -> Option<
    WorkflowErrorView,
> {
    if reg.lookup(s.agent_type) is None {
        Some(WorkflowErrorView::UnknownAgentType(s.agent_type))
    } else if s.acceptance_criteria.len() == 0 {
        Some(WorkflowErrorView::MissingAcceptanceCriteria(s.step_id))
    } else if s.success_clauses.len() == 0 {
        Some(WorkflowErrorView::MissingGoalAlignment(s.step_id))
    } else if first_bad_clause(s.success_clauses, goal_len) is Some {
        Some(
            WorkflowErrorView::GoalClauseOutOfRange {
                step_id: s.step_id,
                clause: first_bad_clause(s.success_clauses, goal_len)->0,
            },
        )
    } else if first_unknown_dep(s.dependencies, ids) is Some {
        Some(
            WorkflowErrorView::UnknownDependency {
                step_id: s.step_id,
                dependency: first_unknown_dep(s.dependencies, ids)->0,
            },
        )
    } else {
        None
    }
}

/// The first step, from index `i` on, with something wrong.
pub open spec fn steps_error(
    steps: Seq<WorkflowStepView>,
    i: int,
    ids: Seq<Seq<char>>,
    goal_len: int,
    reg: AgentRegistry,
) -> Option<WorkflowErrorView>
    decreases steps.len() - i,
{
    if i < 0 || i >= steps.len() {
        None
    } else if step_error(steps[i], ids, goal_len, reg) is Some {
        step_error(steps[i], ids, goal_len, reg)
    } else {
        steps_error(steps, i + 1, ids, goal_len, reg)
    }
}

/// Every check of `validate` but the one for dependency cycles, in order.
pub open spec fn precheck(w: WorkflowIrView, goal: GoalContract, reg: AgentRegistry) -> Option<WorkflowErrorView> {
    if goal.success_definition@.len() == 0 {
        Some(WorkflowErrorView::GoalHasNoSuccessDefinition)
    } else if w.goal_id != goal.goal_id@ {
        Some(
            WorkflowErrorView::GoalMismatch {
                workflow_goal_id: w.goal_id,
                contract_goal_id: goal.goal_id@,
            },
        )
    } else if w.version == 0 {
        Some(WorkflowErrorView::InvalidVersion(0))
    } else if w.steps.len() == 0 {
        Some(WorkflowErrorView::EmptyWorkflow)
    } else if w.control_policy.max_parallel_steps == 0 {
        Some(
            WorkflowErrorView::InvalidControlPolicy("max_parallel_steps must be greater than zero"@),
        )
    } else if w.control_policy.max_patch_chain == 0 {
        Some(WorkflowErrorView::InvalidControlPolicy("max_patch_chain must be greater than zero"@))
    } else if id_error(w.steps, 0) is Some {
        id_error(w.steps, 0)
    } else {
        steps_error(
            w.steps,
            0,
            step_ids(w.steps),
            goal.success_definition@.len() as int,
            reg,
        )
    }
}

/// Step `a` depends on `b`.
pub open spec fn dep_edge(w: WorkflowIrView, a: Seq<char>, b: Seq<char>) -> bool {
    exists|i: int|
        0 <= i < w.steps.len() && #[trigger] w.steps[i].step_id == a && w.steps[i].dependencies.contains(b)
}

/// A closed walk along dependencies.
pub open spec fn is_dep_cycle(w: WorkflowIrView, c: Seq<Seq<char>>) -> bool {
    &&& c.len() >= 2
    &&& c[0] == c[c.len() - 1]
    &&& forall|k: int| 0 <= k < c.len() - 1 ==> dep_edge(w, #[trigger] c[k], c[k + 1])
}

pub open spec fn deps_acyclic(w: WorkflowIrView) -> bool {
    forall|c: Seq<Seq<char>>| !is_dep_cycle(w, c)
}

/// `x` lies on a dependency cycle.
pub open spec fn on_dep_cycle(w: WorkflowIrView, x: Seq<char>) -> bool {
    exists|c: Seq<Seq<char>>| is_dep_cycle(w, c) && c[0] == x
}

/// What `validate` answers.
pub open spec fn validate_ok(w: WorkflowIrView, goal: GoalContract, reg: AgentRegistry, res: Result<(), WorkflowError>) -> bool {
    match precheck(w, goal, reg) {
        Some(e) => res is Err && res->Err_0@ == e,
        None => (res is Ok <==> deps_acyclic(w)) && (res is Err ==> (res->Err_0@ matches WorkflowErrorView::CyclicDependency(x) && on_dep_cycle(w, x))),
    }
}

fn index_of_string(ids: &Vec<String>, x: &String) -> (res: usize)
    requires
        strings_view(ids@).contains(x@),
    ensures
        res < ids.len(),
        ids@[res as int]@ == x@,
{
    let mut i: usize = 0;
    while i < ids.len()
        invariant
            i <= ids.len(),
            strings_view(ids@).contains(x@),
            forall|k: int| 0 <= k < i ==> ids@[k]@ != x@,
        decreases ids.len() - i,
    {
        if ids[i] == *x {
            return i;
        }
        i = i + 1;
    }
    proof {
        let k = choose|k: int| 0 <= k < strings_view(ids@).len() && strings_view(ids@)[k] == x@;
        assert(ids@[k]@ == x@);
    }
    0
}

impl WorkflowIr {
    fn check_ids(&self) -> (res: Result<Vec<String>, WorkflowError>)
        ensures
            match id_error(self@.steps, 0) {
                Some(e) => res is Err && res->Err_0@ == e,
                None => res is Ok && strings_view(res->Ok_0@) == step_ids(self@.steps),
            },
    {
        let mut ids: Vec<String> = Vec::new();
        let mut i: usize = 0;
        while i < self.steps.len()
            invariant
                i <= self.steps.len(),
                strings_view(ids@) == step_ids(self@.steps).take(i as int),
                id_error(self@.steps, 0) == id_error(self@.steps, i as int),
            decreases self.steps.len() - i,
        {
            let id = &self.steps[i].step_id;
            let t = trim_chars(&chars_of(id.as_str()));
            if t.len() == 0 {
                return Err(WorkflowError::EmptyStepId);
            }
            if contains_string(&ids, id) {
                return Err(WorkflowError::DuplicateStepId(id.clone()));
            }
            ids.push(id.clone());
            assert(step_ids(self@.steps).take(i + 1) == step_ids(self@.steps).take(i as int).push(id@));
            assert(strings_view(ids@) =~= step_ids(self@.steps).take(i + 1));
            i = i + 1;
        }
        assert(step_ids(self@.steps).take(self.steps@.len() as int) =~= step_ids(self@.steps));
        Ok(ids)
    }

    #[verifier::loop_isolation(false)]
    fn check_steps(&self, ids: &Vec<String>, goal_len: usize, registry: &AgentRegistry) -> (res: Result<(), WorkflowError>)
        requires
            registry.well_formed(),
        ensures
            match steps_error(self@.steps, 0, strings_view(ids@), goal_len as int, *registry) {
                Some(e) => res is Err && res->Err_0@ == e,
                None => res is Ok,
            },
    {
        let ghost idv = strings_view(ids@);
        let mut i: usize = 0;
        while i < self.steps.len()
            invariant
                i <= self.steps.len(),
                registry.well_formed(),
                idv == strings_view(ids@),
                steps_error(self@.steps, 0, idv, goal_len as int, *registry) == steps_error(
                    self@.steps,
                    i as int,
                    idv,
                    goal_len as int,
                    *registry,
                ),
            decreases self.steps.len() - i,
        {
            let step = &self.steps[i];
            if !registry.contains_agent(step.agent_type.as_str()) {
                return Err(WorkflowError::UnknownAgentType(step.agent_type.clone()));
            }
            if step.acceptance_criteria.len() == 0 {
                return Err(WorkflowError::MissingAcceptanceCriteria(step.step_id.clone()));
            }
            let clauses = &step.goal_alignment.success_clauses;
            if clauses.len() == 0 {
                return Err(WorkflowError::MissingGoalAlignment(step.step_id.clone()));
            }
            let mut c: usize = 0;
            assert(clauses@.skip(0) == clauses@);
            while c < clauses.len()
                invariant
                    c <= clauses.len(),
                    first_bad_clause(clauses@, goal_len as int) == first_bad_clause(
                        clauses@.skip(c as int),
                        goal_len as int,
                    ),
                decreases clauses.len() - c,
            {
                assert(clauses@.skip(c as int).drop_first() == clauses@.skip(c + 1));
                if clauses[c] == 0 || clauses[c] > goal_len {
                    return Err(
                        WorkflowError::GoalClauseOutOfRange { step_id: step.step_id.clone(), clause: clauses[c] },
                    );
                }
                c = c + 1;
            }
            assert(clauses@.skip(0) == clauses@);
            let deps = &step.dependencies;
            let mut d: usize = 0;
            assert(strings_view(deps@).skip(0) == strings_view(deps@));
            while d < deps.len()
                invariant
                    d <= deps.len(),
                    idv == strings_view(ids@),
                    first_unknown_dep(strings_view(deps@), idv) == first_unknown_dep(
                        strings_view(deps@).skip(d as int),
                        idv,
                    ),
                decreases deps.len() - d,
            {
                assert(strings_view(deps@).skip(d as int).drop_first() == strings_view(deps@).skip(d + 1));
                assert(strings_view(deps@).skip(d as int)[0] == deps@[d as int]@);
                if !contains_string(ids, &deps[d]) {
                    return Err(
                        WorkflowError::UnknownDependency {
                            step_id: step.step_id.clone(),
                            dependency: deps[d].clone(),
                        },
                    );
                }
                d = d + 1;
            }
            assert(strings_view(deps@).skip(0) == strings_view(deps@));
            i = i + 1;
        }
        Ok(())
    }
}


// ---------------------------------------------------------------------------------------------
// Dependency cycles
// ---------------------------------------------------------------------------------------------

proof fn lemma_ids_distinct(steps: Seq<WorkflowStepView>, i: int)
    requires
        0 <= i <= steps.len(),
        id_error(steps, i) is None,
        forall|a: int, b: int| 0 <= a < b < i ==> step_ids(steps)[a] != step_ids(steps)[b],
    ensures
        forall|a: int, b: int| 0 <= a < b < steps.len() ==> step_ids(steps)[a] != step_ids(steps)[b],
    decreases steps.len() - i,
{
    if i < steps.len() {
        let ids = step_ids(steps);
        assert forall|a: int, b: int| 0 <= a < b < i + 1 implies ids[a] != ids[b] by {
            if b == i {
                assert(ids.take(i)[a] == ids[a]);
                assert(ids[i] == steps[i].step_id);
            }
        }
        lemma_ids_distinct(steps, i + 1);
    }
}

proof fn lemma_known_deps(deps: Seq<Seq<char>>, ids: Seq<Seq<char>>)
    requires
        first_unknown_dep(deps, ids) is None,
    ensures
        forall|k: int| 0 <= k < deps.len() ==> ids.contains(#[trigger] deps[k]),
    decreases deps.len(),
{
    if deps.len() > 0 {
        lemma_known_deps(deps.drop_first(), ids);
        assert forall|k: int| 0 <= k < deps.len() implies ids.contains(#[trigger] deps[k]) by {
            if k > 0 {
                assert(deps.drop_first()[k - 1] == deps[k]);
            }
        }
    }
}

proof fn lemma_steps_ok(steps: Seq<WorkflowStepView>, i: int, ids: Seq<Seq<char>>, goal_len: int, reg: AgentRegistry)
    requires
        0 <= i <= steps.len(),
        steps_error(steps, i, ids, goal_len, reg) is None,
    ensures
        forall|k: int| i <= k < steps.len() ==> #[trigger] step_error(steps[k], ids, goal_len, reg) is None,
    decreases steps.len() - i,
{
    if i < steps.len() {
        lemma_steps_ok(steps, i + 1, ids, goal_len, reg);
    }
}

/// The adjacency lists describe exactly the dependencies between steps (by index).
pub open spec fn dep_adjacency(w: WorkflowIrView, av: Seq<Seq<usize>>) -> bool {
    let ids = step_ids(w.steps);
    &&& av.len() == ids.len()
    &&& forall|u: int, k: int| 0 <= u < av.len() && 0 <= k < av[u].len() ==> av[u][k] < ids.len()
    &&& forall|u: int, v: int|
        0 <= u < ids.len() && 0 <= v < ids.len() ==> (av[u].contains(v as usize) <==> dep_edge(w, ids[u], ids[v]))
}

pub open spec fn ids_distinct(ids: Seq<Seq<char>>) -> bool {
    forall|a: int, b: int| 0 <= a < b < ids.len() ==> ids[a] != ids[b]
}

pub open spec fn deps_known(w: WorkflowIrView) -> bool {
    forall|i: int, k: int|
        0 <= i < w.steps.len() && 0 <= k < w.steps[i].dependencies.len() ==> step_ids(w.steps).contains(
            #[trigger] w.steps[i].dependencies[k],
        )
}

impl WorkflowIr {
    fn dependency_adjacency(&self, ids: &Vec<String>) -> (adj: Vec<Vec<usize>>)
        requires
            strings_view(ids@) == step_ids(self@.steps),
            ids_distinct(step_ids(self@.steps)),
            deps_known(self@),
        ensures
            dep_adjacency(self@, adj_view(adj@)),
    {
        let ghost idv = step_ids(self@.steps);
        let mut adj: Vec<Vec<usize>> = Vec::new();
        let mut u: usize = 0;
        while u < self.steps.len()
            invariant
                u <= self.steps.len(),
                idv == step_ids(self@.steps),
                strings_view(ids@) == idv,
                ids_distinct(idv),
                deps_known(self@),
                adj@.len() == u,
                forall|a: int, k: int| 0 <= a < u && 0 <= k < adj@[a]@.len() ==> adj@[a]@[k] < idv.len(),
                forall|a: int, v: int|
                    0 <= a < u && 0 <= v < idv.len() ==> (adj@[a]@.contains(v as usize) <==> dep_edge(
                        self@,
                        idv[a],
                        idv[v],
                    )),
            decreases self.steps.len() - u,
        {
            let deps = &self.steps[u].dependencies;
            let mut list: Vec<usize> = Vec::new();
            let mut k: usize = 0;
            while k < deps.len()
                invariant
                    u < self.steps.len(),
                    k <= deps.len(),
                    *deps == self.steps@[u as int].dependencies,
                    idv == step_ids(self@.steps),
                    strings_view(ids@) == idv,
                    ids_distinct(idv),
                    deps_known(self@),
                    forall|m: int| 0 <= m < list@.len() ==> list@[m] < idv.len(),
                    forall|v: int|
                        #![trigger idv[v]]
                        0 <= v < idv.len() ==> (list@.contains(v as usize) <==> strings_view(deps@).take(
                            k as int,
                        ).contains(idv[v])),
                decreases deps.len() - k,
            {
                assert(self@.steps[u as int].dependencies[k as int] == deps@[k as int]@);
                assert(idv.contains(deps@[k as int]@));
                let v = index_of_string(ids, &deps[k]);
                let ghost old_list = list@;
                list.push(v);
                proof {
                    let dv = strings_view(deps@);
                    assert(dv.take(k + 1) == dv.take(k as int).push(dv[k as int]));
                    assert forall|w: int|
                        #![trigger idv[w]]
                        0 <= w < idv.len() implies (list@.contains(w as usize) <==> dv.take(k + 1).contains(
                        idv[w],
                    )) by {
                        if list@.contains(w as usize) && w != v {
                            let m = choose|m: int| 0 <= m < list@.len() && list@[m] == w as usize;
                            assert(old_list[m] == w as usize);
                            assert(old_list.contains(w as usize));
                            assert(dv.take(k as int).contains(idv[w]));
                            let m2 = choose|m2: int| 0 <= m2 < dv.take(k as int).len() && dv.take(k as int)[m2] == idv[w];
                            assert(dv.take(k + 1)[m2] == idv[w]);
                        }
                        if old_list.contains(w as usize) {
                            let m = choose|m: int| 0 <= m < old_list.len() && old_list[m] == w as usize;
                            assert(list@[m] == w as usize);
                        }
                        if w != v {
                            assert(idv[w] != idv[v as int]);
                        }
                        let dk = dv.take(k + 1);
                        if dk.contains(idv[w]) && w != v {
                            let m = choose|m: int| 0 <= m < dk.len() && dk[m] == idv[w];
                            if m == k {
                                assert(idv[w] == idv[v as int]);
                            } else {
                                assert(dv.take(k as int)[m] == idv[w]);
                            }
                        }
                        if w == v {
                            assert(list@[list@.len() - 1] == v);
                            assert(dv.take(k + 1)[k as int] == idv[w]);
                        }
                    }
                }
                k = k + 1;
            }
            proof {
                let dv = strings_view(deps@);
                assert(dv.take(deps@.len() as int) == dv);
                assert forall|v: int|
                    0 <= v < idv.len() implies (list@.contains(v as usize) <==> dep_edge(self@, idv[u as int], idv[v])) by {
                    if dep_edge(self@, idv[u as int], idv[v]) {
                        let i = choose|i: int|
                            0 <= i < self@.steps.len() && #[trigger] self@.steps[i].step_id == idv[u as int]
                                && self@.steps[i].dependencies.contains(idv[v]);
                        assert(idv[i] == idv[u as int]);
                        assert(i == u);
                    }
                    if list@.contains(v as usize) {
                        assert(self@.steps[u as int].step_id == idv[u as int]);
                    }
                }
            }
            adj.push(list);
            u = u + 1;
        }
        adj
    }
}

pub open spec fn vis_of(state: Seq<u8>) -> Seq<bool> {
    state.map_values(|x: u8| x != 0)
}

pub open spec fn stk_of(state: Seq<u8>) -> Seq<bool> {
    state.map_values(|x: u8| x == 1)
}

/// Depth-first visit: `Err(x)` when `x` is reached while it is still being visited.
#[verifier::rlimit(100)]
fn visit(
    u: usize,
    adj: &Vec<Vec<usize>>,
    state: &mut Vec<u8>,
    Ghost(path): Ghost<Seq<usize>>,
    Ghost(rank0): Ghost<Seq<int>>,
    Ghost(t0): Ghost<int>,
) -> (res: (Result<(), usize>, Ghost<(Seq<int>, int)>))
    requires
        dfs_state(adj_view(adj@), vis_of(old(state)@), stk_of(old(state)@), path, Seq::empty(), rank0, t0),
        forall|x: int| 0 <= x < old(state)@.len() ==> old(state)@[x] <= 2,
        u < adj.len(),
        path.len() > 0 ==> adj_view(adj@)[path.last() as int].contains(u),
    ensures
        match res.0 {
            Ok(()) => {
                &&& dfs_state(adj_view(adj@), vis_of(final(state)@), stk_of(final(state)@), path, Seq::empty(), res.1@.0, res.1@.1)
                &&& forall|x: int| 0 <= x < final(state)@.len() ==> final(state)@[x] <= 2
                &&& vis_of(final(state)@)[u as int]
                &&& !stk_of(final(state)@)[u as int]
                &&& stk_of(final(state)@) == stk_of(old(state)@)
                &&& forall|x: int| 0 <= x < adj.len() && vis_of(old(state)@)[x] ==> vis_of(final(state)@)[x]
                &&& forall|x: int|
                    0 <= x < adj.len() && black(vis_of(old(state)@), stk_of(old(state)@), x) ==> res.1@.0[x] == rank0[x]
                &&& res.1@.1 >= t0
            },
            Err(x) => x < adj.len() && exists|c: Seq<usize>| index_cycle(adj_view(adj@), c) && c[0] == x,
        },
    decreases unvisited(vis_of(old(state)@)),
{
    let ghost av = adj_view(adj@);
    let ghost n = adj.len() as int;
    let ghost entry = state@;
    if state[u] == 2 {
        proof {
            assert(vis_of(state@)[u as int]);
        }
        return (Ok(()), Ghost((rank0, t0)));
    }
    if state[u] == 1 {
        proof {
            assert(stk_of(state@)[u as int]);
            assert(path.contains(u));
            let p = choose|p: int| 0 <= p < path.len() && path[p] == u;
            let c = path.subrange(p, path.len() as int).push(u);
            assert forall|k: int| 0 <= k < c.len() - 1 implies av[#[trigger] c[k] as int].contains(c[k + 1]) by {
                if k < c.len() - 2 {
                    assert(c[k] == path[p + k]);
                    assert(c[k + 1] == path[p + k + 1]);
                } else {
                    assert(c[k] == path[path.len() - 1]);
                }
            }
            assert(index_cycle(av, c));
        }
        return (Err(u), Ghost((rank0, t0)));
    }
    proof {
        lemma_enter(av, vis_of(state@), stk_of(state@), path, Seq::empty(), rank0, t0, u);
    }
    state.set(u, 1);
    proof {
        assert(vis_of(state@) =~= vis_of(entry).update(u as int, true));
        assert(stk_of(state@) =~= stk_of(entry).update(u as int, true));
        lemma_unvisited_mono(vis_of(entry), vis_of(state@));
        assert(!vis_of(entry)[u as int] && vis_of(state@)[u as int]);
    }
    let ghost inner = path.push(u);
    let ghost mut rank = rank0;
    let ghost mut t = t0;
    let mut j: usize = 0;
    while j < adj[u].len()
        invariant
            av == adj_view(adj@),
            n == adj.len(),
            u < n,
            entry.len() == n,
            entry == old(state)@,
            !vis_of(entry)[u as int],
            inner == path.push(u),
            j <= av[u as int].len(),
            dfs_state(av, vis_of(state@), stk_of(state@), inner, Seq::empty(), rank, t),
            forall|x: int| 0 <= x < state@.len() ==> state@[x] <= 2,
            state@[u as int] == 1,
            stk_of(state@) == stk_of(entry).update(u as int, true),
            forall|x: int| 0 <= x < n && vis_of(entry)[x] ==> vis_of(state@)[x],
            unvisited(vis_of(state@)) < unvisited(vis_of(entry)),
            forall|x: int| 0 <= x < n && black(vis_of(entry), stk_of(entry), x) ==> rank[x] == rank0[x],
            t >= t0,
            forall|k: int|
                0 <= k < j ==> black(vis_of(state@), stk_of(state@), #[trigger] av[u as int][k] as int)
                    && rank[av[u as int][k] as int] < t,
        decreases av[u as int].len() - j,
    {
        let v = adj[u][j];
        assert(av[u as int][j as int] == v);
        let ghost pre_state = state@;
        let ghost pre_rank = rank;
        let ghost pre_t = t;
        proof {
            assert(inner.last() == u);
        }
        let (r, out) = visit(v, adj, state, Ghost(inner), Ghost(rank), Ghost(t));
        match r {
            Err(x) => {
                return (Err(x), Ghost((rank, t)));
            },
            Ok(()) => {},
        }
        proof {
            rank = out@.0;
            t = out@.1;
            lemma_unvisited_mono(vis_of(entry), vis_of(state@));
            assert forall|x: int| 0 <= x < n && black(vis_of(entry), stk_of(entry), x) implies rank[x] == rank0[x] by {
                assert(x != u);
                assert(black(vis_of(pre_state), stk_of(pre_state), x));
                assert(pre_rank[x] == rank0[x]);
            }
            assert forall|k: int|
                0 <= k < j + 1 implies black(vis_of(state@), stk_of(state@), #[trigger] av[u as int][k] as int)
                && rank[av[u as int][k] as int] < t by {
                let w = av[u as int][k] as int;
                assert(0 <= w < n);
                if k < j {
                    assert(black(vis_of(pre_state), stk_of(pre_state), w) && pre_rank[w] < pre_t);
                    assert(rank[w] == pre_rank[w]);
                    assert(vis_of(state@)[w]);
                    assert(stk_of(state@)[w] == stk_of(pre_state)[w]);
                } else {
                    assert(w == v);
                    assert(vis_of(state@)[w]);
                    assert(!stk_of(state@)[w]);
                    assert(black(vis_of(state@), stk_of(state@), w));
                    assert(rank[w] < t);
                }
            }
        }
        j = j + 1;
    }
    proof {
        lemma_leave(av, vis_of(state@), stk_of(state@), inner, Seq::empty(), rank, t, u);
        assert(inner.drop_last() =~= path);
    }
    let ghost pre_done = state@;
    state.set(u, 2);
    proof {
        assert(stk_of(state@) =~= stk_of(pre_done).update(u as int, false));
        assert(vis_of(state@) =~= vis_of(pre_done));
        assert(stk_of(state@) =~= stk_of(entry));
        rank = rank.update(u as int, t);
        t = t + 1;
    }
    (Ok(()), Ghost((rank, t)))
}

proof fn lemma_ranked_no_cycle(av: Seq<Seq<usize>>, rank: Seq<int>, c: Seq<usize>, k: int)
    requires
        rank.len() == av.len(),
        forall|u: int, m: int| 0 <= u < av.len() && 0 <= m < av[u].len() ==> rank[av[u][m] as int] < rank[u],
        index_cycle(av, c),
        0 <= k < c.len(),
    ensures
        rank[c[k] as int] <= rank[c[0] as int] - k,
    decreases k,
{
    if k > 0 {
        lemma_ranked_no_cycle(av, rank, c, k - 1);
        let a = c[k - 1] as int;
        assert(av[a].contains(c[k]));
        let m = choose|m: int| 0 <= m < av[a].len() && av[a][m] == c[k];
        assert(rank[av[a][m] as int] < rank[a]);
    }
}

impl WorkflowIr {
    fn validate_acyclic_dependencies(&self, ids: &Vec<String>) -> (res: Result<(), WorkflowError>)
        requires
            strings_view(ids@) == step_ids(self@.steps),
            ids_distinct(step_ids(self@.steps)),
            deps_known(self@),
        ensures
            res is Ok <==> deps_acyclic(self@),
            res is Err ==> (res->Err_0@ matches WorkflowErrorView::CyclicDependency(x) && on_dep_cycle(self@, x)),
    {
        let adj = self.dependency_adjacency(ids);
        let ghost av = adj_view(adj@);
        let ghost idv = step_ids(self@.steps);
        let n = adj.len();
        let mut state: Vec<u8> = Vec::new();
        let mut i: usize = 0;
        while i < n
            invariant
                i <= n,
                state@.len() == i,
                forall|x: int| 0 <= x < i ==> state@[x] == 0,
            decreases n - i,
        {
            state.push(0);
            i = i + 1;
        }
        let ghost mut rank: Seq<int> = Seq::new(n as nat, |x: int| 0int);
        let ghost mut t: int = 0;
        proof {
            assert forall|x: usize| (x as int) < n implies (stk_of(state@)[x as int] <==> Seq::<usize>::empty().contains(x)) by {}
        }
        let mut u: usize = 0;
        while u < n
            invariant
                u <= n,
                n == adj.len(),
                av == adj_view(adj@),
                idv == step_ids(self@.steps),
                strings_view(ids@) == idv,
                dep_adjacency(self@, av),
                dfs_state(av, vis_of(state@), stk_of(state@), Seq::empty(), Seq::empty(), rank, t),
                forall|x: int| 0 <= x < state@.len() ==> state@[x] <= 2,
                forall|x: int| 0 <= x < n ==> !stk_of(state@)[x],
                forall|x: int| 0 <= x < u ==> vis_of(state@)[x],
            decreases n - u,
        {
            let (r, out) = visit(u, &adj, &mut state, Ghost(Seq::empty()), Ghost(rank), Ghost(t));
            match r {
                Err(x) => {
                    proof {
                        let c = choose|c: Seq<usize>| index_cycle(av, c) && c[0] == x;
                        let names = c.map_values(|y: usize| idv[y as int]);
                        assert forall|k: int| 0 <= k < names.len() - 1 implies dep_edge(self@, #[trigger] names[k], names[k + 1]) by {
                            assert(av[c[k] as int].contains(c[k + 1]));
                        }
                        assert(is_dep_cycle(self@, names));
                        assert(names[0] == idv[x as int]);
                        assert(strings_view(ids@)[x as int] == ids@[x as int]@);
                    }
                    return Err(WorkflowError::CyclicDependency(ids[x].clone()));
                },
                Ok(()) => {},
            }
            proof {
                rank = out@.0;
                t = out@.1;
            }
            u = u + 1;
        }
        proof {
            assert forall|x: int, m: int|
                0 <= x < av.len() && 0 <= m < av[x].len() implies rank[av[x][m] as int] < rank[x] by {
                assert(vis_of(state@)[x]);
                assert(black(vis_of(state@), stk_of(state@), x));
            }
            assert forall|cc: Seq<Seq<char>>| !is_dep_cycle(self@, cc) by {
                if is_dep_cycle(self@, cc) {
                    assert forall|k: int| 0 <= k < cc.len() implies idv.contains(#[trigger] cc[k]) by {
                        let kk = if k < cc.len() - 1 { k } else { k - 1 };
                        assert(dep_edge(self@, cc[kk], cc[kk + 1]));
                        let i = choose|i: int|
                            0 <= i < self@.steps.len() && #[trigger] self@.steps[i].step_id == cc[kk]
                                && self@.steps[i].dependencies.contains(cc[kk + 1]);
                        assert(idv[i] == cc[kk]);
                        let m = choose|m: int| 0 <= m < self@.steps[i].dependencies.len() && self@.steps[i].dependencies[m] == cc[kk + 1];
                        assert(idv.contains(self@.steps[i].dependencies[m]));
                    }
                    let c = cc.map_values(|y: Seq<char>| (choose|i: int| 0 <= i < idv.len() && idv[i] == y) as usize);
                    assert forall|k: int| 0 <= k < c.len() implies c[k] < av.len() && idv[c[k] as int] == cc[k] by {
                        assert(idv.contains(cc[k]));
                    }
                    assert forall|k: int| 0 <= k < c.len() - 1 implies av[#[trigger] c[k] as int].contains(c[k + 1]) by {
                        assert(idv[c[k] as int] == cc[k]);
                        assert(idv[c[k + 1] as int] == cc[k + 1]);
                    }
                    assert(c[0] == c[c.len() - 1]);
                    lemma_ranked_no_cycle(av, rank, c, c.len() - 1);
                }
            }
        }
        Ok(())
    }

    /// Checks the workflow against its goal contract and the agent registry.
    pub fn validate(&self, goal: &GoalContract, registry: &AgentRegistry) -> (res: Result<(), WorkflowError>)
        requires
            registry.well_formed(),
        ensures
            validate_ok(self@, *goal, *registry, res),
    {
        if goal.success_definition.len() == 0 {
            return Err(WorkflowError::GoalHasNoSuccessDefinition);
        }
        if !(self.goal_id == goal.goal_id) {
            return Err(WorkflowError::GoalMismatch {
                workflow_goal_id: self.goal_id.clone(),
                contract_goal_id: goal.goal_id.clone(),
            });
        }
        if self.version == 0 {
            return Err(WorkflowError::InvalidVersion(0));
        }
        if self.steps.len() == 0 {
            return Err(WorkflowError::EmptyWorkflow);
        }
        if self.control_policy.max_parallel_steps == 0 {
            return Err(WorkflowError::InvalidControlPolicy(owned("max_parallel_steps must be greater than zero")));
        }
        if self.control_policy.max_patch_chain == 0 {
            return Err(WorkflowError::InvalidControlPolicy(owned("max_patch_chain must be greater than zero")));
        }
        let ids = match self.check_ids() {
            Err(e) => return Err(e),
            Ok(ids) => ids,
        };
        match self.check_steps(&ids, goal.success_definition.len(), registry) {
            Err(e) => return Err(e),
            Ok(()) => {},
        }
        proof {
            lemma_ids_distinct(self@.steps, 0);
            lemma_steps_ok(self@.steps, 0, step_ids(self@.steps), goal.success_definition@.len() as int, *registry);
            assert forall|i: int, k: int|
                0 <= i < self@.steps.len() && 0 <= k < self@.steps[i].dependencies.len() implies step_ids(self@.steps).contains(
                #[trigger] self@.steps[i].dependencies[k]) by {
                assert(step_error(self@.steps[i], step_ids(self@.steps), goal.success_definition@.len() as int, *registry) is None);
                lemma_known_deps(self@.steps[i].dependencies, step_ids(self@.steps));
                assert(self@.steps[i].dependencies[k] == self@.steps[i].dependencies[k]);
            }
        }
        self.validate_acyclic_dependencies(&ids)
    }
}


// ---------------------------------------------------------------------------------------------
// Patches
// ---------------------------------------------------------------------------------------------

/// What a patch answers: the failed steps and goal clauses that motivated it.
#[derive(Debug, Clone, PartialEq, Eq)]
pub struct PatchBasis {
    pub failed_steps: Vec<String>,
    pub failed_goal_clauses: Vec<usize>,
}

/// One edit of a workflow patch.
#[derive(Debug, Clone)]
pub enum WorkflowPatchOp {
    AddStep { after: Option<String>, step: WorkflowStep },
    ReplaceStepStatus { step_id: String, status: WorkflowStepStatus },
    ReplaceControlPolicy { control_policy: ControlPolicy },
}

/// A versioned edit of a workflow.
#[derive(Debug, Clone)]
pub struct WorkflowPatch {
    pub patch_id: String,
    pub workflow_id: String,
    pub from_version: usize,
    pub to_version: usize,
    pub basis: PatchBasis,
    pub ops: Vec<WorkflowPatchOp>,
    pub rationale: String,
    pub predicted_impact: serde_json::Value,
}

/// A patch edit with its text as character sequences.
pub enum PatchOpView {
    AddStep { after: Option<Seq<char>>, step: WorkflowStepView },
    ReplaceStepStatus { step_id: Seq<char>, status: WorkflowStepStatus },
    ReplaceControlPolicy { control_policy: ControlPolicy },
}

impl View for WorkflowPatchOp {
    type V = PatchOpView;

    open spec fn view(&self) -> PatchOpView {
        match self {
            WorkflowPatchOp::AddStep { after, step } => PatchOpView::AddStep {
                after: match after {
                    Some(a) => Some(a@),
                    None => None,
                },
                step: step@,
            },
            WorkflowPatchOp::ReplaceStepStatus { step_id, status } => PatchOpView::ReplaceStepStatus {
                step_id: step_id@,
                status: *status,
            },
            WorkflowPatchOp::ReplaceControlPolicy { control_policy } => PatchOpView::ReplaceControlPolicy {
                control_policy: *control_policy,
            },
        }
    }
}

/// The parts of a patch that decide what it does.
pub struct WorkflowPatchView {
    pub patch_id: Seq<char>,
    pub workflow_id: Seq<char>,
    pub from_version: usize,
    pub to_version: usize,
    pub ops: Seq<PatchOpView>,
}

impl View for WorkflowPatch {
    type V = WorkflowPatchView;

    open spec fn view(&self) -> WorkflowPatchView {
        WorkflowPatchView {
            patch_id: self.patch_id@,
            workflow_id: self.workflow_id@,
            from_version: self.from_version,
            to_version: self.to_version,
            ops: self.ops@.map_values(|o: WorkflowPatchOp| o@),
        }
    }
}

/// Some step carries the id.
pub open spec fn has_step_id(steps: Seq<WorkflowStepView>, id: Seq<char>) -> bool {
    exists|i: int| 0 <= i < steps.len() && #[trigger] steps[i].step_id == id
}

/// `i` is the first step that carries the id.
pub open spec fn first_with_id(steps: Seq<WorkflowStepView>, id: Seq<char>, i: int) -> bool {
    &&& 0 <= i < steps.len()
    &&& steps[i].step_id == id
    &&& forall|j: int| 0 <= j < i ==> #[trigger] steps[j].step_id != id
}

/// The position of the first step with the id (meaningful where there is one).
pub open spec fn first_index(steps: Seq<WorkflowStepView>, id: Seq<char>) -> int {
    choose|i: int| first_with_id(steps, id, i)
}

pub open spec fn with_steps(w: WorkflowIrView, steps: Seq<WorkflowStepView>) -> WorkflowIrView {
    WorkflowIrView { steps: steps, ..w }
}

pub open spec fn with_status(s: WorkflowStepView, status: WorkflowStepStatus) -> WorkflowStepView {
    WorkflowStepView { status: status, ..s }
}

/// One edit applied to a workflow.
pub open spec fn apply_op(w: WorkflowIrView, op: PatchOpView) -> Result<WorkflowIrView, WorkflowErrorView> {
    match op {
        PatchOpView::AddStep { after, step } => {
            if has_step_id(w.steps, step.step_id) {
                Err(WorkflowErrorView::DuplicateStepId(step.step_id))
            } else {
                match after {
                    Some(a) => if has_step_id(w.steps, a) {
                        Ok(with_steps(w, w.steps.insert(first_index(w.steps, a) + 1, step)))
                    } else {
                        Err(WorkflowErrorView::PatchTargetMissing(a))
                    },
                    None => Ok(with_steps(w, w.steps.push(step))),
                }
            }
        },
        PatchOpView::ReplaceStepStatus { step_id, status } => {
            if has_step_id(w.steps, step_id) {
                let i = first_index(w.steps, step_id);
                Ok(with_steps(w, w.steps.update(i, with_status(w.steps[i], status))))
            } else {
                Err(WorkflowErrorView::PatchTargetMissing(step_id))
            }
        },
        PatchOpView::ReplaceControlPolicy { control_policy } => Ok(
            WorkflowIrView { control_policy: control_policy, ..w },
        ),
    }
}

/// Edits applied in order; the first that fails stops the patch.
pub open spec fn apply_ops(w: WorkflowIrView, ops: Seq<PatchOpView>) -> Result<WorkflowIrView, WorkflowErrorView>
    decreases ops.len(),
{
    if ops.len() == 0 {
        Ok(w)
    } else {
        match apply_ops(w, ops.drop_last()) {
            Ok(v) => apply_op(v, ops.last()),
            Err(e) => Err(e),
        }
    }
}

/// `a - b`, or zero where `b` is larger.
pub open spec fn saturating_minus(a: usize, b: usize) -> int {
    if a >= b {
        a - b
    } else {
        0
    }
}

/// Why a patch does not fit the workflow it is applied to, checked before any edit.
pub open spec fn patch_header_error(w: WorkflowIrView, p: WorkflowPatchView) -> Option<WorkflowErrorView> {
    if p.workflow_id != w.workflow_id {
        Some(WorkflowErrorView::PatchWorkflowMismatch { expected: w.workflow_id, actual: p.workflow_id })
    } else if p.from_version != w.version {
        Some(WorkflowErrorView::PatchVersionMismatch { expected: w.version, actual: p.from_version })
    } else if p.to_version <= p.from_version {
        Some(WorkflowErrorView::InvalidPatchVersion { from_version: p.from_version, to_version: p.to_version })
    } else if p.ops.len() == 0 {
        Some(WorkflowErrorView::EmptyPatch(p.patch_id))
    } else if saturating_minus(p.to_version, 1) > w.control_policy.max_patch_chain {
        Some(
            WorkflowErrorView::PatchChainLimitExceeded {
                patch_id: p.patch_id,
                max_patch_chain: w.control_policy.max_patch_chain,
                attempted_to_version: p.to_version,
            },
        )
    } else {
        None
    }
}

/// The workflow a patch produces, before it is validated.
pub open spec fn patched(w: WorkflowIrView, p: WorkflowPatchView) -> Result<WorkflowIrView, WorkflowErrorView> {
    match patch_header_error(w, p) {
        Some(e) => Err(e),
        None => apply_ops(
            WorkflowIrView { version: p.to_version, parent_version: Some(w.version), ..w },
            p.ops,
        ),
    }
}

/// What `apply_patch` answers: the patched workflow when it validates, the first error
/// otherwise.
pub open spec fn apply_patch_ok(
    w: WorkflowIrView,
    p: WorkflowPatchView,
    goal: GoalContract,
    reg: AgentRegistry,
    res: Result<WorkflowIr, WorkflowError>,
) -> bool {
    match patched(w, p) {
        Err(e) => res is Err && res->Err_0@ == e,
        Ok(n) => match res {
            Ok(r) => r@ == n && validate_ok(n, goal, reg, Ok(())),
            Err(e) => validate_ok(n, goal, reg, Err(e)),
        },
    }
}

proof fn lemma_first_unique(steps: Seq<WorkflowStepView>, id: Seq<char>, i: int)
    requires
        first_with_id(steps, id, i),
    ensures
        has_step_id(steps, id),
        first_index(steps, id) == i,
{
    let c = first_index(steps, id);
    assert(first_with_id(steps, id, c));
    if c < i {
        assert(steps[c].step_id != id);
    } else if c > i {
        assert(steps[i].step_id != id);
    }
}

pub fn copy_usizes(v: &Vec<usize>) -> (res: Vec<usize>)
    ensures
        res@ == v@,
{
    let mut res: Vec<usize> = Vec::new();
    let mut i: usize = 0;
    while i < v.len()
        invariant
            i <= v.len(),
            res@ == v@.take(i as int),
        decreases v.len() - i,
    {
        res.push(v[i]);
        assert(v@.take(i + 1) == v@.take(i as int).push(v@[i as int]));
        i = i + 1;
    }
    assert(v@.take(v.len() as int) == v@);
    res
}

impl WorkflowStep {
    pub(crate) fn copied(&self) -> (res: WorkflowStep)
        ensures
            res@ == self@,
    {
        WorkflowStep {
            step_id: self.step_id.clone(),
            title: self.title.clone(),
            kind: self.kind,
            agent_type: self.agent_type.clone(),
            mode: self.mode,
            task: self.task.clone(),
            inputs: self.inputs.clone(),
            dependencies: copy_strings(&self.dependencies),
            acceptance_criteria: copy_strings(&self.acceptance_criteria),
            goal_alignment: GoalAlignment {
                success_clauses: copy_usizes(&self.goal_alignment.success_clauses),
                why_necessary: self.goal_alignment.why_necessary.clone(),
            },
            retry_policy: self.retry_policy,
            status: self.status,
        }
    }
}

/// The first step with the id, or `None` where no step carries it.
pub(crate) fn find_step(steps: &Vec<WorkflowStep>, id: &String) -> (res: Option<usize>)
    ensures
        match res {
            Some(i) => first_with_id(steps_view(steps@), id@, i as int),
            None => !has_step_id(steps_view(steps@), id@),
        },
{
    let ghost sv = steps_view(steps@);
    let mut i: usize = 0;
    while i < steps.len()
        invariant
            i <= steps.len(),
            sv == steps_view(steps@),
            forall|j: int| 0 <= j < i ==> #[trigger] sv[j].step_id != id@,
        decreases steps.len() - i,
    {
        if steps[i].step_id == *id {
            return Some(i);
        }
        i = i + 1;
    }
    None
}

impl WorkflowIr {
    fn copied(&self) -> (res: WorkflowIr)
        ensures
            res@ == self@,
    {
        let mut steps: Vec<WorkflowStep> = Vec::new();
        let mut i: usize = 0;
        while i < self.steps.len()
            invariant
                i <= self.steps.len(),
                steps_view(steps@) == steps_view(self.steps@).take(i as int),
            decreases self.steps.len() - i,
        {
            let s = self.steps[i].copied();
            steps.push(s);
            assert(steps_view(self.steps@).take(i + 1) == steps_view(self.steps@).take(i as int).push(
                self.steps@[i as int]@,
            ));
            i = i + 1;
        }
        assert(steps_view(self.steps@).take(self.steps.len() as int) == steps_view(self.steps@));
        WorkflowIr {
            workflow_id: self.workflow_id.clone(),
            goal_id: self.goal_id.clone(),
            version: self.version,
            parent_version: self.parent_version,
            status: self.status,
            global_context: self.global_context.clone(),
            control_policy: self.control_policy,
            steps: steps,
            created_by: self.created_by.clone(),
            created_at: self.created_at.clone(),
        }
    }

    /// Applies one edit in place.
    fn apply_op_in_place(&mut self, op: &WorkflowPatchOp) -> (res: Result<(), WorkflowError>)
        ensures
            match apply_op(old(self)@, op@) {
                Ok(v) => res is Ok && final(self)@ == v,
                Err(e) => res is Err && res->Err_0@ == e,
            },
    {
        match op {
            WorkflowPatchOp::AddStep { after, step } => {
                match find_step(&self.steps, &step.step_id) {
                    Some(i) => {
                        proof {
                            assert(steps_view(self.steps@)[i as int].step_id == step@.step_id);
                        }
                        return Err(WorkflowError::DuplicateStepId(step.step_id.clone()));
                    },
                    None => {},
                }
                match after {
                    Some(a) => {
                        match find_step(&self.steps, a) {
                            None => {
                                return Err(WorkflowError::PatchTargetMissing(a.clone()));
                            },
                            Some(pos) => {
                                proof {
                                    lemma_first_unique(steps_view(self.steps@), a@, pos as int);
                                    assert(steps_view(self.steps@).len() == self.steps@.len());
                                }
                                let n = self.steps.len();
                                assert(pos < n);
                                let ghost before = self@;
                                let s = step.copied();
                                self.steps.insert(pos + 1, s);
                                assert(steps_view(self.steps@) == before.steps.insert(pos + 1, step@));
                            },
                        }
                    },
                    None => {
                        let ghost before = self@;
                        let s = step.copied();
                        self.steps.push(s);
                        assert(steps_view(self.steps@) == before.steps.push(step@));
                    },
                }
                Ok(())
            },
            WorkflowPatchOp::ReplaceStepStatus { step_id, status } => {
                match find_step(&self.steps, step_id) {
                    None => Err(WorkflowError::PatchTargetMissing(step_id.clone())),
                    Some(pos) => {
                        proof {
                            lemma_first_unique(steps_view(self.steps@), step_id@, pos as int);
                        }
                        let ghost before = self@;
                        let mut s = self.steps[pos].copied();
                        s.status = *status;
                        self.steps.set(pos, s);
                        assert(steps_view(self.steps@) == before.steps.update(
                            pos as int,
                            with_status(before.steps[pos as int], *status),
                        ));
                        Ok(())
                    },
                }
            },
            WorkflowPatchOp::ReplaceControlPolicy { control_policy } => {
                self.control_policy = *control_policy;
                Ok(())
            },
        }
    }

    /// Applies a patch: checks that it fits this workflow, makes a new version with the
    /// parent pointing here, applies the edits in order and validates the result.
    pub fn apply_patch(&self, patch: &WorkflowPatch, goal: &GoalContract, registry: &AgentRegistry) -> (res: Result<
        WorkflowIr,
        WorkflowError,
    >)
        requires
            registry.well_formed(),
        ensures
            apply_patch_ok(self@, patch@, *goal, *registry, res),
    {
        if !(patch.workflow_id == self.workflow_id) {
            return Err(WorkflowError::PatchWorkflowMismatch {
                expected: self.workflow_id.clone(),
                actual: patch.workflow_id.clone(),
            });
        }
        if patch.from_version != self.version {
            return Err(WorkflowError::PatchVersionMismatch { expected: self.version, actual: patch.from_version });
        }
        if patch.to_version <= patch.from_version {
            return Err(WorkflowError::InvalidPatchVersion {
                from_version: patch.from_version,
                to_version: patch.to_version,
            });
        }
        if patch.ops.len() == 0 {
            return Err(WorkflowError::EmptyPatch(patch.patch_id.clone()));
        }
        if patch.to_version.saturating_sub(1) > self.control_policy.max_patch_chain {
            return Err(WorkflowError::PatchChainLimitExceeded {
                patch_id: patch.patch_id.clone(),
                max_patch_chain: self.control_policy.max_patch_chain,
                attempted_to_version: patch.to_version,
            });
        }
        let mut next = self.copied();
        next.parent_version = Some(self.version);
        next.version = patch.to_version;
        let ghost start = next@;
        let ghost ops = patch@.ops;
        assert(start == WorkflowIrView { version: patch.to_version, parent_version: Some(self.version), ..self@ });
        let mut i: usize = 0;
        while i < patch.ops.len()
            invariant
                i <= patch.ops.len(),
                ops == patch@.ops,
                ops.len() == patch.ops.len(),
                patch_header_error(self@, patch@) is None,
                start == (WorkflowIrView { version: patch.to_version, parent_version: Some(self.version), ..self@ }),
                apply_ops(start, ops.take(i as int)) == Ok::<WorkflowIrView, WorkflowErrorView>(next@),
            decreases patch.ops.len() - i,
        {
            assert(ops.take(i + 1).drop_last() == ops.take(i as int));
            assert(ops.take(i + 1).last() == patch.ops@[i as int]@);
            let ghost cur = next@;
            match next.apply_op_in_place(&patch.ops[i]) {
                Err(e) => {
                    proof {
                        assert(apply_ops(start, ops.take(i + 1)) == apply_op(cur, ops[i as int]));
                        lemma_ops_stop(start, ops, i as int + 1);
                    }
                    return Err(e);
                },
                Ok(()) => {},
            }
            i = i + 1;
        }
        assert(ops.take(ops.len() as int) == ops);
        match next.validate(goal, registry) {
            Err(e) => Err(e),
            Ok(()) => Ok(next),
        }
    }
}

/// Once an edit fails, the whole patch fails with that error.
proof fn lemma_ops_stop(w: WorkflowIrView, ops: Seq<PatchOpView>, k: int)
    requires
        0 < k <= ops.len(),
        apply_ops(w, ops.take(k)) is Err,
    ensures
        apply_ops(w, ops) == apply_ops(w, ops.take(k)),
    decreases ops.len() - k,
{
    if k < ops.len() {
        assert(ops.take(k + 1).drop_last() == ops.take(k));
        lemma_ops_stop(w, ops, k + 1);
    } else {
        assert(ops.take(k) == ops);
    }
}


/// Where a step carries the id, there is a first one.
proof fn lemma_first_exists(s: Seq<WorkflowStepView>, id: Seq<char>)
    requires
        has_step_id(s, id),
    ensures
        first_with_id(s, id, first_index(s, id)),
    decreases s.len(),
{
    let t = s.drop_last();
    if has_step_id(t, id) {
        lemma_first_exists(t, id);
        let i = first_index(t, id);
        assert forall|j: int| 0 <= j < i implies #[trigger] s[j].step_id != id by {
            assert(t[j].step_id != id);
        }
        assert(first_with_id(s, id, i));
    } else {
        let k = choose|k: int| 0 <= k < s.len() && #[trigger] s[k].step_id == id;
        if k < s.len() - 1 {
            assert(t[k].step_id == id);
        }
        assert(first_with_id(s, id, s.len() - 1)) by {
            assert forall|j: int| 0 <= j < s.len() - 1 implies #[trigger] s[j].step_id != id by {
                if s[j].step_id == id {
                    assert(t[j].step_id == id);
                }
            }
        }
    }
}

proof fn lemma_ops_keep_identity(w: WorkflowIrView, ops: Seq<PatchOpView>, n: WorkflowIrView, id: Seq<char>)
    requires
        apply_ops(w, ops) == Ok::<WorkflowIrView, WorkflowErrorView>(n),
    ensures
        n.workflow_id == w.workflow_id,
        n.goal_id == w.goal_id,
        n.version == w.version,
        n.parent_version == w.parent_version,
        n.steps.len() >= w.steps.len(),
        has_step_id(w.steps, id) ==> has_step_id(n.steps, id),
    decreases ops.len(),
{
    if ops.len() > 0 {
        let v = apply_ops(w, ops.drop_last())->Ok_0;
        lemma_ops_keep_identity(w, ops.drop_last(), v, id);
        match ops.last() {
            PatchOpView::AddStep { after, step } => {
                if let Some(a) = after {
                    if has_step_id(v.steps, a) {
                        lemma_first_exists(v.steps, a);
                    }
                }
            },
            PatchOpView::ReplaceStepStatus { step_id, status } => {
                if has_step_id(v.steps, step_id) {
                    lemma_first_exists(v.steps, step_id);
                }
            },
            PatchOpView::ReplaceControlPolicy { control_policy } => {},
        }
        if has_step_id(v.steps, id) {
            let k = choose|k: int| 0 <= k < v.steps.len() && #[trigger] v.steps[k].step_id == id;
            match ops.last() {
                PatchOpView::AddStep { after, step } => {
                    match after {
                        Some(a) => {
                            let pos = first_index(v.steps, a) + 1;
                            if k < pos {
                                assert(n.steps[k].step_id == id);
                            } else {
                                assert(n.steps[k + 1].step_id == id);
                            }
                        },
                        None => {
                            assert(n.steps[k].step_id == id);
                        },
                    }
                },
                PatchOpView::ReplaceStepStatus { step_id, status } => {
                    assert(n.steps[k].step_id == id);
                },
                PatchOpView::ReplaceControlPolicy { control_policy } => {
                    assert(n.steps[k].step_id == id);
                },
            }
        }
    }
}

/// A patch that applies makes the version it names, with the parent pointing at the
/// version it was applied to, keeps the workflow's identity and goal, and keeps every step
/// that was there.
pub proof fn lemma_patch_version_chain(w: WorkflowIrView, p: WorkflowPatchView, n: WorkflowIrView, id: Seq<char>)
    requires
        patched(w, p) == Ok::<WorkflowIrView, WorkflowErrorView>(n),
    ensures
        n.version == p.to_version,
        n.version > w.version,
        n.parent_version == Some(w.version),
        n.workflow_id == w.workflow_id,
        n.goal_id == w.goal_id,
        has_step_id(w.steps, id) ==> has_step_id(n.steps, id),
{
    let start = WorkflowIrView { version: p.to_version, parent_version: Some(w.version), ..w };
    lemma_ops_keep_identity(start, p.ops, n, id);
}


// ---------------------------------------------------------------------------------------------
// Runtime records
// ---------------------------------------------------------------------------------------------

#[derive(Debug, Clone, Copy, PartialEq, Eq, Structural)]
pub enum StepReportStatus {
    Completed,
    Partial,
    Failed,
    Blocked,
}

#[derive(Debug, Clone, Copy, PartialEq, Eq, Structural)]
pub enum ArtifactType {
    Patch,
    TestReport,
    VerificationReport,
    Log,
    Screenshot,
    Other,
}

#[derive(Debug, Clone, Copy, PartialEq, Eq, Structural)]
pub enum RetentionPolicy {
    Ephemeral,
    Run,
    Workflow,
    Permanent,
}

/// A file a step produced.
#[derive(Debug, Clone, PartialEq, Eq)]
pub struct ArtifactRef {
    pub artifact_id: String,
    pub artifact_type: ArtifactType,
    pub uri: String,
    pub hash: String,
    pub mime_type: String,
    pub producer_step_id: String,
    pub retention_policy: RetentionPolicy,
    pub created_at: String,
}

/// A next step that a report suggests.
#[derive(Debug, Clone, PartialEq, Eq)]
pub struct SuggestedNextStep {
    pub proposal: String,
    pub reason: String,
}

#[derive(Debug, Clone, Copy, PartialEq, Eq, Structural)]
pub enum VerificationLevel {
    Step,
    Integration,
    Goal,
}

#[derive(Debug, Clone, Copy, PartialEq, Eq, Structural)]
pub enum VerificationOutcome {
    Pass,
    Fail,
    CannotVerify,
}

/// The verdict of one check of a step, run or goal.
#[derive(Debug, Clone, PartialEq, Eq)]
pub struct VerificationFinding {
    pub verification_id: String,
    pub level: VerificationLevel,
    pub target: String,
    pub result: VerificationOutcome,
    pub failed_clauses: Vec<usize>,
    pub reason_code: String,
    pub summary: String,
    pub evidence_refs: Vec<String>,
    pub minimal_fix_surface: Vec<String>,
}

#[derive(Debug, Clone, Copy, PartialEq, Eq, Structural)]
pub enum RunStatus {
    Queued,
    Running,
    Paused,
    Failed,
    Succeeded,
}

/// What a dispatched step must produce.
#[derive(Debug, Clone, PartialEq, Eq)]
pub struct ArtifactContract {
    pub expected_output: String,
    pub acceptance_criteria: Vec<String>,
    pub success_clauses: Vec<usize>,
}

/// Where a workflow run stands, step ids grouped by status.
#[derive(Debug, Clone, PartialEq, Eq)]
pub struct WorkflowStateSummary {
    pub workflow_id: String,
    pub workflow_version: usize,
    pub workflow_status: WorkflowStatus,
    pub run_id: String,
    pub run_status: RunStatus,
    pub active_step_ids: Vec<String>,
    pub pending_step_ids: Vec<String>,
    pub verified_step_ids: Vec<String>,
    pub failed_step_ids: Vec<String>,
    pub blocked_step_ids: Vec<String>,
    pub context_digest_version: usize,
}

/// The limits a replanning orchestrator works within.
#[derive(Debug, Clone, PartialEq, Eq)]
pub struct RuntimePolicies {
    pub max_parallel_steps: usize,
    pub max_patch_chain: usize,
    pub replan_on_verification_fail: bool,
    pub allow_subagent_delegation: bool,
    pub allowed_orchestrator_outputs: Vec<String>,
}

/// The append-only event ledger of workflow runs (files under `.harness/runs`).
pub struct WorkflowRuntimeEventStore;

/// The log severity of a step report.
pub open spec fn report_severity(s: StepReportStatus) -> Seq<char> {
    match s {
        StepReportStatus::Completed => "INFO"@,
        StepReportStatus::Partial | StepReportStatus::Blocked => "WARN"@,
        StepReportStatus::Failed => "ERROR"@,
    }
}

pub fn step_report_event_severity(status: &StepReportStatus) -> (res: &'static str)
    ensures
        res@ == report_severity(*status),
{
    match status {
        StepReportStatus::Completed => "INFO",
        StepReportStatus::Partial | StepReportStatus::Blocked => "WARN",
        StepReportStatus::Failed => "ERROR",
    }
}

/// The event name of a verification outcome.
pub open spec fn verification_event(r: VerificationOutcome) -> Seq<char> {
    match r {
        VerificationOutcome::Pass => "workflow.verification.passed"@,
        VerificationOutcome::Fail => "workflow.verification.failed"@,
        VerificationOutcome::CannotVerify => "workflow.verification.cannot_verify"@,
    }
}

pub fn verification_event_name(result: &VerificationOutcome) -> (res: &'static str)
    ensures
        res@ == verification_event(*result),
{
    match result {
        VerificationOutcome::Pass => "workflow.verification.passed",
        VerificationOutcome::Fail => "workflow.verification.failed",
        VerificationOutcome::CannotVerify => "workflow.verification.cannot_verify",
    }
}

/// The log severity of a verification outcome.
pub open spec fn verification_severity(r: VerificationOutcome) -> Seq<char> {
    match r {
        VerificationOutcome::Pass => "INFO"@,
        VerificationOutcome::Fail => "ERROR"@,
        VerificationOutcome::CannotVerify => "WARN"@,
    }
}

pub fn verification_event_severity(result: &VerificationOutcome) -> (res: &'static str)
    ensures
        res@ == verification_severity(*result),
{
    match result {
        VerificationOutcome::Pass => "INFO",
        VerificationOutcome::Fail => "ERROR",
        VerificationOutcome::CannotVerify => "WARN",
    }
}

/// How long a step of the mode may run, in seconds.
pub open spec fn mode_runtime_secs(m: WorkflowStepMode) -> u64 {
    match m {
        WorkflowStepMode::ReadOnly | WorkflowStepMode::ReviewOnly => 300,
        WorkflowStepMode::TestOnly => 600,
        WorkflowStepMode::WritePatch => 900,
    }
}

pub fn runtime_secs_for_mode(mode: &WorkflowStepMode) -> (res: u64)
    ensures
        res == mode_runtime_secs(*mode),
{
    match mode {
        WorkflowStepMode::ReadOnly | WorkflowStepMode::ReviewOnly => 300,
        WorkflowStepMode::TestOnly => 600,
        WorkflowStepMode::WritePatch => 900,
    }
}

/// The verb that reports a patch decision.
pub fn patch_decision_verb(accepted: bool) -> (res: &'static str)
    ensures
        res@ == if accepted {
            "accepted"@
        } else {
            "rejected"@
        },
{
    if accepted {
        "accepted"
    } else {
        "rejected"
    }
}

/// A character allowed in a runtime path component.
pub open spec fn component_char(c: char) -> bool {
    ('a' <= c && c <= 'z') || ('A' <= c && c <= 'Z') || ('0' <= c && c <= '9') || c == '_' || c == '-'
}

/// A run id that may name a directory: not padded with white space, not empty, and made of
/// ASCII letters, digits, `_` and `-` only (so neither `.` nor a separator can occur).
pub open spec fn safe_component(v: Seq<char>) -> bool {
    &&& trim(v) == v
    &&& v.len() > 0
    &&& forall|i: int| 0 <= i < v.len() ==> component_char(#[trigger] v[i])
}

/// Checks that a value can be used as one component of a runtime path.
pub fn safe_runtime_component(value: &str) -> (res: Result<String, WorkflowError>)
    ensures
        match res {
            Ok(v) => safe_component(value@) && v@ == value@,
            Err(e) => !safe_component(value@) && e@ == WorkflowErrorView::UnsafeRuntimeComponent(value@),
        },
{
    let cs = chars_of(value);
    let t = trim_chars(&cs);
    let mut ok = seq_eq(&t, &cs) && cs.len() > 0;
    let mut i: usize = 0;
    while ok && i < cs.len()
        invariant
            i <= cs.len(),
            cs@ == value@,
            ok ==> forall|k: int| 0 <= k < i ==> component_char(#[trigger] cs@[k]),
            ok ==> trim(value@) == value@ && value@.len() > 0,
            !ok ==> !safe_component(value@),
        decreases cs.len() - i,
    {
        let c = cs[i];
        if !(('a' <= c && c <= 'z') || ('A' <= c && c <= 'Z') || ('0' <= c && c <= '9') || c == '_' || c == '-') {
            ok = false;
        }
        i = i + 1;
    }
    if ok {
        Ok(owned(value))
    } else {
        Err(WorkflowError::UnsafeRuntimeComponent(owned(value)))
    }
}

/// `root/.harness/runs/<run id>/events.jsonl`, joined as paths join.
pub open spec fn event_log_text(root: Seq<char>, run_id: Seq<char>) -> Seq<char> {
    path_join(path_join(path_join(path_join(root, ".harness"@), "runs"@), run_id), "events.jsonl"@)
}

impl WorkflowRuntimeEventStore {
    /// The event log of a run, for a run id that is safe as a path component.
    pub fn event_log_path(root: &str, run_id: &str) -> (res: Result<String, WorkflowError>)
        ensures
            match res {
                Ok(p) => safe_component(run_id@) && p@ == event_log_text(root@, run_id@),
                Err(e) => !safe_component(run_id@) && e@ == WorkflowErrorView::UnsafeRuntimeComponent(run_id@),
            },
    {
        let id = match safe_runtime_component(run_id) {
            Err(e) => return Err(e),
            Ok(id) => id,
        };
        let a = join_path(root, ".harness");
        let b = join_path(a.as_str(), "runs");
        let c = join_path(b.as_str(), id.as_str());
        Ok(join_path(c.as_str(), "events.jsonl"))
    }
}


/// A run of a workflow version. The worktree map pairs write steps with their worktree
/// directory.
#[derive(Debug, Clone)]
pub struct WorkflowRunState {
    pub run_id: String,
    pub workflow_id: String,
    pub workflow_version: usize,
    pub status: RunStatus,
    pub started_at: String,
    pub ended_at: Option<String>,
    pub active_step_ids: Vec<String>,
    pub worktree_map: Vec<(String, String)>,
    pub metrics: serde_json::Value,
    pub context_digest_version: usize,
}

/// `.harness/worktrees/<run>/<step>`.
pub open spec fn worktree_text(run_id: Seq<char>, step_id: Seq<char>) -> Seq<char> {
    ".harness/worktrees/"@ + run_id + "/"@ + step_id
}

/// The default worktree directory of a write step.
pub fn default_worktree_path(run_id: &str, step_id: &str) -> (res: String)
    ensures
        res@ == worktree_text(run_id@, step_id@),
{
    let mut v: Vec<char> = Vec::new();
    push_str(&mut v, ".harness/worktrees/");
    push_str(&mut v, run_id);
    push_str(&mut v, "/");
    push_str(&mut v, step_id);
    string_of(&v)
}

/// The worktree entries of a run: one per write step, in step order.
pub open spec fn worktree_entries(run_id: Seq<char>, steps: Seq<WorkflowStepView>) -> Seq<(Seq<char>, Seq<char>)>
    decreases steps.len(),
{
    if steps.len() == 0 {
        Seq::empty()
    } else {
        let rest = worktree_entries(run_id, steps.drop_last());
        let s = steps.last();
        if s.mode == WorkflowStepMode::WritePatch {
            rest.push((s.step_id, worktree_text(run_id, s.step_id)))
        } else {
            rest
        }
    }
}

pub open spec fn pairs_view(v: Seq<(String, String)>) -> Seq<(Seq<char>, Seq<char>)> {
    v.map_values(|p: (String, String)| (p.0@, p.1@))
}

impl WorkflowRunState {
    /// A new running run of the workflow, with a worktree for each write step.
    pub fn for_workflow(run_id: &str, workflow: &WorkflowIr, started_at: &str) -> (res: WorkflowRunState)
        ensures
            res.run_id@ == run_id@,
            res.workflow_id@ == workflow.workflow_id@,
            res.workflow_version == workflow.version,
            res.status == RunStatus::Running,
            res.started_at@ == started_at@,
            res.ended_at is None,
            res.active_step_ids@.len() == 0,
            pairs_view(res.worktree_map@) == worktree_entries(run_id@, workflow@.steps),
            res.context_digest_version == 1,
            res.metrics == crate::proposals::json_object_of(Seq::<(Seq<char>, Seq<char>)>::empty()),
    {
        let mut map: Vec<(String, String)> = Vec::new();
        let mut i: usize = 0;
        while i < workflow.steps.len()
            invariant
                i <= workflow.steps.len(),
                pairs_view(map@) == worktree_entries(run_id@, workflow@.steps.take(i as int)),
            decreases workflow.steps.len() - i,
        {
            assert(workflow@.steps.take(i + 1).drop_last() == workflow@.steps.take(i as int));
            let step = &workflow.steps[i];
            let is_write = match step.mode {
                WorkflowStepMode::WritePatch => true,
                _ => false,
            };
            if is_write {
                let ghost before = pairs_view(map@);
                map.push((step.step_id.clone(), default_worktree_path(run_id, step.step_id.as_str())));
                assert(pairs_view(map@) =~= before.push((step.step_id@, worktree_text(run_id@, step.step_id@))));
            }
            i = i + 1;
        }
        assert(workflow@.steps.take(workflow.steps.len() as int) == workflow@.steps);
        let no_members: Vec<(String, String)> = Vec::new();
        assert(crate::proposals::pairs_text(no_members@) =~= Seq::<(Seq<char>, Seq<char>)>::empty());
        let metrics = crate::proposals::json_text_object(&no_members);
        WorkflowRunState {
            run_id: owned(run_id),
            workflow_id: workflow.workflow_id.clone(),
            workflow_version: workflow.version,
            status: RunStatus::Running,
            started_at: owned(started_at),
            ended_at: None,
            active_step_ids: Vec::new(),
            worktree_map: map,
            metrics,
            context_digest_version: 1,
        }
    }
}

/// Every step of a workflow is sound against a goal of `goal_len` clauses and a registry: its
/// agent is registered, it has acceptance criteria and goal clauses, every clause lies in
/// `1..=goal_len`, and every dependency names a step.
pub open spec fn steps_sound(steps: Seq<WorkflowStepView>, goal_len: int, reg: AgentRegistry) -> bool {
    forall|i: int| 0 <= i < steps.len() ==> {
        let s = #[trigger] steps[i];
        &&& reg.lookup(s.agent_type) is Some
        &&& s.acceptance_criteria.len() > 0
        &&& s.success_clauses.len() > 0
        &&& forall|c: int| 0 <= c < s.success_clauses.len() ==> 1 <= #[trigger] s.success_clauses[c] <= goal_len
        &&& forall|d: int| 0 <= d < s.dependencies.len() ==> step_ids(steps).contains(#[trigger] s.dependencies[d])
    }
}

/// The step ids are not blank and no two are the same.
pub open spec fn ids_sound(steps: Seq<WorkflowStepView>) -> bool {
    &&& forall|i: int| 0 <= i < steps.len() ==> trim((#[trigger] steps[i]).step_id).len() > 0
    &&& step_ids(steps).no_duplicates()
}

proof fn lemma_bad_clause(cl: Seq<usize>, goal_len: int)
    ensures
        first_bad_clause(cl, goal_len) is None <==> forall|c: int| 0 <= c < cl.len() ==> 1 <= #[trigger] cl[c] <= goal_len,
    decreases cl.len(),
{
    if cl.len() > 0 {
        lemma_bad_clause(cl.drop_first(), goal_len);
        if first_bad_clause(cl, goal_len) is None {
            assert forall|c: int| 0 <= c < cl.len() implies 1 <= #[trigger] cl[c] <= goal_len by {
                if c > 0 {
                    assert(cl[c] == cl.drop_first()[c - 1]);
                }
            }
        } else if cl[0] != 0 && cl[0] <= goal_len {
            assert(!(forall|c: int| 0 <= c < cl.drop_first().len() ==> 1 <= #[trigger] cl.drop_first()[c] <= goal_len));
            let c = choose|c: int| !(0 <= c < cl.drop_first().len() ==> 1 <= #[trigger] cl.drop_first()[c] <= goal_len);
            assert(cl[c + 1] == cl.drop_first()[c]);
        }
    }
}

proof fn lemma_unknown_dep(deps: Seq<Seq<char>>, ids: Seq<Seq<char>>)
    ensures
        first_unknown_dep(deps, ids) is None <==> forall|d: int| 0 <= d < deps.len() ==> ids.contains(#[trigger] deps[d]),
    decreases deps.len(),
{
    if deps.len() > 0 {
        lemma_unknown_dep(deps.drop_first(), ids);
        if first_unknown_dep(deps, ids) is None {
            assert forall|d: int| 0 <= d < deps.len() implies ids.contains(#[trigger] deps[d]) by {
                if d > 0 {
                    assert(deps[d] == deps.drop_first()[d - 1]);
                }
            }
        } else if ids.contains(deps[0]) {
            let d = choose|d: int| !(0 <= d < deps.drop_first().len() ==> ids.contains(#[trigger] deps.drop_first()[d]));
            assert(deps[d + 1] == deps.drop_first()[d]);
        }
    }
}

proof fn lemma_steps_error(steps: Seq<WorkflowStepView>, i: int, goal_len: int, reg: AgentRegistry)
    requires
        0 <= i <= steps.len(),
    ensures
        steps_error(steps, i, step_ids(steps), goal_len, reg) is None <==> forall|k: int|
            i <= k < steps.len() ==> step_error(#[trigger] steps[k], step_ids(steps), goal_len, reg) is None,
    decreases steps.len() - i,
{
    if i < steps.len() {
        lemma_steps_error(steps, i + 1, goal_len, reg);
    }
}

proof fn lemma_step_error(s: WorkflowStepView, ids: Seq<Seq<char>>, goal_len: int, reg: AgentRegistry)
    ensures
        step_error(s, ids, goal_len, reg) is None <==> {
            &&& reg.lookup(s.agent_type) is Some
            &&& s.acceptance_criteria.len() > 0
            &&& s.success_clauses.len() > 0
            &&& forall|c: int| 0 <= c < s.success_clauses.len() ==> 1 <= #[trigger] s.success_clauses[c] <= goal_len
            &&& forall|d: int| 0 <= d < s.dependencies.len() ==> ids.contains(#[trigger] s.dependencies[d])
        },
{
    lemma_bad_clause(s.success_clauses, goal_len);
    lemma_unknown_dep(s.dependencies, ids);
}

proof fn lemma_id_error(steps: Seq<WorkflowStepView>, i: int)
    requires
        0 <= i <= steps.len(),
        step_ids(steps).take(i).no_duplicates(),
    ensures
        id_error(steps, i) is None <==> (forall|k: int| i <= k < steps.len() ==> trim((#[trigger] steps[k]).step_id).len() > 0)
            && step_ids(steps).no_duplicates(),
    decreases steps.len() - i,
{
    let ids = step_ids(steps);
    if i < steps.len() {
        let sid = steps[i].step_id;
        if trim(sid).len() == 0 {
        } else if ids.take(i).contains(sid) {
            let j = choose|j: int| 0 <= j < ids.take(i).len() && ids.take(i)[j] == sid;
            assert(ids[j] == ids[i]);
        } else {
            assert(ids.take(i + 1) =~= ids.take(i).push(sid));
            crate::link_graph::lemma_push_no_duplicates(ids.take(i), sid);
            lemma_id_error(steps, i + 1);
        }
    } else {
        assert(ids.take(i) =~= ids);
    }
}

/// What `validate` accepts, stated plainly: a workflow passes against a goal and a registry
/// exactly when the goal has success clauses, the workflow serves that goal, its version is
/// positive, it has steps, its control policy allows a step at a time and a patch chain, its
/// step ids are neither blank nor repeated, every step is sound, and its dependencies form no
/// cycle.
pub proof fn lemma_validate_accepts_exactly(w: WorkflowIrView, goal: GoalContract, reg: AgentRegistry, res: Result<(), WorkflowError>)
    requires
        validate_ok(w, goal, reg, res),
    ensures
        res is Ok <==> {
            &&& goal.success_definition@.len() > 0
            &&& w.goal_id == goal.goal_id@
            &&& w.version > 0
            &&& w.steps.len() > 0
            &&& w.control_policy.max_parallel_steps > 0
            &&& w.control_policy.max_patch_chain > 0
            &&& ids_sound(w.steps)
            &&& steps_sound(w.steps, goal.success_definition@.len() as int, reg)
            &&& deps_acyclic(w)
        },
{
    let n = goal.success_definition@.len() as int;
    assert(step_ids(w.steps).take(0) =~= Seq::<Seq<char>>::empty());
    lemma_id_error(w.steps, 0);
    lemma_steps_error(w.steps, 0, n, reg);
    assert forall|k: int| 0 <= k < w.steps.len() implies (step_error(#[trigger] w.steps[k], step_ids(w.steps), n, reg) is None
        <==> {
        let s = w.steps[k];
        &&& reg.lookup(s.agent_type) is Some
        &&& s.acceptance_criteria.len() > 0
        &&& s.success_clauses.len() > 0
        &&& forall|c: int| 0 <= c < s.success_clauses.len() ==> 1 <= #[trigger] s.success_clauses[c] <= n
        &&& forall|d: int| 0 <= d < s.dependencies.len() ==> step_ids(w.steps).contains(#[trigger] s.dependencies[d])
    }) by {
        lemma_step_error(w.steps[k], step_ids(w.steps), n, reg);
    }
}

} // verus!

//! Choosing the steps of a run that may start now, and the sandbox each runs in.

use vstd::prelude::*;
use crate::text::{
    chars_of, contains_string, copy_strings, owned, push_str, seq_eq, string_of, strings_view,
    trim, trim_chars, take_chars,
};
use crate::workflow::{
    granted_tools, AgentRegistry, AgentRegistryEntry, ArtifactContract, RunStatus, WorkflowError,
    WorkflowErrorView, WorkflowIr, WorkflowIrView, WorkflowRunState, WorkflowStatus, WorkflowStep,
    WorkflowStepKind, WorkflowStepMode, WorkflowStepStatus, WorkflowStepView,
    default_worktree_path, pairs_view, worktree_text, saturating_minus, copy_usizes,
};

verus! {

/// Which network a sandboxed step may reach.
#[derive(Debug, Clone, Copy, PartialEq, Eq, Structural)]
pub enum NetworkPolicy {
    Disabled,
    AcademicOnly,
    Allowed,
}

/// The limits a dispatched step runs within.
#[derive(Debug, Clone)]
pub struct SandboxPolicy {
    pub network_policy: NetworkPolicy,
    pub max_runtime_secs: u64,
    pub requires_bridge: bool,
    pub tool_allowlist: Vec<String>,
    pub read_roots: Vec<String>,
    pub write_roots: Vec<String>,
}

impl SandboxPolicy {
    /// A copy of the policy.
    pub fn copied(&self) -> (res: SandboxPolicy)
        ensures
            sandbox_view(res) == sandbox_view(*self),
    {
        SandboxPolicy {
            network_policy: self.network_policy,
            max_runtime_secs: self.max_runtime_secs,
            requires_bridge: self.requires_bridge,
            tool_allowlist: copy_strings(&self.tool_allowlist),
            read_roots: copy_strings(&self.read_roots),
            write_roots: copy_strings(&self.write_roots),
        }
    }

    /// Whether the tool is on the allowlist.
    pub fn allows_tool(&self, tool: &str) -> (res: bool)
        ensures
            res == strings_view(self.tool_allowlist@).contains(tool@),
    {
        contains_string(&self.tool_allowlist, &owned(tool))
    }
}

/// A step handed to an agent.
#[derive(Debug, Clone)]
pub struct StepDispatch {
    pub workflow_id: String,
    pub run_id: String,
    pub step_id: String,
    pub agent_type: String,
    pub capability: WorkflowStepKind,
    pub mode: WorkflowStepMode,
    pub attempt: usize,
    pub inputs: serde_json::Value,
    pub artifact_contract: ArtifactContract,
    pub sandbox_policy: SandboxPolicy,
}

/// The network a tool list calls for: web search opens the network, academic search only
/// academic sources, anything else none.
pub open spec fn network_for(tools: Seq<Seq<char>>) -> NetworkPolicy {
    if tools.contains("web_search"@) {
        NetworkPolicy::Allowed
    } else if tools.contains("arxiv_search"@) || tools.contains("semantic_scholar_search"@) {
        NetworkPolicy::AcademicOnly
    } else {
        NetworkPolicy::Disabled
    }
}

pub fn infer_network_policy(tools: &Vec<String>) -> (res: NetworkPolicy)
    ensures
        res == network_for(strings_view(tools@)),
{
    if contains_string(tools, &owned("web_search")) {
        NetworkPolicy::Allowed
    } else if contains_string(tools, &owned("arxiv_search")) || contains_string(
        tools,
        &owned("semantic_scholar_search"),
    ) {
        NetworkPolicy::AcademicOnly
    } else {
        NetworkPolicy::Disabled
    }
}

pub open spec fn is_wildcard(c: char) -> bool {
    c == '*' || c == '?' || c == '['
}

/// The first wildcard at or after `i`, or the length.
pub open spec fn wildcard_at(s: Seq<char>, i: int) -> int
    decreases s.len() - i,
{
    if i >= s.len() {
        s.len() as int
    } else if is_wildcard(s[i]) {
        i
    } else {
        wildcard_at(s, i + 1)
    }
}

/// The text without trailing `/` and `\`.
pub open spec fn trim_separators(s: Seq<char>) -> Seq<char>
    decreases s.len(),
{
    if s.len() > 0 && (s.last() == '/' || s.last() == '\\') {
        trim_separators(s.drop_last())
    } else {
        s
    }
}

/// The directory a file glob reads below: its trimmed text up to the first wildcard,
/// without trailing separators, or `.` where that is empty; nothing for a blank glob.
pub open spec fn glob_root(p: Seq<char>) -> Option<Seq<char>> {
    let t = trim(p);
    if t.len() == 0 {
        None
    } else {
        let prefix = trim_separators(t.take(wildcard_at(t, 0)));
        if prefix.len() == 0 {
            Some(seq!['.'])
        } else {
            Some(prefix)
        }
    }
}

proof fn lemma_wildcard_at_bounds(s: Seq<char>, i: int)
    requires
        0 <= i <= s.len(),
    ensures
        i <= wildcard_at(s, i) <= s.len(),
    decreases s.len() - i,
{
    if i < s.len() && !is_wildcard(s[i]) {
        lemma_wildcard_at_bounds(s, i + 1);
    }
}

pub fn root_from_glob(pattern: &str) -> (res: Option<String>)
    ensures
        match res {
            Some(r) => glob_root(pattern@) == Some(r@),
            None => glob_root(pattern@) is None,
        },
{
    let cs = chars_of(pattern);
    let t = trim_chars(&cs);
    if t.len() == 0 {
        return None;
    }
    let mut w: usize = 0;
    while w < t.len() && !(t[w] == '*' || t[w] == '?' || t[w] == '[')
        invariant
            w <= t.len(),
            wildcard_at(t@, 0) == wildcard_at(t@, w as int),
        decreases t.len() - w,
    {
        w = w + 1;
    }
    let mut end = w;
    while end > 0 && (t[end - 1] == '/' || t[end - 1] == '\\')
        invariant
            end <= w <= t.len(),
            trim_separators(t@.take(w as int)) == trim_separators(t@.take(end as int)),
        decreases end,
    {
        assert(t@.take(end as int).drop_last() == t@.take(end - 1));
        end = end - 1;
    }
    assert(!(end > 0 && (t@.take(end as int).last() == '/' || t@.take(end as int).last() == '\\')));
    let prefix = take_chars(&t, end);
    assert(trim_separators(t@.take(end as int)) == t@.take(end as int));
    if prefix.len() == 0 {
        proof {
            reveal_strlit(".");
            assert("."@ =~= seq!['.']);
        }
        Some(owned("."))
    } else {
        Some(string_of(&prefix))
    }
}

/// The JSON array stored under a key of an object.
pub uninterp spec fn json_member_array(v: serde_json::Value, key: Seq<char>) -> Option<Seq<serde_json::Value>>;

/// The text of a JSON string value.
pub uninterp spec fn json_string_text(v: serde_json::Value) -> Option<Seq<char>>;

/// The member stored under a key of a JSON object.
pub uninterp spec fn json_member_value(v: serde_json::Value, key: Seq<char>) -> Option<serde_json::Value>;

/// `Value::get`: a copy of the member under the key, where the value is an object that has
/// one.
#[verifier::external_body]
pub(crate) fn json_member(v: &serde_json::Value, key: &str) -> (res: Option<serde_json::Value>)
    ensures
        res == json_member_value(*v, key@),
{
    match v.get(key) {
        Some(x) => Some(x.clone()),
        None => None,
    }
}

/// `Value::get` of the key, where what it finds is an array: a copy of its items.
#[verifier::external_body]
pub(crate) fn json_array_at(v: &serde_json::Value, key: &str) -> (res: Option<Vec<serde_json::Value>>)
    ensures
        match res {
            Some(items) => json_member_array(*v, key@) == Some(items@),
            None => json_member_array(*v, key@) is None,
        },
{
    match v.get(key) {
        Some(serde_json::Value::Array(items)) => Some(items.clone()),
        _ => None,
    }
}

/// `Value::as_str`: the text of a string value.
#[verifier::external_body]
pub(crate) fn json_as_text(v: &serde_json::Value) -> (res: Option<String>)
    ensures
        match res {
            Some(s) => json_string_text(*v) == Some(s@),
            None => json_string_text(*v) is None,
        },
{
    match v {
        serde_json::Value::String(s) => Some(s.clone()),
        _ => None,
    }
}

/// The roots of the string items that name a root, in order.
pub open spec fn roots_of(items: Seq<serde_json::Value>) -> Seq<Seq<char>>
    decreases items.len(),
{
    if items.len() == 0 {
        Seq::empty()
    } else {
        let rest = roots_of(items.drop_last());
        match json_string_text(items.last()) {
            Some(t) => match glob_root(t) {
                Some(r) => rest.push(r),
                None => rest,
            },
            None => rest,
        }
    }
}

/// The directories a step reads: the roots of the globs listed under `files` in its inputs,
/// or `.` where there are none.
pub open spec fn input_roots(inputs: serde_json::Value) -> Seq<Seq<char>> {
    let roots = match json_member_array(inputs, "files"@) {
        Some(items) => roots_of(items),
        None => Seq::empty(),
    };
    if roots.len() == 0 {
        seq![seq!['.']]
    } else {
        roots
    }
}

pub fn step_input_roots(step: &WorkflowStep) -> (res: Vec<String>)
    ensures
        strings_view(res@) == input_roots(step.inputs),
{
    let mut roots: Vec<String> = Vec::new();
    match json_array_at(&step.inputs, "files") {
        Some(items) => {
            let mut i: usize = 0;
            while i < items.len()
                invariant
                    i <= items.len(),
                    json_member_array(step.inputs, "files"@) == Some(items@),
                    strings_view(roots@) == roots_of(items@.take(i as int)),
                decreases items.len() - i,
            {
                assert(items@.take(i + 1).drop_last() == items@.take(i as int));
                match json_as_text(&items[i]) {
                    Some(t) => match root_from_glob(t.as_str()) {
                        Some(r) => {
                            let ghost before = strings_view(roots@);
                            roots.push(r);
                            assert(strings_view(roots@) == before.push(r@));
                        },
                        None => {},
                    },
                    None => {},
                }
                i = i + 1;
            }
            assert(items@.take(items.len() as int) == items@);
        },
        None => {},
    }
    if roots.len() == 0 {
        let mut v: Vec<String> = Vec::new();
        v.push(owned("."));
        proof {
            reveal_strlit(".");
            assert("."@ =~= seq!['.']);
        }
        assert(strings_view(v@) =~= seq![seq!['.']]);
        v
    } else {
        roots
    }
}

/// The entry last paired with the key (later entries replace earlier ones).
pub open spec fn last_pair(pairs: Seq<(Seq<char>, Seq<char>)>, key: Seq<char>) -> Option<Seq<char>>
    decreases pairs.len(),
{
    if pairs.len() == 0 {
        None
    } else if pairs.last().0 == key {
        Some(pairs.last().1)
    } else {
        last_pair(pairs.drop_last(), key)
    }
}

/// The directories a step may write: its worktree for a write step, a working directory for
/// a test step, none otherwise.
pub open spec fn write_roots(run: WorkflowRunState, step: WorkflowStepView) -> Seq<Seq<char>> {
    match step.mode {
        WorkflowStepMode::WritePatch => seq![
            match last_pair(pairs_view(run.worktree_map@), step.step_id) {
                Some(p) => p,
                None => worktree_text(run.run_id@, step.step_id),
            },
        ],
        WorkflowStepMode::TestOnly => seq![
            ".dualtrack/memory/working/workflows/"@ + run.run_id@ + "/"@ + step.step_id,
        ],
        _ => Seq::empty(),
    }
}

fn worktree_lookup(run: &WorkflowRunState, step_id: &String) -> (res: Option<String>)
    ensures
        match res {
            Some(p) => last_pair(pairs_view(run.worktree_map@), step_id@) == Some(p@),
            None => last_pair(pairs_view(run.worktree_map@), step_id@) is None,
        },
{
    let ghost pv = pairs_view(run.worktree_map@);
    let mut k = run.worktree_map.len();
    assert(pv.take(k as int) == pv);
    while k > 0
        invariant
            k <= run.worktree_map.len(),
            pv == pairs_view(run.worktree_map@),
            last_pair(pv, step_id@) == last_pair(pv.take(k as int), step_id@),
        decreases k,
    {
        assert(pv.take(k as int).drop_last() == pv.take(k - 1));
        if run.worktree_map[k - 1].0 == *step_id {
            return Some(run.worktree_map[k - 1].1.clone());
        }
        k = k - 1;
    }
    None
}

pub fn step_write_roots(run: &WorkflowRunState, step: &WorkflowStep) -> (res: Vec<String>)
    ensures
        strings_view(res@) == write_roots(*run, step@),
{
    let mut v: Vec<String> = Vec::new();
    match step.mode {
        WorkflowStepMode::WritePatch => {
            let p = match worktree_lookup(run, &step.step_id) {
                Some(p) => p,
                None => default_worktree_path(run.run_id.as_str(), step.step_id.as_str()),
            };
            v.push(p);
        },
        WorkflowStepMode::TestOnly => {
            let mut t: Vec<char> = Vec::new();
            push_str(&mut t, ".dualtrack/memory/working/workflows/");
            push_str(&mut t, run.run_id.as_str());
            push_str(&mut t, "/");
            push_str(&mut t, step.step_id.as_str());
            v.push(string_of(&t));
        },
        _ => {},
    }
    assert(strings_view(v@) =~= write_roots(*run, step@));
    v
}

/// A sandbox with its text as character sequences.
pub struct SandboxView {
    pub network_policy: NetworkPolicy,
    pub max_runtime_secs: u64,
    pub requires_bridge: bool,
    pub tool_allowlist: Seq<Seq<char>>,
    pub read_roots: Seq<Seq<char>>,
    pub write_roots: Seq<Seq<char>>,
}

pub open spec fn sandbox_view(p: SandboxPolicy) -> SandboxView {
    SandboxView {
        network_policy: p.network_policy,
        max_runtime_secs: p.max_runtime_secs,
        requires_bridge: p.requires_bridge,
        tool_allowlist: strings_view(p.tool_allowlist@),
        read_roots: strings_view(p.read_roots@),
        write_roots: strings_view(p.write_roots@),
    }
}

/// The sandbox of a step whose agent is registered: its granted tools, the network they call
/// for, the mode's time limit, its read and write roots, and the bridge where it writes.
pub open spec fn sandbox_for(e: AgentRegistryEntry, run: WorkflowRunState, step: WorkflowStepView, inputs: serde_json::Value) -> SandboxView {
    let tools = granted_tools(e);
    let w = write_roots(run, step);
    SandboxView {
        network_policy: network_for(tools),
        max_runtime_secs: crate::workflow::mode_runtime_secs(step.mode),
        requires_bridge: w.len() > 0,
        tool_allowlist: tools,
        read_roots: input_roots(inputs),
        write_roots: w,
    }
}

impl AgentRegistry {
    /// The sandbox a step runs in, for a step whose agent is registered.
    pub fn sandbox_for_step(&self, run: &WorkflowRunState, step: &WorkflowStep) -> (res: Result<SandboxPolicy, WorkflowError>)
        requires
            self.well_formed(),
        ensures
            match self.lookup(step.agent_type@) {
                None => res is Err && res->Err_0@ == WorkflowErrorView::UnknownAgentType(step.agent_type@),
                Some(e) => res is Ok && sandbox_view(res->Ok_0) == sandbox_for(e, *run, step@, step.inputs),
            },
    {
        let tools = match self.tools_for_agent(step.agent_type.as_str()) {
            Err(e) => return Err(e),
            Ok(t) => t,
        };
        let read_roots = step_input_roots(step);
        let write_roots = step_write_roots(run, step);
        Ok(SandboxPolicy {
            network_policy: infer_network_policy(&tools),
            max_runtime_secs: crate::workflow::runtime_secs_for_mode(&step.mode),
            requires_bridge: write_roots.len() > 0,
            tool_allowlist: tools,
            read_roots,
            write_roots,
        })
    }
}


/// Some step carries the id and is verified or skipped.
pub open spec fn dependency_done(w: WorkflowIrView, d: Seq<char>) -> bool {
    exists|c: int|
        0 <= c < w.steps.len() && #[trigger] w.steps[c].step_id == d && (w.steps[c].status
            == WorkflowStepStatus::Verified || w.steps[c].status == WorkflowStepStatus::Skipped)
}

/// Every dependency of the step is done.
pub open spec fn deps_done(w: WorkflowIrView, s: WorkflowStepView) -> bool {
    forall|k: int| 0 <= k < s.dependencies.len() ==> dependency_done(w, #[trigger] s.dependencies[k])
}

/// How many of the steps are active and carry the agent type.
pub open spec fn active_load(steps: Seq<WorkflowStepView>, active: Seq<Seq<char>>, a: Seq<char>) -> nat
    decreases steps.len(),
{
    if steps.len() == 0 {
        0
    } else {
        active_load(steps.drop_last(), active, a) + if active.contains(steps.last().step_id)
            && steps.last().agent_type == a {
            1nat
        } else {
            0nat
        }
    }
}

/// How many of the picked steps carry the agent type.
pub open spec fn picked_load(steps: Seq<WorkflowStepView>, picked: Seq<int>, a: Seq<char>) -> nat
    decreases picked.len(),
{
    if picked.len() == 0 {
        0
    } else {
        picked_load(steps, picked.drop_last(), a) + if steps[picked.last()].agent_type == a {
            1nat
        } else {
            0nat
        }
    }
}

/// How many more steps the run may start.
pub open spec fn dispatch_budget(w: WorkflowIrView, run: WorkflowRunState) -> int {
    saturating_minus(w.control_policy.max_parallel_steps, run.active_step_ids@.len() as usize)
}

/// The steps among the first `k` that start now, in step order: ready, not active, with
/// every dependency done, and with their agent below its parallelism, until the budget is
/// spent. A step that passes the other tests but names an unregistered agent stops the
/// choice with an error.
pub open spec fn picked_steps(w: WorkflowIrView, run: WorkflowRunState, reg: AgentRegistry, k: int) -> Result<
    Seq<int>,
    WorkflowErrorView,
>
    decreases k,
{
    if k <= 0 {
        Ok(Seq::empty())
    } else {
        match picked_steps(w, run, reg, k - 1) {
            Err(e) => Err(e),
            Ok(p) => {
                let active = strings_view(run.active_step_ids@);
                let s = w.steps[k - 1];
                if p.len() >= dispatch_budget(w, run) {
                    Ok(p)
                } else if s.status != WorkflowStepStatus::Ready || active.contains(s.step_id) || !deps_done(w, s) {
                    Ok(p)
                } else {
                    match reg.lookup(s.agent_type) {
                        None => Err(WorkflowErrorView::UnknownAgentType(s.agent_type)),
                        Some(e) => if active_load(w.steps, active, s.agent_type) + picked_load(w.steps, p, s.agent_type)
                            >= e.max_parallelism {
                            Ok(p)
                        } else {
                            Ok(p.push(k - 1))
                        },
                    }
                }
            },
        }
    }
}

/// The dispatch of step `i`: its ids, agent, kind, mode and inputs, a first attempt, its
/// contract, and its sandbox.
pub open spec fn dispatch_of(d: StepDispatch, w: WorkflowIr, run: WorkflowRunState, reg: AgentRegistry, i: int) -> bool {
    let s = w.steps@[i];
    &&& 0 <= i < w.steps@.len()
    &&& d.workflow_id@ == w.workflow_id@
    &&& d.run_id@ == run.run_id@
    &&& d.step_id@ == s.step_id@
    &&& d.agent_type@ == s.agent_type@
    &&& d.capability == s.kind
    &&& d.mode == s.mode
    &&& d.attempt == 1
    &&& d.inputs == s.inputs
    &&& d.artifact_contract.expected_output@ == s.task@
    &&& strings_view(d.artifact_contract.acceptance_criteria@) == strings_view(s.acceptance_criteria@)
    &&& d.artifact_contract.success_clauses@ == s.goal_alignment.success_clauses@
    &&& reg.lookup(s.agent_type@) matches Some(e) && sandbox_view(d.sandbox_policy) == sandbox_for(e, run, s@, s.inputs)
}

fn count_active_for(w: &WorkflowIr, active: &Vec<String>, agent: &String) -> (res: usize)
    ensures
        res == active_load(w@.steps, strings_view(active@), agent@),
        res <= w.steps@.len(),
{
    let mut n: usize = 0;
    let mut i: usize = 0;
    while i < w.steps.len()
        invariant
            i <= w.steps.len(),
            n <= i,
            n == active_load(w@.steps.take(i as int), strings_view(active@), agent@),
        decreases w.steps.len() - i,
    {
        assert(w@.steps.take(i + 1).drop_last() == w@.steps.take(i as int));
        if contains_string(active, &w.steps[i].step_id) && w.steps[i].agent_type == *agent {
            n = n + 1;
        }
        i = i + 1;
    }
    assert(w@.steps.take(w.steps.len() as int) == w@.steps);
    n
}

fn count_picked_for(ds: &Vec<StepDispatch>, agent: &String, Ghost(steps): Ghost<Seq<WorkflowStepView>>, Ghost(p): Ghost<Seq<int>>) -> (res: usize)
    requires
        ds@.len() == p.len(),
        forall|t: int| 0 <= t < p.len() ==> 0 <= #[trigger] p[t] < steps.len() && ds@[t].agent_type@ == steps[p[t]].agent_type,
    ensures
        res == picked_load(steps, p, agent@),
        res <= p.len(),
{
    let mut n: usize = 0;
    let mut t: usize = 0;
    while t < ds.len()
        invariant
            t <= ds.len(),
            ds@.len() == p.len(),
            forall|q: int| 0 <= q < p.len() ==> 0 <= #[trigger] p[q] < steps.len() && ds@[q].agent_type@ == steps[p[q]].agent_type,
            n <= t,
            n == picked_load(steps, p.take(t as int), agent@),
        decreases ds.len() - t,
    {
        assert(p.take(t + 1).drop_last() == p.take(t as int));
        assert(p.take(t + 1).last() == p[t as int]);
        if ds[t].agent_type == *agent {
            n = n + 1;
        }
        t = t + 1;
    }
    assert(p.take(ds.len() as int) == p);
    n
}

/// What `ready_dispatches` answers.
pub open spec fn ready_dispatches_ok(
    run: WorkflowRunState,
    w: WorkflowIr,
    reg: AgentRegistry,
    res: Result<Vec<StepDispatch>, WorkflowError>,
) -> bool {
    if run.workflow_id@ != w.workflow_id@ || run.workflow_version != w.version {
        res is Err && res->Err_0@ == WorkflowErrorView::RunWorkflowMismatch {
            run_workflow_id: run.workflow_id@,
            run_workflow_version: run.workflow_version,
            workflow_id: w.workflow_id@,
            workflow_version: w.version,
        }
    } else if run.status != RunStatus::Running || w.status != WorkflowStatus::Running || dispatch_budget(w@, run) == 0 {
        res is Ok && res->Ok_0@.len() == 0
    } else {
        match picked_steps(w@, run, reg, w.steps@.len() as int) {
            Err(e) => res is Err && res->Err_0@ == e,
            Ok(p) => res is Ok && res->Ok_0@.len() == p.len() && forall|t: int|
                0 <= t < p.len() ==> dispatch_of(#[trigger] res->Ok_0@[t], w, run, reg, p[t]),
        }
    }
}

impl WorkflowRunState {
    /// The steps of the run that may start now, each with its contract and sandbox.
    pub fn ready_dispatches(&self, workflow: &WorkflowIr, registry: &AgentRegistry) -> (res: Result<Vec<StepDispatch>, WorkflowError>)
        requires
            registry.well_formed(),
        ensures
            ready_dispatches_ok(*self, *workflow, *registry, res),
    {
        if !(self.workflow_id == workflow.workflow_id) || self.workflow_version != workflow.version {
            return Err(WorkflowError::RunWorkflowMismatch {
                run_workflow_id: self.workflow_id.clone(),
                run_workflow_version: self.workflow_version,
                workflow_id: workflow.workflow_id.clone(),
                workflow_version: workflow.version,
            });
        }
        let running = match self.status {
            RunStatus::Running => match workflow.status {
                WorkflowStatus::Running => true,
                _ => false,
            },
            _ => false,
        };
        if !running {
            return Ok(Vec::new());
        }
        let budget = workflow.control_policy.max_parallel_steps.saturating_sub(self.active_step_ids.len());
        if budget == 0 {
            return Ok(Vec::new());
        }
        let ghost wv = workflow@;
        let mut dispatches: Vec<StepDispatch> = Vec::new();
        let ghost mut p: Seq<int> = Seq::empty();
        let mut k: usize = 0;
        while k < workflow.steps.len()
            invariant
                k <= workflow.steps.len(),
                wv == workflow@,
                registry.well_formed(),
                budget == dispatch_budget(wv, *self),
                budget > 0,
                self.workflow_id@ == workflow.workflow_id@,
                self.workflow_version == workflow.version,
                self.status == RunStatus::Running,
                workflow.status == WorkflowStatus::Running,
                picked_steps(wv, *self, *registry, k as int) == Ok::<Seq<int>, WorkflowErrorView>(p),
                dispatches@.len() == p.len(),
                forall|t: int| 0 <= t < p.len() ==> 0 <= #[trigger] p[t] < k && dispatch_of(dispatches@[t], *workflow, *self, *registry, p[t]),
            decreases workflow.steps.len() - k,
        {
            let step = &workflow.steps[k];
            assert(wv.steps[k as int] == step@);
            if dispatches.len() >= budget {
            } else {
                let ready = match step.status {
                    WorkflowStepStatus::Ready => true,
                    _ => false,
                };
                if !ready || contains_string(&self.active_step_ids, &step.step_id) || !dependencies_verified(workflow, step) {
                } else {
                    let agent = match registry.get(step.agent_type.as_str()) {
                        None => {
                            proof {
                                lemma_picked_error_stays(wv, *self, *registry, k as int + 1, wv.steps.len() as int);
                            }
                            return Err(WorkflowError::UnknownAgentType(step.agent_type.clone()));
                        },
                        Some(a) => a,
                    };
                    let active_n = count_active_for(workflow, &self.active_step_ids, &step.agent_type);
                    let picked_n = count_picked_for(&dispatches, &step.agent_type, Ghost(wv.steps), Ghost(p));
                    let at_limit = active_n >= agent.max_parallelism || picked_n >= agent.max_parallelism - active_n;
                    if !at_limit {
                        let sandbox = match registry.sandbox_for_step(self, step) {
                            Err(e) => return Err(e),
                            Ok(sb) => sb,
                        };
                        let d = StepDispatch {
                            workflow_id: workflow.workflow_id.clone(),
                            run_id: self.run_id.clone(),
                            step_id: step.step_id.clone(),
                            agent_type: step.agent_type.clone(),
                            capability: step.kind,
                            mode: step.mode,
                            attempt: 1,
                            inputs: step.inputs.clone(),
                            artifact_contract: ArtifactContract {
                                expected_output: step.task.clone(),
                                acceptance_criteria: copy_strings(&step.acceptance_criteria),
                                success_clauses: copy_usizes(&step.goal_alignment.success_clauses),
                            },
                            sandbox_policy: sandbox,
                        };
                        dispatches.push(d);
                        proof {
                            p = p.push(k as int);
                        }
                    }
                }
            }
            k = k + 1;
        }
        assert(workflow.steps@.len() == wv.steps.len());
        Ok(dispatches)
    }
}

/// Whether every dependency of the step is done in the workflow.
pub fn dependencies_verified(workflow: &WorkflowIr, step: &WorkflowStep) -> (res: bool)
    ensures
        res == deps_done(workflow@, step@),
{
    let mut k: usize = 0;
    while k < step.dependencies.len()
        invariant
            k <= step.dependencies.len(),
            forall|q: int| 0 <= q < k ==> dependency_done(workflow@, #[trigger] step@.dependencies[q]),
        decreases step.dependencies.len() - k,
    {
        let d = &step.dependencies[k];
        let mut found = false;
        let mut c: usize = 0;
        while c < workflow.steps.len() && !found
            invariant
                c <= workflow.steps.len(),
                found ==> dependency_done(workflow@, d@),
                !found ==> forall|q: int| 0 <= q < c ==> !(#[trigger] workflow@.steps[q].step_id == d@ && (
                    workflow@.steps[q].status == WorkflowStepStatus::Verified || workflow@.steps[q].status
                        == WorkflowStepStatus::Skipped)),
            decreases workflow.steps.len() - c,
        {
            let cand = &workflow.steps[c];
            let done = match cand.status {
                WorkflowStepStatus::Verified | WorkflowStepStatus::Skipped => true,
                _ => false,
            };
            assert(workflow@.steps[c as int] == cand@);
            if cand.step_id == *d && done {
                assert(workflow@.steps[c as int].step_id == d@);
                found = true;
            }
            c = c + 1;
        }
        assert(step@.dependencies[k as int] == d@);
        if !found {
            return false;
        }
        k = k + 1;
    }
    true
}


/// Once the choice of steps has failed, later steps do not change the error.
proof fn lemma_picked_error_stays(w: WorkflowIrView, run: WorkflowRunState, reg: AgentRegistry, k: int, n: int)
    requires
        0 < k <= n,
        picked_steps(w, run, reg, k) is Err,
    ensures
        picked_steps(w, run, reg, n) == picked_steps(w, run, reg, k),
    decreases n - k,
{
    if k < n {
        lemma_picked_error_stays(w, run, reg, k, n - 1);
    }
}


/// A run starts only ready, inactive steps whose dependencies are all done, each at most
/// once and in step order, never more than its budget, and never above an agent's
/// parallelism.
pub proof fn lemma_picked_steps_sound(w: WorkflowIrView, run: WorkflowRunState, reg: AgentRegistry, k: int)
    requires
        0 <= k <= w.steps.len(),
        picked_steps(w, run, reg, k) is Ok,
    ensures
        ({
            let p = picked_steps(w, run, reg, k)->Ok_0;
            &&& p.len() <= dispatch_budget(w, run)
            &&& forall|t: int| 0 <= t < p.len() ==> 0 <= #[trigger] p[t] < k
            &&& forall|t: int, u: int| 0 <= t < u < p.len() ==> p[t] < p[u]
            &&& forall|t: int| 0 <= t < p.len() ==> {
                let s = #[trigger] w.steps[p[t]];
                &&& s.status == WorkflowStepStatus::Ready
                &&& !strings_view(run.active_step_ids@).contains(s.step_id)
                &&& deps_done(w, s)
                &&& reg.lookup(s.agent_type) matches Some(e) && active_load(w.steps, strings_view(run.active_step_ids@), s.agent_type)
                    + picked_load(w.steps, p.take(t), s.agent_type) < e.max_parallelism
            }
        }),
    decreases k,
{
    if k > 0 {
        lemma_picked_steps_sound(w, run, reg, k - 1);
        let p0 = picked_steps(w, run, reg, k - 1)->Ok_0;
        let p = picked_steps(w, run, reg, k)->Ok_0;
        if p != p0 {
            assert(p == p0.push(k - 1));
            assert forall|t: int| 0 <= t < p0.len() implies p.take(t) == p0.take(t) by {
                assert(p.take(t) =~= p0.take(t));
            }
            assert(p.take(p0.len() as int) =~= p0);
        }
    }
}

} // verus!

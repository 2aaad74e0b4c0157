//! The orchestrator's audit bookkeeping: how many epochs it and each agent have run, the
//! regressions each agent has had in a row, the cooldowns after a termination, the degraded
//! agents and the event log. What an epoch's measures say is computed outside and handed in;
//! what the audit then decides and records is here.

use vstd::prelude::*;
use crate::orchestrator::{
    audit_decision, audit_outcome, format_reasons, is_regressive_reason, reasons_text, regressive, AuditAction,
    AuditDecision, OrchestratorEvent, OrchestratorEventType,
};
use crate::regression::EpochEndReason;
use crate::text::{owned, push_str, str_eq, string_of, strings_view};

verus! {

/// The thresholds of an audit that do not concern the measures themselves.
#[derive(Debug, Clone, Copy, PartialEq, Eq, Structural)]
pub struct AuditThresholds {
    pub min_epoch_before_audit: usize,
    pub auto_terminate: bool,
    pub max_consecutive_regressions: usize,
    pub termination_cooldown_ms: u64,
}

/// What the orchestrator keeps of one agent.
#[derive(Debug, Clone, PartialEq, Eq)]
pub struct AgentAudit {
    pub agent_id: String,
    pub epochs: usize,
    pub regression_count: usize,
    pub cooldown_until: Option<u64>,
}

pub struct AgentAuditView {
    pub agent_id: Seq<char>,
    pub epochs: usize,
    pub regression_count: usize,
    pub cooldown_until: Option<u64>,
}

impl View for AgentAudit {
    type V = AgentAuditView;

    open spec fn view(&self) -> AgentAuditView {
        AgentAuditView {
            agent_id: self.agent_id@,
            epochs: self.epochs,
            regression_count: self.regression_count,
            cooldown_until: self.cooldown_until,
        }
    }
}

pub struct EventView {
    pub epoch: usize,
    pub agent_id: Seq<char>,
    pub event_type: OrchestratorEventType,
    pub timestamp: u64,
    pub detail: Option<Seq<char>>,
}

pub open spec fn event_view(e: OrchestratorEvent) -> EventView {
    EventView {
        epoch: e.epoch,
        agent_id: e.agent_id@,
        event_type: e.event_type,
        timestamp: e.timestamp,
        detail: match e.detail {
            Some(d) => Some(d@),
            None => None,
        },
    }
}

pub open spec fn events_view(es: Seq<OrchestratorEvent>) -> Seq<EventView> {
    es.map_values(|e: OrchestratorEvent| event_view(e))
}

pub open spec fn agents_view(s: Seq<AgentAudit>) -> Seq<AgentAuditView> {
    s.map_values(|a: AgentAudit| a@)
}

/// The position of the first record of `id`, or -1.
pub open spec fn find_agent(s: Seq<AgentAuditView>, id: Seq<char>) -> int
    decreases s.len(),
{
    if s.len() == 0 {
        -1
    } else {
        let k = find_agent(s.drop_last(), id);
        if k >= 0 {
            k
        } else if s.last().agent_id == id {
            s.len() - 1
        } else {
            -1
        }
    }
}

/// The record of `id`; a fresh one where the agent has none yet.
pub open spec fn agent_record(s: Seq<AgentAuditView>, id: Seq<char>) -> AgentAuditView {
    let k = find_agent(s, id);
    if k >= 0 {
        s[k]
    } else {
        AgentAuditView { agent_id: id, epochs: 0, regression_count: 0, cooldown_until: None }
    }
}

/// `s` with the record of `r.agent_id` replaced by `r`, or `r` appended.
pub open spec fn with_record(s: Seq<AgentAuditView>, r: AgentAuditView) -> Seq<AgentAuditView> {
    let k = find_agent(s, r.agent_id);
    if k >= 0 {
        s.update(k, r)
    } else {
        s.push(r)
    }
}

/// `ids` with `id` added at the end where it is not there yet.
pub open spec fn with_id(ids: Seq<Seq<char>>, id: Seq<char>) -> Seq<Seq<char>> {
    if ids.contains(id) {
        ids
    } else {
        ids.push(id)
    }
}

/// Whether a cooldown that lasts until `until` is still running at `now`.
pub open spec fn cooling(until: Option<u64>, now: u64) -> bool {
    match until {
        Some(u) => now < u,
        None => false,
    }
}

/// Whether an epoch regressed: convergence below its minimum, or a regressive reason.
pub open spec fn regressed_epoch(below_convergence: bool, reasons: Seq<EpochEndReason>) -> bool {
    below_convergence || exists|i: int| 0 <= i < reasons.len() && regressive(#[trigger] reasons[i])
}

/// The log text of an agent degraded by a regression.
pub open spec fn degraded_by_regression() -> Seq<char> {
    "Agent marked as degraded due to regression"@
}

/// The decision of an audit of `id` at `now`.
pub open spec fn planned_audit(
    agents: Seq<AgentAuditView>,
    id: Seq<char>,
    below_convergence: bool,
    reasons: Seq<EpochEndReason>,
    th: AuditThresholds,
    now: u64,
) -> AuditDecision {
    let a = agent_record(agents, id);
    audit_outcome(
        a.epochs + 1 < th.min_epoch_before_audit,
        regressed_epoch(below_convergence, reasons),
        cooling(a.cooldown_until, now),
        th.auto_terminate,
        a.regression_count,
        th.max_consecutive_regressions,
    )
}

/// The events an audit logs, in order, each with the new epoch count, the agent and `now`.
/// An epoch before auditing starts, or a healthy one, logs that the audit passed (with the
/// reasons where there are any); an agent in cooldown logs nothing; a regression logs the
/// measures and reasons, and then that the agent was degraded where it newly is.
pub open spec fn audit_events(
    epoch: usize,
    id: Seq<char>,
    d: AuditDecision,
    early: bool,
    newly_degraded: bool,
    reasons: Seq<EpochEndReason>,
    measures: Seq<char>,
    now: u64,
) -> Seq<EventView> {
    let ev = |t: OrchestratorEventType, detail: Option<Seq<char>>|
        EventView { epoch, agent_id: id, event_type: t, timestamp: now, detail };
    if early {
        seq![ev(OrchestratorEventType::AuditPassed, None)]
    } else if d.action == AuditAction::Cooldown {
        Seq::empty()
    } else if d.action == AuditAction::Healthy {
        seq![
            ev(
                OrchestratorEventType::AuditPassed,
                if reasons.len() == 0 {
                    None
                } else {
                    Some("reasons="@ + reasons_text(reasons))
                },
            ),
        ]
    } else {
        seq![ev(OrchestratorEventType::RegressionDetected, Some(measures + " reasons="@ + reasons_text(reasons)))]
            + if d.degrade && newly_degraded {
            seq![ev(OrchestratorEventType::AgentDegraded, Some(degraded_by_regression()))]
        } else {
            Seq::empty()
        }
    }
}

/// The audit bookkeeping of the orchestrator.
pub struct AuditLedger {
    epoch_count: usize,
    agents: Vec<AgentAudit>,
    degraded: Vec<String>,
    events: Vec<OrchestratorEvent>,
}

impl AuditLedger {
    pub closed spec fn epochs(&self) -> usize {
        self.epoch_count
    }

    pub closed spec fn agent_list(&self) -> Seq<AgentAuditView> {
        agents_view(self.agents@)
    }

    pub closed spec fn degraded_ids(&self) -> Seq<Seq<char>> {
        strings_view(self.degraded@)
    }

    pub closed spec fn event_list(&self) -> Seq<EventView> {
        events_view(self.events@)
    }

    /// Each agent is recorded once, has run no more epochs than the orchestrator, and has no
    /// more regressions in a row than epochs; no agent is listed as degraded twice.
    pub open spec fn well_formed(&self) -> bool {
        &&& forall|i: int, j: int|
            0 <= i < j < self.agent_list().len() ==> (#[trigger] self.agent_list()[i]).agent_id
                != (#[trigger] self.agent_list()[j]).agent_id
        &&& forall|i: int|
            0 <= i < self.agent_list().len() ==> (#[trigger] self.agent_list()[i]).regression_count
                <= self.agent_list()[i].epochs <= self.epochs()
        &&& self.degraded_ids().no_duplicates()
    }

    pub fn new() -> (res: AuditLedger)
        ensures
            res.well_formed(),
            res.epochs() == 0,
            res.agent_list() == Seq::<AgentAuditView>::empty(),
            res.degraded_ids() == Seq::<Seq<char>>::empty(),
            res.event_list() == Seq::<EventView>::empty(),
    {
        let l = AuditLedger { epoch_count: 0, agents: Vec::new(), degraded: Vec::new(), events: Vec::new() };
        assert(l.agent_list() =~= Seq::<AgentAuditView>::empty());
        assert(l.degraded_ids() =~= Seq::<Seq<char>>::empty());
        assert(l.event_list() =~= Seq::<EventView>::empty());
        l
    }

    pub fn epoch_count(&self) -> (res: usize)
        ensures
            res == self.epochs(),
    {
        self.epoch_count
    }

    /// The event log, oldest first.
    pub fn events(&self) -> (res: &Vec<OrchestratorEvent>)
        ensures
            events_view(res@) == self.event_list(),
    {
        &self.events
    }

    /// The agents listed as degraded, in the order they were first degraded.
    pub fn degraded_agents(&self) -> (res: Vec<String>)
        ensures
            strings_view(res@) == self.degraded_ids(),
    {
        crate::text::copy_strings(&self.degraded)
    }

    fn find(&self, id: &str) -> (res: Option<usize>)
        ensures
            match res {
                Some(k) => k as int == find_agent(self.agent_list(), id@) && k < self.agents@.len(),
                None => find_agent(self.agent_list(), id@) == -1,
            },
    {
        let ghost s = self.agent_list();
        let mut i: usize = 0;
        while i < self.agents.len()
            invariant
                i <= self.agents.len(),
                s == self.agent_list(),
                find_agent(s.take(i as int), id@) == -1,
            decreases self.agents.len() - i,
        {
            assert(s.take(i + 1).drop_last() =~= s.take(i as int));
            if str_eq(self.agents[i].agent_id.as_str(), id) {
                proof {
                    lemma_find_prefix(s, i as int + 1, id@);
                }
                return Some(i);
            }
            i = i + 1;
        }
        assert(s.take(i as int) =~= s);
        None
    }

    /// The record kept of `id`, a fresh one where there is none.
    pub fn agent(&self, id: &str) -> (res: AgentAudit)
        ensures
            res@ == agent_record(self.agent_list(), id@),
    {
        match self.find(id) {
            Some(k) => {
                let a = &self.agents[k];
                AgentAudit {
                    agent_id: a.agent_id.clone(),
                    epochs: a.epochs,
                    regression_count: a.regression_count,
                    cooldown_until: a.cooldown_until,
                }
            },
            None => AgentAudit { agent_id: owned(id), epochs: 0, regression_count: 0, cooldown_until: None },
        }
    }

    /// Whether `id` is in a cooldown at `now`.
    pub fn is_in_cooldown(&self, id: &str, now: u64) -> (res: bool)
        ensures
            res == cooling(agent_record(self.agent_list(), id@).cooldown_until, now),
    {
        let a = self.agent(id);
        match a.cooldown_until {
            Some(u) => now < u,
            None => false,
        }
    }

    fn put_agent(&mut self, r: AgentAudit)
        requires
            old(self).well_formed(),
            r.regression_count <= r.epochs <= old(self).epochs(),
        ensures
            final(self).well_formed(),
            final(self).agent_list() == with_record(old(self).agent_list(), r@),
            final(self).epochs() == old(self).epochs(),
            final(self).degraded_ids() == old(self).degraded_ids(),
            final(self).event_list() == old(self).event_list(),
    {
        let ghost s = self.agent_list();
        let ghost rv = r@;
        match self.find(r.agent_id.as_str()) {
            Some(k) => {
                self.agents.set(k, r);
                assert(self.agent_list() =~= s.update(k as int, rv));
                proof {
                    lemma_find_found(s, rv.agent_id);
                }
            },
            None => {
                self.agents.push(r);
                assert(self.agent_list() =~= s.push(rv));
                proof {
                    lemma_find_missing(s, rv.agent_id);
                }
            },
        }
    }

    fn log(&mut self, id: &str, t: OrchestratorEventType, detail: Option<String>, now: u64)
        ensures
            final(self).event_list() == old(self).event_list().push(
                EventView {
                    epoch: old(self).epoch_count,
                    agent_id: id@,
                    event_type: t,
                    timestamp: now,
                    detail: match detail {
                        Some(d) => Some(d@),
                        None => None,
                    },
                },
            ),
            final(self).epoch_count == old(self).epoch_count,
            final(self).agents == old(self).agents,
            final(self).degraded == old(self).degraded,
    {
        let ev = OrchestratorEvent { epoch: self.epoch_count, agent_id: owned(id), event_type: t, timestamp: now, detail };
        let ghost before = self.events@;
        self.events.push(ev);
        assert(events_view(self.events@) =~= events_view(before).push(event_view(ev)));
    }

    /// Lists `id` as degraded; where it newly is, logs that it was degraded for `reason`.
    /// Whether it newly is comes back.
    fn mark_degraded(&mut self, id: &str, reason: &str, now: u64) -> (res: bool)
        requires
            old(self).well_formed(),
        ensures
            final(self).well_formed(),
            res == !old(self).degraded_ids().contains(id@),
            final(self).degraded_ids() == with_id(old(self).degraded_ids(), id@),
            final(self).event_list() == if res {
                old(self).event_list().push(
                    EventView {
                        epoch: old(self).epochs(),
                        agent_id: id@,
                        event_type: OrchestratorEventType::AgentDegraded,
                        timestamp: now,
                        detail: Some(reason@),
                    },
                )
            } else {
                old(self).event_list()
            },
            final(self).agent_list() == old(self).agent_list(),
            final(self).epochs() == old(self).epochs(),
    {
        let idv = owned(id);
        if crate::text::contains_string(&self.degraded, &idv) {
            return false;
        }
        let ghost before = self.degraded_ids();
        self.degraded.push(idv);
        assert(self.degraded_ids() =~= before.push(id@));
        proof {
            assert forall|p: int, q: int|
                0 <= p < self.degraded_ids().len() && 0 <= q < self.degraded_ids().len() && p != q implies self.degraded_ids()[p]
                != self.degraded_ids()[q] by {
                if p == before.len() {
                    assert(before.contains(self.degraded_ids()[q]) || q == before.len());
                } else if q == before.len() {
                    assert(before.contains(self.degraded_ids()[p]));
                }
            }
        }
        self.log(id, OrchestratorEventType::AgentDegraded, Some(owned(reason)), now);
        true
    }

    /// Marks an agent as degraded; true where it was not yet. The orchestrator's
    /// `degrade_agent`.
    pub fn degrade_agent(&mut self, id: &str, now: u64) -> (res: bool)
        requires
            old(self).well_formed(),
        ensures
            final(self).well_formed(),
            res == !old(self).degraded_ids().contains(id@),
            final(self).degraded_ids() == with_id(old(self).degraded_ids(), id@),
            final(self).event_list() == if res {
                old(self).event_list().push(
                    EventView {
                        epoch: old(self).epochs(),
                        agent_id: id@,
                        event_type: OrchestratorEventType::AgentDegraded,
                        timestamp: now,
                        detail: Some(degraded_by_regression()),
                    },
                )
            } else {
                old(self).event_list()
            },
            final(self).agent_list() == old(self).agent_list(),
            final(self).epochs() == old(self).epochs(),
    {
        self.mark_degraded(id, "Agent marked as degraded due to regression", now)
    }

    /// Terminates an agent by hand: where it is not degraded yet, it is listed as degraded,
    /// a cooldown of `cooldown_ms` starts at `now` and the termination is logged; true then.
    pub fn terminate_agent(&mut self, id: &str, cooldown_ms: u64, now: u64) -> (res: bool)
        requires
            old(self).well_formed(),
            !old(self).degraded_ids().contains(id@) ==> now + cooldown_ms <= u64::MAX,
        ensures
            final(self).well_formed(),
            res == !old(self).degraded_ids().contains(id@),
            final(self).degraded_ids() == with_id(old(self).degraded_ids(), id@),
            final(self).agent_list() == if res {
                with_record(
                    old(self).agent_list(),
                    AgentAuditView {
                        cooldown_until: Some((now + cooldown_ms) as u64),
                        ..agent_record(old(self).agent_list(), id@)
                    },
                )
            } else {
                old(self).agent_list()
            },
            final(self).event_list() == if res {
                old(self).event_list().push(
                    EventView {
                        epoch: old(self).epochs(),
                        agent_id: id@,
                        event_type: OrchestratorEventType::AgentDegraded,
                        timestamp: now,
                        detail: Some("Manually terminated"@),
                    },
                )
            } else {
                old(self).event_list()
            },
            final(self).epochs() == old(self).epochs(),
    {
        let idv = owned(id);
        if crate::text::contains_string(&self.degraded, &idv) {
            return false;
        }
        let a = self.agent(id);
        proof {
            lemma_record_bounds(self.agent_list(), id@, self.epochs());
        }
        self.put_agent(AgentAudit { cooldown_until: Some(now + cooldown_ms), ..a });
        let _ = self.mark_degraded(id, "Manually terminated", now);
        true
    }

    /// Reinstates an agent by hand: it leaves the degraded list, its regressions in a row and
    /// its cooldown are cleared, and where it was degraded that is logged; true then.
    pub fn reinstate_agent(&mut self, id: &str, now: u64) -> (res: bool)
        requires
            old(self).well_formed(),
        ensures
            final(self).well_formed(),
            res == old(self).degraded_ids().contains(id@),
            final(self).degraded_ids() == crate::link_graph::without_member(old(self).degraded_ids(), id@),
            final(self).agent_list() == if find_agent(old(self).agent_list(), id@) >= 0 {
                with_record(
                    old(self).agent_list(),
                    AgentAuditView {
                        regression_count: 0,
                        cooldown_until: None,
                        ..agent_record(old(self).agent_list(), id@)
                    },
                )
            } else {
                old(self).agent_list()
            },
            final(self).event_list() == if res {
                old(self).event_list().push(
                    EventView {
                        epoch: old(self).epochs(),
                        agent_id: id@,
                        event_type: OrchestratorEventType::AuditPassed,
                        timestamp: now,
                        detail: Some("Manually reinstated"@),
                    },
                )
            } else {
                old(self).event_list()
            },
            final(self).epochs() == old(self).epochs(),
    {
        let idv = owned(id);
        let was = crate::text::contains_string(&self.degraded, &idv);
        let ghost d0 = self.degraded_ids();
        let mut kept: Vec<String> = Vec::new();
        let mut i: usize = 0;
        while i < self.degraded.len()
            invariant
                i <= self.degraded.len(),
                d0 == strings_view(self.degraded@),
                strings_view(kept@) == crate::link_graph::without_member(d0.take(i as int), id@),
            decreases self.degraded.len() - i,
        {
            assert(d0.take(i + 1).drop_last() =~= d0.take(i as int));
            if !str_eq(self.degraded[i].as_str(), id) {
                let ghost before = strings_view(kept@);
                kept.push(self.degraded[i].clone());
                assert(strings_view(kept@) =~= before.push(d0[i as int]));
            }
            i = i + 1;
        }
        assert(d0.take(d0.len() as int) =~= d0);
        proof {
            crate::link_graph::lemma_without_member(d0, id@);
        }
        self.degraded = kept;
        match self.find(id) {
            Some(k) => {
                let a = self.agent(id);
                proof {
                    lemma_record_bounds(self.agent_list(), id@, self.epochs());
                }
                self.put_agent(AgentAudit { regression_count: 0, cooldown_until: None, ..a });
            },
            None => {},
        }
        if was {
            self.log(id, OrchestratorEventType::AuditPassed, Some(owned("Manually reinstated")), now);
        }
        was
    }

    /// Audits an epoch of `id` at `now`. `below_convergence` and `reasons` are what the
    /// epoch's measures showed; `measures` is their text for the log. The orchestrator's
    /// epoch count and the agent's go up by one; the action is what `audit_outcome` decides
    /// from the agent's new epoch count, its cooldown and its regressions in a row. A
    /// termination starts a cooldown of `termination_cooldown_ms` from `now`; a regression
    /// with automatic termination degrades the agent; a healthy epoch clears the count. The
    /// events are appended as `audit_events` lists them.
    pub fn audit_epoch(
        &mut self,
        agent_id: &str,
        below_convergence: bool,
        reasons: &Vec<EpochEndReason>,
        measures: &str,
        thresholds: &AuditThresholds,
        now: u64,
    ) -> (res: AuditAction)
        requires
            old(self).well_formed(),
            old(self).epochs() < usize::MAX,
            planned_audit(old(self).agent_list(), agent_id@, below_convergence, reasons@, *thresholds, now).start_cooldown
                ==> now + thresholds.termination_cooldown_ms <= u64::MAX,
        ensures
            final(self).well_formed(),
            ({
                let a = agent_record(old(self).agent_list(), agent_id@);
                let d = planned_audit(old(self).agent_list(), agent_id@, below_convergence, reasons@, *thresholds, now);
                let early = a.epochs + 1 < thresholds.min_epoch_before_audit;
                &&& final(self).epochs() == old(self).epochs() + 1
                &&& res == d.action
                &&& final(self).agent_list() == with_record(
                    old(self).agent_list(),
                    AgentAuditView {
                        agent_id: agent_id@,
                        epochs: (a.epochs + 1) as usize,
                        regression_count: match d.regression_count {
                            Some(c) => c,
                            None => a.regression_count,
                        },
                        cooldown_until: if d.start_cooldown {
                            Some((now + thresholds.termination_cooldown_ms) as u64)
                        } else {
                            a.cooldown_until
                        },
                    },
                )
                &&& final(self).degraded_ids() == if d.degrade {
                    with_id(old(self).degraded_ids(), agent_id@)
                } else {
                    old(self).degraded_ids()
                }
                &&& final(self).event_list() == old(self).event_list() + audit_events(
                    final(self).epochs(),
                    agent_id@,
                    d,
                    early,
                    !old(self).degraded_ids().contains(agent_id@),
                    reasons@,
                    measures@,
                    now,
                )
            }),
    {
        let ghost l0 = *self;
        let a = self.agent(agent_id);
        proof {
            lemma_record_bounds(l0.agent_list(), agent_id@, l0.epochs());
        }
        self.epoch_count = self.epoch_count + 1;
        let epoch = a.epochs + 1;
        let early = epoch < thresholds.min_epoch_before_audit;
        let cool = match a.cooldown_until {
            Some(u) => now < u,
            None => false,
        };
        let mut regressed = below_convergence;
        let mut i: usize = 0;
        while i < reasons.len()
            invariant
                i <= reasons.len(),
                regressed == (below_convergence || exists|j: int| 0 <= j < i && regressive(#[trigger] reasons@[j])),
            decreases reasons.len() - i,
        {
            if is_regressive_reason(&reasons[i]) {
                regressed = true;
            }
            i = i + 1;
        }
        let d = audit_decision(
            early,
            regressed,
            cool,
            thresholds.auto_terminate,
            a.regression_count,
            thresholds.max_consecutive_regressions,
        );
        let count = match d.regression_count {
            Some(c) => c,
            None => a.regression_count,
        };
        let until = if d.start_cooldown {
            Some(now + thresholds.termination_cooldown_ms)
        } else {
            a.cooldown_until
        };
        self.put_agent(AgentAudit { agent_id: owned(agent_id), epochs: epoch, regression_count: count, cooldown_until: until });
        let ghost l1 = *self;
        if early {
            self.log(agent_id, OrchestratorEventType::AuditPassed, None, now);
        } else if cool {
        } else if regressed {
            let mut detail: Vec<char> = Vec::new();
            push_str(&mut detail, measures);
            push_str(&mut detail, " reasons=");
            let rt = format_reasons(reasons);
            push_str(&mut detail, rt.as_str());
            self.log(agent_id, OrchestratorEventType::RegressionDetected, Some(string_of(&detail)), now);
            if d.degrade {
                let ghost l2 = *self;
                let _ = self.mark_degraded(agent_id, "Agent marked as degraded due to regression", now);
                assert(l2.degraded_ids() == l0.degraded_ids());
            }
        } else {
            let detail = if reasons.len() == 0 {
                None
            } else {
                let mut t: Vec<char> = Vec::new();
                push_str(&mut t, "reasons=");
                let rt = format_reasons(reasons);
                push_str(&mut t, rt.as_str());
                Some(string_of(&t))
            };
            self.log(agent_id, OrchestratorEventType::AuditPassed, detail, now);
        }
        assert(self.event_list() =~= l0.event_list() + audit_events(
            self.epochs(),
            agent_id@,
            d,
            early,
            !l0.degraded_ids().contains(agent_id@),
            reasons@,
            measures@,
            now,
        ));
        d.action
    }
}

proof fn lemma_find_prefix(s: Seq<AgentAuditView>, n: int, id: Seq<char>)
    requires
        0 < n <= s.len(),
        find_agent(s.take(n - 1), id) == -1,
        s[n - 1].agent_id == id,
    ensures
        find_agent(s, id) == n - 1,
    decreases s.len() - n,
{
    assert(s.take(n).drop_last() =~= s.take(n - 1));
    assert(find_agent(s.take(n), id) == n - 1);
    if n < s.len() {
        assert(find_agent(s.take(n + 1), id) == n - 1) by {
            assert(s.take(n + 1).drop_last() =~= s.take(n));
        }
        lemma_find_extend(s, n + 1, id);
    } else {
        assert(s.take(n) =~= s);
    }
}

proof fn lemma_find_extend(s: Seq<AgentAuditView>, m: int, id: Seq<char>)
    requires
        0 < m <= s.len(),
        find_agent(s.take(m), id) >= 0,
    ensures
        find_agent(s, id) == find_agent(s.take(m), id),
    decreases s.len() - m,
{
    if m < s.len() {
        assert(s.take(m + 1).drop_last() =~= s.take(m));
        lemma_find_extend(s, m + 1, id);
    } else {
        assert(s.take(m) =~= s);
    }
}

proof fn lemma_find_bounds(s: Seq<AgentAuditView>, id: Seq<char>)
    ensures
        -1 <= find_agent(s, id) < s.len(),
        find_agent(s, id) >= 0 ==> s[find_agent(s, id)].agent_id == id,
        find_agent(s, id) == -1 ==> forall|i: int| 0 <= i < s.len() ==> (#[trigger] s[i]).agent_id != id,
    decreases s.len(),
{
    if s.len() > 0 {
        lemma_find_bounds(s.drop_last(), id);
        assert forall|i: int| 0 <= i < s.len() - 1 implies s[i] == #[trigger] s.drop_last()[i] by {}
        if find_agent(s, id) == -1 {
            assert forall|i: int| 0 <= i < s.len() implies (#[trigger] s[i]).agent_id != id by {
                if i < s.len() - 1 {
                    assert(s.drop_last()[i].agent_id != id);
                }
            }
        }
    }
}

proof fn lemma_find_found(s: Seq<AgentAuditView>, id: Seq<char>)
    ensures
        find_agent(s, id) >= 0 ==> s[find_agent(s, id)].agent_id == id,
{
    lemma_find_bounds(s, id);
}

proof fn lemma_find_missing(s: Seq<AgentAuditView>, id: Seq<char>)
    ensures
        find_agent(s, id) == -1 ==> forall|i: int| 0 <= i < s.len() ==> (#[trigger] s[i]).agent_id != id,
{
    lemma_find_bounds(s, id);
}

proof fn lemma_record_bounds(s: Seq<AgentAuditView>, id: Seq<char>, n: usize)
    requires
        forall|i: int| 0 <= i < s.len() ==> (#[trigger] s[i]).regression_count <= s[i].epochs <= n,
    ensures
        agent_record(s, id).regression_count <= agent_record(s, id).epochs <= n,
        agent_record(s, id).agent_id == id,
{
    lemma_find_bounds(s, id);
}

} // verus!

//! Structural consistency checks on proposition graphs: dependency cycles, dangling
//! references, direct contradictions and unsupported dependency chains.

use vstd::prelude::*;
use crate::text::{chars_of, push_str, append_chars, string_of, copy_string, strings_view, owned};

verus! {

/// Identity of a proposition.
#[derive(Debug, Clone)]
pub struct PropositionId {
    pub id: String,
    pub content_hash: String,
    pub human_readable: String,
}

/// A claim made by an agent. (The agent's confidence in it is not read by the checks.)
#[derive(Debug, Clone)]
pub struct Proposition {
    pub pid: PropositionId,
    pub content: String,
    pub source_agent_id: String,
}

/// How two propositions relate.
#[derive(Debug, Clone, Copy, PartialEq, Eq, Structural)]
pub enum RelationType {
    Implies,
    Contradicts,
    Supports,
    DependsOn,
}

/// A directed relation between two propositions. (Its strength is not read by the checks.)
#[derive(Debug, Clone)]
pub struct PropositionRelation {
    pub from: PropositionId,
    pub to: PropositionId,
    pub relation_type: RelationType,
}

/// The propositions and relations that an agent produced.
#[derive(Debug, Clone)]
pub struct PropositionGraph {
    pub propositions: Vec<Proposition>,
    pub relations: Vec<PropositionRelation>,
    pub source_agent_id: String,
    pub timestamp: u64,
}

/// A consistency violation.
#[derive(Debug, Clone)]
pub enum Violation {
    CycleDetected(Vec<String>),
    DanglingReference(String),
    DirectConflict(String, String),
    UnsupportedChain(String),
}

/// How serious a violation is.
#[derive(Debug, Clone, Copy, PartialEq, Eq, Structural)]
pub enum ViolationSeverity {
    Info,
    Warning,
    Error,
}

/// A violation with its message, severity and repair hint.
#[derive(Debug, Clone)]
pub struct ViolationDiagnostic {
    pub violation: Violation,
    pub message: String,
    pub severity: ViolationSeverity,
    pub repair_hint: Option<String>,
}

/// The outcome of checking a proposition graph.
#[derive(Debug, Clone)]
pub struct VerificationResult {
    pub passed: bool,
    pub violations: Vec<Violation>,
    pub diagnostics: Vec<ViolationDiagnostic>,
    pub warnings: Vec<String>,
    pub topology_valid: bool,
    pub reference_valid: bool,
    pub conflict_free: bool,
    pub kernel_name: String,
    pub scope: String,
    pub is_truth_proof: bool,
}

/// A violation with its text as character sequences.
pub enum ViolationView {
    CycleDetected(Seq<Seq<char>>),
    DanglingReference(Seq<char>),
    DirectConflict(Seq<char>, Seq<char>),
    UnsupportedChain(Seq<char>),
}

impl View for Violation {
    type V = ViolationView;

    open spec fn view(&self) -> ViolationView {
        match self {
            Violation::CycleDetected(ids) => ViolationView::CycleDetected(strings_view(ids@)),
            Violation::DanglingReference(id) => ViolationView::DanglingReference(id@),
            Violation::DirectConflict(a, b) => ViolationView::DirectConflict(a@, b@),
            Violation::UnsupportedChain(id) => ViolationView::UnsupportedChain(id@),
        }
    }
}

pub open spec fn violations_view(v: Seq<Violation>) -> Seq<ViolationView> {
    v.map_values(|x: Violation| x@)
}

/// `ids` joined by `sep`.
pub open spec fn join(ids: Seq<Seq<char>>, sep: Seq<char>) -> Seq<char>
    decreases ids.len(),
{
    if ids.len() == 0 {
        Seq::empty()
    } else if ids.len() == 1 {
        ids[0]
    } else {
        join(ids.drop_last(), sep) + sep + ids.last()
    }
}

/// The human-readable message of a violation.
pub open spec fn violation_message(v: ViolationView) -> Seq<char> {
    match v {
        ViolationView::CycleDetected(ids) => "Cycle detected: "@ + join(ids, " -> "@),
        ViolationView::DanglingReference(id) => "Dangling reference: proposition "@ + id
            + " not found"@,
        ViolationView::DirectConflict(a, b) => "Direct conflict: "@ + a + " contradicts "@ + b,
        ViolationView::UnsupportedChain(id) => "Unsupported chain: proposition "@ + id
            + " depends on non-terminal foundation"@,
    }
}

/// The severity of a violation: only unsupported chains are warnings.
pub open spec fn violation_severity(v: ViolationView) -> ViolationSeverity {
    match v {
        ViolationView::UnsupportedChain(_) => ViolationSeverity::Warning,
        _ => ViolationSeverity::Error,
    }
}

/// The repair hint of a violation.
pub open spec fn violation_hint(v: ViolationView) -> Seq<char> {
    match v {
        ViolationView::CycleDetected(_) => "Break the circular implication/support chain or mark one edge as non-structural."@,
        ViolationView::DanglingReference(id) => "Add proposition `"@ + id
            + "` or remove the relation that references it."@,
        ViolationView::DirectConflict(a, b) => "Review claims `"@ + a + "` and `"@ + b
            + "`; keep both only if the contradiction is intentional evidence."@,
        ViolationView::UnsupportedChain(id) => "Attach supporting evidence or a foundation proposition for `"@
            + id + "`."@,
    }
}

/// A diagnostic with its text as character sequences.
pub struct DiagnosticView {
    pub violation: ViolationView,
    pub message: Seq<char>,
    pub severity: ViolationSeverity,
    pub repair_hint: Option<Seq<char>>,
}

impl View for ViolationDiagnostic {
    type V = DiagnosticView;

    open spec fn view(&self) -> DiagnosticView {
        DiagnosticView {
            violation: self.violation@,
            message: self.message@,
            severity: self.severity,
            repair_hint: match self.repair_hint {
                Some(h) => Some(h@),
                None => None,
            },
        }
    }
}

/// The diagnostic of a violation.
pub open spec fn diagnostic_of(v: ViolationView) -> DiagnosticView {
    DiagnosticView {
        violation: v,
        message: violation_message(v),
        severity: violation_severity(v),
        repair_hint: Some(violation_hint(v)),
    }
}

pub(crate) fn join_ids(ids: &Vec<String>, sep: &str) -> (res: Vec<char>)
    ensures
        res@ == join(strings_view(ids@), sep@),
{
    let mut res: Vec<char> = Vec::new();
    let mut i: usize = 0;
    while i < ids.len()
        invariant
            i <= ids.len(),
            res@ == join(strings_view(ids@).take(i as int), sep@),
        decreases ids.len() - i,
    {
        let ghost pre = strings_view(ids@).take(i as int);
        let ghost post = strings_view(ids@).take(i + 1);
        assert(post.drop_last() == pre);
        assert(post.last() == ids@[i as int]@);
        if i > 0 {
            push_str(&mut res, sep);
        }
        let w = chars_of(ids[i].as_str());
        append_chars(&mut res, &w);
        if i == 0 {
            assert(res@ == post[0]);
        }
        i = i + 1;
    }
    assert(strings_view(ids@).take(ids.len() as int) == strings_view(ids@));
    res
}

impl Violation {
    /// A copy of this violation.
    pub fn copy(&self) -> (res: Violation)
        ensures
            res@ == self@,
    {
        match self {
            Violation::CycleDetected(ids) => Violation::CycleDetected(
                crate::text::copy_strings(ids),
            ),
            Violation::DanglingReference(id) => Violation::DanglingReference(copy_string(id)),
            Violation::DirectConflict(a, b) => Violation::DirectConflict(
                copy_string(a),
                copy_string(b),
            ),
            Violation::UnsupportedChain(id) => Violation::UnsupportedChain(copy_string(id)),
        }
    }

    pub fn severity(&self) -> (res: ViolationSeverity)
        ensures
            res == violation_severity(self@),
    {
        match self {
            Violation::UnsupportedChain(_) => ViolationSeverity::Warning,
            _ => ViolationSeverity::Error,
        }
    }

    /// The human-readable text of this violation.
    pub fn message(&self) -> (res: String)
        ensures
            res@ == violation_message(self@),
    {
        let mut m: Vec<char> = Vec::new();
        match self {
            Violation::CycleDetected(ids) => {
                push_str(&mut m, "Cycle detected: ");
                let j = join_ids(ids, " -> ");
                append_chars(&mut m, &j);
            },
            Violation::DanglingReference(id) => {
                push_str(&mut m, "Dangling reference: proposition ");
                push_str(&mut m, id.as_str());
                push_str(&mut m, " not found");
            },
            Violation::DirectConflict(a, b) => {
                push_str(&mut m, "Direct conflict: ");
                push_str(&mut m, a.as_str());
                push_str(&mut m, " contradicts ");
                push_str(&mut m, b.as_str());
            },
            Violation::UnsupportedChain(id) => {
                push_str(&mut m, "Unsupported chain: proposition ");
                push_str(&mut m, id.as_str());
                push_str(&mut m, " depends on non-terminal foundation");
            },
        }
        string_of(&m)
    }

    pub fn repair_hint(&self) -> (res: Option<String>)
        ensures
            res is Some,
            res->0@ == violation_hint(self@),
    {
        let mut m: Vec<char> = Vec::new();
        match self {
            Violation::CycleDetected(_) => {
                push_str(
                    &mut m,
                    "Break the circular implication/support chain or mark one edge as non-structural.",
                );
            },
            Violation::DanglingReference(id) => {
                push_str(&mut m, "Add proposition `");
                push_str(&mut m, id.as_str());
                push_str(&mut m, "` or remove the relation that references it.");
            },
            Violation::DirectConflict(a, b) => {
                push_str(&mut m, "Review claims `");
                push_str(&mut m, a.as_str());
                push_str(&mut m, "` and `");
                push_str(&mut m, b.as_str());
                push_str(
                    &mut m,
                    "`; keep both only if the contradiction is intentional evidence.",
                );
            },
            Violation::UnsupportedChain(id) => {
                push_str(&mut m, "Attach supporting evidence or a foundation proposition for `");
                push_str(&mut m, id.as_str());
                push_str(&mut m, "`.");
            },
        }
        Some(string_of(&m))
    }

    pub fn diagnostic(&self) -> (res: ViolationDiagnostic)
        ensures
            res@ == diagnostic_of(self@),
    {
        ViolationDiagnostic {
            violation: self.copy(),
            message: self.message(),
            severity: self.severity(),
            repair_hint: self.repair_hint(),
        }
    }
}


// ---------------------------------------------------------------------------------------------
// The graph model.
// ---------------------------------------------------------------------------------------------

pub open spec fn rel_from(g: PropositionGraph, i: int) -> Seq<char> {
    g.relations@[i].from.id@
}

pub open spec fn rel_to(g: PropositionGraph, i: int) -> Seq<char> {
    g.relations@[i].to.id@
}

pub open spec fn rel_type(g: PropositionGraph, i: int) -> RelationType {
    g.relations@[i].relation_type
}

/// The ids of the graph's propositions.
pub open spec fn prop_ids(g: PropositionGraph) -> Seq<Seq<char>> {
    g.propositions@.map_values(|p: Proposition| p.pid.id@)
}

/// Implication, support and dependency are directed structural edges; contradiction is not.
pub open spec fn is_structural(t: RelationType) -> bool {
    t != RelationType::Contradicts
}

/// Whether a structural relation leads from `a` to `b`.
pub open spec fn structural_edge(g: PropositionGraph, a: Seq<char>, b: Seq<char>) -> bool {
    exists|i: int|
        0 <= i < g.relations@.len() && is_structural(#[trigger] rel_type(g, i)) && rel_from(g, i) == a
            && rel_to(g, i) == b
}

/// A closed walk along structural edges.
pub open spec fn is_cycle(g: PropositionGraph, c: Seq<Seq<char>>) -> bool {
    &&& c.len() >= 2
    &&& c[0] == c[c.len() - 1]
    &&& forall|i: int| 0 <= i < c.len() - 1 ==> structural_edge(g, #[trigger] c[i], c[i + 1])
}

/// No closed walk along structural edges.
pub open spec fn acyclic(g: PropositionGraph) -> bool {
    forall|c: Seq<Seq<char>>| !is_cycle(g, c)
}

/// The ids that relations from index `i` on reference without a proposition, each reported
/// once as a source and once as a target, given the ones already reported.
pub open spec fn dangling_from(
    g: PropositionGraph,
    i: int,
    seen_from: Seq<Seq<char>>,
    seen_to: Seq<Seq<char>>,
) -> Seq<Seq<char>>
    decreases g.relations@.len() - i,
{
    if i < 0 || i >= g.relations@.len() {
        Seq::empty()
    } else {
        let f = rel_from(g, i);
        let t = rel_to(g, i);
        let new_f = !prop_ids(g).contains(f) && !seen_from.contains(f);
        let sf = if new_f { seen_from.push(f) } else { seen_from };
        let new_t = !prop_ids(g).contains(t) && !seen_to.contains(t);
        let st = if new_t { seen_to.push(t) } else { seen_to };
        (if new_f { seq![f] } else { Seq::empty() }) + (if new_t { seq![t] } else { Seq::empty() })
            + dangling_from(g, i + 1, sf, st)
    }
}

/// The dangling references of a graph, in order of first appearance.
pub open spec fn dangling_refs(g: PropositionGraph) -> Seq<Seq<char>> {
    dangling_from(g, 0, Seq::empty(), Seq::empty())
}

/// The contradiction pairs of relations from index `i` on.
pub open spec fn conflicts_from(g: PropositionGraph, i: int) -> Seq<(Seq<char>, Seq<char>)>
    decreases g.relations@.len() - i,
{
    if i < 0 || i >= g.relations@.len() {
        Seq::empty()
    } else if rel_type(g, i) == RelationType::Contradicts {
        seq![(rel_from(g, i), rel_to(g, i))] + conflicts_from(g, i + 1)
    } else {
        conflicts_from(g, i + 1)
    }
}

/// Whether `pid` depends on something.
pub open spec fn has_dependency(g: PropositionGraph, pid: Seq<char>) -> bool {
    exists|i: int|
        0 <= i < g.relations@.len() && #[trigger] rel_type(g, i) == RelationType::DependsOn
            && rel_from(g, i) == pid
}

/// Whether something implies or supports `pid`.
pub open spec fn has_support(g: PropositionGraph, pid: Seq<char>) -> bool {
    exists|i: int|
        0 <= i < g.relations@.len() && (#[trigger] rel_type(g, i) == RelationType::Implies
            || rel_type(g, i) == RelationType::Supports) && rel_to(g, i) == pid
}

/// The sources of dependencies, from index `i` on, whose target neither depends on anything
/// nor is implied or supported.
pub open spec fn unsupported_from(g: PropositionGraph, i: int) -> Seq<Seq<char>>
    decreases g.relations@.len() - i,
{
    if i < 0 || i >= g.relations@.len() {
        Seq::empty()
    } else if rel_type(g, i) == RelationType::DependsOn && !has_dependency(g, rel_to(g, i))
        && !has_support(g, rel_to(g, i)) {
        seq![rel_from(g, i)] + unsupported_from(g, i + 1)
    } else {
        unsupported_from(g, i + 1)
    }
}

/// The violations that do not concern cycles: dangling references, then conflicts, then
/// unsupported chains.
pub open spec fn non_cycle_violations(g: PropositionGraph) -> Seq<ViolationView> {
    dangling_refs(g).map_values(|id: Seq<char>| ViolationView::DanglingReference(id))
        + conflicts_from(g, 0).map_values(
        |p: (Seq<char>, Seq<char>)| ViolationView::DirectConflict(p.0, p.1),
    ) + unsupported_from(g, 0).map_values(|id: Seq<char>| ViolationView::UnsupportedChain(id))
}

fn contains_chars(v: &Vec<Vec<char>>, x: &Vec<char>) -> (res: bool)
    ensures
        res == v@.map_values(|w: Vec<char>| w@).contains(x@),
{
    let ghost vv = v@.map_values(|w: Vec<char>| w@);
    let mut i: usize = 0;
    while i < v.len()
        invariant
            i <= v.len(),
            vv == v@.map_values(|w: Vec<char>| w@),
            forall|k: int| 0 <= k < i ==> vv[k] != x@,
        decreases v.len() - i,
    {
        if crate::text::seq_eq(&v[i], x) {
            assert(vv[i as int] == x@);
            return true;
        }
        i = i + 1;
    }
    false
}

fn prop_id_chars(g: &PropositionGraph) -> (res: Vec<Vec<char>>)
    ensures
        res@.map_values(|w: Vec<char>| w@) == prop_ids(*g),
{
    let mut res: Vec<Vec<char>> = Vec::new();
    let mut i: usize = 0;
    while i < g.propositions.len()
        invariant
            i <= g.propositions.len(),
            res@.map_values(|w: Vec<char>| w@) == prop_ids(*g).take(i as int),
        decreases g.propositions.len() - i,
    {
        let w = chars_of(g.propositions[i].pid.id.as_str());
        res.push(w);
        assert(prop_ids(*g).take(i + 1) == prop_ids(*g).take(i as int).push(
            g.propositions@[i as int].pid.id@,
        ));
        assert(res@.map_values(|w: Vec<char>| w@) == prop_ids(*g).take(i + 1));
        i = i + 1;
    }
    assert(prop_ids(*g).take(g.propositions.len() as int) == prop_ids(*g));
    res
}

impl PropositionGraph {
    fn check_references(&self) -> (res: (bool, Vec<Violation>))
        ensures
            violations_view(res.1@) == dangling_refs(*self).map_values(
                |id: Seq<char>| ViolationView::DanglingReference(id),
            ),
            res.0 == (res.1.len() == 0),
    {
        let ids = prop_id_chars(self);
        let mut seen_from: Vec<Vec<char>> = Vec::new();
        let mut seen_to: Vec<Vec<char>> = Vec::new();
        let mut out: Vec<Violation> = Vec::new();
        let ghost total = dangling_refs(*self);
        let mut i: usize = 0;
        assert(seen_from@.map_values(|w: Vec<char>| w@) =~= Seq::<Seq<char>>::empty());
        assert(seen_to@.map_values(|w: Vec<char>| w@) =~= Seq::<Seq<char>>::empty());
        assert(violations_ids(out@) =~= Seq::<Seq<char>>::empty());
        while i < self.relations.len()
            invariant
                i <= self.relations.len(),
                ids@.map_values(|w: Vec<char>| w@) == prop_ids(*self),
                total == dangling_refs(*self),
                total == violations_ids(out@) + dangling_from(
                    *self,
                    i as int,
                    seen_from@.map_values(|w: Vec<char>| w@),
                    seen_to@.map_values(|w: Vec<char>| w@),
                ),
                forall|k: int| 0 <= k < out@.len() ==> out@[k] is DanglingReference,
            decreases self.relations.len() - i,
        {
            let ghost sf = seen_from@.map_values(|w: Vec<char>| w@);
            let ghost st = seen_to@.map_values(|w: Vec<char>| w@);
            let ghost before = violations_ids(out@);
            let f = chars_of(self.relations[i].from.id.as_str());
            let t = chars_of(self.relations[i].to.id.as_str());
            let new_f = !contains_chars(&ids, &f) && !contains_chars(&seen_from, &f);
            if new_f {
                out.push(Violation::DanglingReference(self.relations[i].from.id.clone()));
                seen_from.push(f);
                assert(seen_from@.map_values(|w: Vec<char>| w@) == sf.push(rel_from(*self, i as int)));
            }
            let ghost mid = violations_ids(out@);
            let new_t = !contains_chars(&ids, &t) && !contains_chars(&seen_to, &t);
            if new_t {
                out.push(Violation::DanglingReference(self.relations[i].to.id.clone()));
                seen_to.push(t);
                assert(seen_to@.map_values(|w: Vec<char>| w@) == st.push(rel_to(*self, i as int)));
            }
            proof {
                lemma_violations_ids_push(out@);
                let a = if new_f { seq![rel_from(*self, i as int)] } else { Seq::empty() };
                let b = if new_t { seq![rel_to(*self, i as int)] } else { Seq::empty() };
                assert(violations_ids(out@) == before + a + b);
                assert(before + (a + b + dangling_from(
                    *self,
                    i + 1,
                    seen_from@.map_values(|w: Vec<char>| w@),
                    seen_to@.map_values(|w: Vec<char>| w@),
                )) == violations_ids(out@) + dangling_from(
                    *self,
                    i + 1,
                    seen_from@.map_values(|w: Vec<char>| w@),
                    seen_to@.map_values(|w: Vec<char>| w@),
                ));
            }
            i = i + 1;
        }
        proof {
            assert(total == violations_ids(out@));
            assert(violations_view(out@) == total.map_values(
                |id: Seq<char>| ViolationView::DanglingReference(id),
            ));
        }
        (out.len() == 0, out)
    }
}

impl PropositionGraph {
    fn check_conflicts(&self) -> (res: (bool, Vec<Violation>))
        ensures
            violations_view(res.1@) == conflicts_from(*self, 0).map_values(
                |p: (Seq<char>, Seq<char>)| ViolationView::DirectConflict(p.0, p.1),
            ),
            res.0 == (res.1.len() == 0),
    {
        let mut out: Vec<Violation> = Vec::new();
        let mut i: usize = 0;
        while i < self.relations.len()
            invariant
                i <= self.relations.len(),
                conflicts_from(*self, 0).map_values(
                    |p: (Seq<char>, Seq<char>)| ViolationView::DirectConflict(p.0, p.1),
                ) == violations_view(out@) + conflicts_from(*self, i as int).map_values(
                    |p: (Seq<char>, Seq<char>)| ViolationView::DirectConflict(p.0, p.1),
                ),
            decreases self.relations.len() - i,
        {
            let ghost before = violations_view(out@);
            let ghost rest = conflicts_from(*self, i + 1).map_values(
                |p: (Seq<char>, Seq<char>)| ViolationView::DirectConflict(p.0, p.1),
            );
            if self.relations[i].relation_type == RelationType::Contradicts {
                let v = Violation::DirectConflict(
                    self.relations[i].from.id.clone(),
                    self.relations[i].to.id.clone(),
                );
                out.push(v);
                assert(violations_view(out@) == before.push(v@));
                assert(conflicts_from(*self, i as int).map_values(
                    |p: (Seq<char>, Seq<char>)| ViolationView::DirectConflict(p.0, p.1),
                ) == seq![v@] + rest);
                assert(before + (seq![v@] + rest) == before.push(v@) + rest);
            }
            i = i + 1;
        }
        assert(conflicts_from(*self, i as int).map_values(
            |p: (Seq<char>, Seq<char>)| ViolationView::DirectConflict(p.0, p.1),
        ) =~= Seq::<ViolationView>::empty());
        assert(violations_view(out@) + Seq::<ViolationView>::empty() == violations_view(out@));
        (out.len() == 0, out)
    }

    fn has_dependency_exec(&self, pid: &String) -> (res: bool)
        ensures
            res == has_dependency(*self, pid@),
    {
        let mut i: usize = 0;
        while i < self.relations.len()
            invariant
                i <= self.relations.len(),
                forall|k: int|
                    0 <= k < i ==> !(#[trigger] rel_type(*self, k) == RelationType::DependsOn
                        && rel_from(*self, k) == pid@),
            decreases self.relations.len() - i,
        {
            if self.relations[i].relation_type == RelationType::DependsOn
                && self.relations[i].from.id == *pid {
                assert(rel_type(*self, i as int) == RelationType::DependsOn);
                return true;
            }
            i = i + 1;
        }
        false
    }

    fn has_support_exec(&self, pid: &String) -> (res: bool)
        ensures
            res == has_support(*self, pid@),
    {
        let mut i: usize = 0;
        while i < self.relations.len()
            invariant
                i <= self.relations.len(),
                forall|k: int|
                    0 <= k < i ==> !((#[trigger] rel_type(*self, k) == RelationType::Implies
                        || rel_type(*self, k) == RelationType::Supports) && rel_to(*self, k)
                        == pid@),
            decreases self.relations.len() - i,
        {
            let t = self.relations[i].relation_type;
            if (t == RelationType::Implies || t == RelationType::Supports) && self.relations[i].to.id
                == *pid {
                assert(rel_type(*self, i as int) == t);
                return true;
            }
            i = i + 1;
        }
        false
    }

    fn check_unsupported_chains(&self) -> (res: (bool, Vec<Violation>))
        ensures
            violations_view(res.1@) == unsupported_from(*self, 0).map_values(
                |id: Seq<char>| ViolationView::UnsupportedChain(id),
            ),
            res.0 == (res.1.len() == 0),
    {
        let mut out: Vec<Violation> = Vec::new();
        let mut i: usize = 0;
        while i < self.relations.len()
            invariant
                i <= self.relations.len(),
                unsupported_from(*self, 0).map_values(
                    |id: Seq<char>| ViolationView::UnsupportedChain(id),
                ) == violations_view(out@) + unsupported_from(*self, i as int).map_values(
                    |id: Seq<char>| ViolationView::UnsupportedChain(id),
                ),
            decreases self.relations.len() - i,
        {
            let ghost before = violations_view(out@);
            let ghost rest = unsupported_from(*self, i + 1).map_values(
                |id: Seq<char>| ViolationView::UnsupportedChain(id),
            );
            if self.relations[i].relation_type == RelationType::DependsOn {
                let target = &self.relations[i].to.id;
                if !self.has_dependency_exec(target) && !self.has_support_exec(target) {
                    let v = Violation::UnsupportedChain(self.relations[i].from.id.clone());
                    out.push(v);
                    assert(violations_view(out@) == before.push(v@));
                    assert(unsupported_from(*self, i as int).map_values(
                        |id: Seq<char>| ViolationView::UnsupportedChain(id),
                    ) == seq![v@] + rest);
                    assert(before + (seq![v@] + rest) == before.push(v@) + rest);
                }
            }
            i = i + 1;
        }
        assert(unsupported_from(*self, i as int).map_values(
            |id: Seq<char>| ViolationView::UnsupportedChain(id),
        ) =~= Seq::<ViolationView>::empty());
        assert(violations_view(out@) + Seq::<ViolationView>::empty() == violations_view(out@));
        (out.len() == 0, out)
    }
}

// ---------------------------------------------------------------------------------------------
// Cycle detection by depth-first search over interned node indices.
// ---------------------------------------------------------------------------------------------

pub open spec fn names_view(v: Seq<Vec<char>>) -> Seq<Seq<char>> {
    v.map_values(|w: Vec<char>| w@)
}

pub open spec fn distinct_names(s: Seq<Seq<char>>) -> bool {
    forall|i: int, j: int| 0 <= i < s.len() && 0 <= j < s.len() && i != j ==> s[i] != s[j]
}

/// Whether `a` sorts strictly before `b` (lexicographic by code point, as `str` orders).
fn lex_lt(a: &Vec<char>, b: &Vec<char>) -> (res: bool)
    ensures
        res == crate::text::lex_lt(a@, b@),
{
    let mut i: usize = 0;
    assert(a@.skip(0) =~= a@);
    assert(b@.skip(0) =~= b@);
    while i < a.len() && i < b.len()
        invariant
            i <= a.len(),
            i <= b.len(),
            crate::text::lex_lt(a@, b@) == crate::text::lex_lt(a@.skip(i as int), b@.skip(i as int)),
        decreases a.len() - i,
    {
        if a[i] != b[i] {
            return a[i] < b[i];
        }
        assert(a@.skip(i as int).drop_first() == a@.skip(i + 1));
        assert(b@.skip(i as int).drop_first() == b@.skip(i + 1));
        i = i + 1;
    }
    a.len() < b.len()
}

/// Adds `x` to the sorted, duplicate-free list `names` unless it is already there.
fn insert_name(names: &mut Vec<Vec<char>>, x: Vec<char>)
    requires
        distinct_names(names_view(old(names)@)),
    ensures
        distinct_names(names_view(final(names)@)),
        forall|y: Seq<char>|
            names_view(final(names)@).contains(y) <==> (names_view(old(names)@).contains(y) || y
                == x@),
{
    if contains_chars(names, &x) {
        return;
    }
    let mut p: usize = 0;
    while p < names.len() && lex_lt(&names[p], &x)
        invariant
            p <= names.len(),
        decreases names.len() - p,
    {
        p = p + 1;
    }
    let ghost old_v = names_view(names@);
    names.insert(p, x);
    proof {
        assert(names_view(names@) =~= old_v.insert(p as int, x@));
        assert forall|y: Seq<char>|
            names_view(names@).contains(y) <==> (old_v.contains(y) || y == x@) by {
            if names_view(names@).contains(y) {
                let k = choose|k: int| 0 <= k < names_view(names@).len() && names_view(names@)[k] == y;
                if k < p {
                    assert(old_v[k] == y);
                } else if k > p {
                    assert(old_v[k - 1] == y);
                }
            }
            if old_v.contains(y) {
                let k = choose|k: int| 0 <= k < old_v.len() && old_v[k] == y;
                if k < p {
                    assert(names_view(names@)[k] == y);
                } else {
                    assert(names_view(names@)[k + 1] == y);
                }
            }
            if y == x@ {
                assert(names_view(names@)[p as int] == y);
            }
        }
    }
}

/// Whether `x` is an endpoint of some relation.
pub open spec fn is_endpoint(g: PropositionGraph, x: Seq<char>) -> bool {
    exists|i: int| 0 <= i < g.relations@.len() && (#[trigger] rel_from(g, i) == x || rel_to(g, i) == x)
}

/// Every relation endpoint is among `nv`.
pub open spec fn endpoints_named(g: PropositionGraph, nv: Seq<Seq<char>>) -> bool {
    forall|i: int|
        0 <= i < g.relations@.len() ==> nv.contains(#[trigger] rel_from(g, i)) && nv.contains(rel_to(g, i))
}

/// All node names, sorted, without duplicates.
fn collect_nodes(g: &PropositionGraph) -> (res: Vec<Vec<char>>)
    ensures
        distinct_names(names_view(res@)),
        endpoints_named(*g, names_view(res@)),
{
    let mut names: Vec<Vec<char>> = Vec::new();
    let mut i: usize = 0;
    while i < g.propositions.len()
        invariant
            i <= g.propositions.len(),
            distinct_names(names_view(names@)),
        decreases g.propositions.len() - i,
    {
        insert_name(&mut names, chars_of(g.propositions[i].pid.id.as_str()));
        i = i + 1;
    }
    let mut j: usize = 0;
    while j < g.relations.len()
        invariant
            j <= g.relations.len(),
            distinct_names(names_view(names@)),
            forall|k: int|
                0 <= k < j ==> names_view(names@).contains(#[trigger] rel_from(*g, k))
                    && names_view(names@).contains(rel_to(*g, k)),
        decreases g.relations.len() - j,
    {
        let ghost prev = names_view(names@);
        insert_name(&mut names, chars_of(g.relations[j].from.id.as_str()));
        let ghost mid = names_view(names@);
        insert_name(&mut names, chars_of(g.relations[j].to.id.as_str()));
        proof {
            assert forall|k: int| 0 <= k < j + 1 implies names_view(names@).contains(
                #[trigger] rel_from(*g, k),
            ) && names_view(names@).contains(rel_to(*g, k)) by {
                if k < j {
                    assert(prev.contains(rel_from(*g, k)));
                    assert(prev.contains(rel_to(*g, k)));
                    assert(mid.contains(rel_from(*g, k)));
                    assert(mid.contains(rel_to(*g, k)));
                } else {
                    assert(mid.contains(rel_from(*g, k)));
                }
            }
        }
        j = j + 1;
    }
    assert(endpoints_named(*g, names_view(names@)));
    names
}

/// The position of `x` among `names`.
fn index_of_name(names: &Vec<Vec<char>>, x: &Vec<char>) -> (res: usize)
    requires
        names_view(names@).contains(x@),
    ensures
        res < names.len(),
        names@[res as int]@ == x@,
{
    let ghost nv = names_view(names@);
    let mut i: usize = 0;
    while i < names.len()
        invariant
            i <= names.len(),
            nv == names_view(names@),
            nv.contains(x@),
            forall|k: int| 0 <= k < i ==> nv[k] != x@,
        decreases names.len() - i,
    {
        if crate::text::seq_eq(&names[i], x) {
            return i;
        }
        i = i + 1;
    }
    proof {
        let k = choose|k: int| 0 <= k < nv.len() && nv[k] == x@;
        assert(nv[k] == x@);
    }
    0
}

pub open spec fn adj_view(adj: Seq<Vec<usize>>) -> Seq<Seq<usize>> {
    adj.map_values(|l: Vec<usize>| l@)
}

/// The adjacency lists describe exactly the structural edges between named nodes.
pub open spec fn adjacency_of(
    g: PropositionGraph,
    names: Seq<Seq<char>>,
    adj: Seq<Seq<usize>>,
) -> bool {
    &&& adj.len() == names.len()
    &&& forall|u: int, k: int| 0 <= u < adj.len() && 0 <= k < adj[u].len() ==> adj[u][k] < names.len()
    &&& forall|u: int, v: int|
        0 <= u < names.len() && 0 <= v < names.len() ==> (adj[u].contains(v as usize)
            <==> structural_edge(g, names[u], names[v]))
}

/// Inserts `x` into the ascending list `l`.
fn insert_sorted(l: &mut Vec<usize>, x: usize)
    ensures
        forall|y: usize| final(l)@.contains(y) <==> (old(l)@.contains(y) || y == x),
        final(l)@.len() == old(l)@.len() + 1,
{
    let mut p: usize = 0;
    while p < l.len() && l[p] <= x
        invariant
            p <= l.len(),
        decreases l.len() - p,
    {
        p = p + 1;
    }
    let ghost old_l = l@;
    l.insert(p, x);
    assert forall|y: usize| l@.contains(y) <==> (old_l.contains(y) || y == x) by {
        if l@.contains(y) {
            let k = choose|k: int| 0 <= k < l@.len() && l@[k] == y;
            if k < p {
                assert(old_l[k] == y);
            } else if k > p {
                assert(old_l[k - 1] == y);
            }
        }
        if old_l.contains(y) {
            let k = choose|k: int| 0 <= k < old_l.len() && old_l[k] == y;
            if k < p {
                assert(l@[k] == y);
            } else {
                assert(l@[k + 1] == y);
            }
        }
        if y == x {
            assert(l@[p as int] == y);
        }
    }
}

fn build_adjacency(g: &PropositionGraph, names: &Vec<Vec<char>>) -> (adj: Vec<Vec<usize>>)
    requires
        distinct_names(names_view(names@)),
        endpoints_named(*g, names_view(names@)),
    ensures
        adjacency_of(*g, names_view(names@), adj_view(adj@)),
{
    let ghost nv = names_view(names@);
    let mut adj: Vec<Vec<usize>> = Vec::new();
    let mut u: usize = 0;
    while u < names.len()
        invariant
            u <= names.len(),
            nv == names_view(names@),
            distinct_names(nv),
            endpoints_named(*g, nv),
            adj@.len() == u,
            forall|a: int, k: int|
                0 <= a < u && 0 <= k < adj@[a]@.len() ==> adj@[a]@[k] < names.len(),
            forall|a: int, v: int|
                0 <= a < u && 0 <= v < names.len() ==> (adj@[a]@.contains(v as usize)
                    <==> structural_edge(*g, nv[a], nv[v])),
        decreases names.len() - u,
    {
        let mut list: Vec<usize> = Vec::new();
        let mut i: usize = 0;
        while i < g.relations.len()
            invariant
                u < names.len(),
                i <= g.relations.len(),
                nv == names_view(names@),
                distinct_names(nv),
                endpoints_named(*g, nv),
                forall|k: int| 0 <= k < list@.len() ==> list@[k] < names.len(),
                forall|v: int|
                    #![trigger nv[v]]
                    0 <= v < names.len() ==> (list@.contains(v as usize) <==> exists|r: int|
                        0 <= r < i && is_structural(#[trigger] rel_type(*g, r)) && rel_from(*g, r)
                            == nv[u as int] && rel_to(*g, r) == nv[v]),
            decreases g.relations.len() - i,
        {
            let rel = &g.relations[i];
            if rel.relation_type != RelationType::Contradicts {
                let f = chars_of(rel.from.id.as_str());
                if crate::text::seq_eq(&f, &names[u]) {
                    let t = chars_of(rel.to.id.as_str());
                    assert(nv.contains(rel_from(*g, i as int)));
                    assert(nv.contains(rel_to(*g, i as int)));
                    let v = index_of_name(names, &t);
                    let ghost old_list = list@;
                    insert_sorted(&mut list, v);
                    assert forall|w: int| #![trigger nv[w]] 0 <= w < names.len() implies (list@.contains(w as usize)
                        <==> exists|r: int|
                        0 <= r < i + 1 && is_structural(#[trigger] rel_type(*g, r)) && rel_from(*g, r)
                            == nv[u as int] && rel_to(*g, r) == nv[w]) by {
                        if w == v {
                            assert(rel_type(*g, i as int) == rel.relation_type);
                        } else {
                            if exists|r: int|
                                0 <= r < i + 1 && is_structural(#[trigger] rel_type(*g, r))
                                    && rel_from(*g, r) == nv[u as int] && rel_to(*g, r) == nv[w] {
                                let r = choose|r: int|
                                    0 <= r < i + 1 && is_structural(#[trigger] rel_type(*g, r))
                                        && rel_from(*g, r) == nv[u as int] && rel_to(*g, r) == nv[w];
                                if r == i {
                                    assert(nv[w] == nv[v as int]);
                                }
                            }
                        }
                    }
                    assert forall|k: int| 0 <= k < list@.len() implies list@[k] < names.len() by {
                        assert(list@.contains(list@[k]));
                    }
                }
            }
            i = i + 1;
        }
        proof {
            assert forall|v: int|
                #![trigger nv[v]]
                0 <= v < names.len() implies (list@.contains(v as usize) <==> structural_edge(
                    *g,
                    nv[u as int],
                    nv[v],
                )) by {
                if structural_edge(*g, nv[u as int], nv[v]) {
                    let r = choose|r: int|
                        0 <= r < g.relations@.len() && is_structural(#[trigger] rel_type(*g, r))
                            && rel_from(*g, r) == nv[u as int] && rel_to(*g, r) == nv[v];
                    assert(is_structural(rel_type(*g, r)));
                }
            }
        }
        adj.push(list);
        u = u + 1;
    }
    assert(adj_view(adj@).len() == names.len());
    adj
}

/// The number of nodes not yet visited.
pub open spec fn unvisited(s: Seq<bool>) -> nat
    decreases s.len(),
{
    if s.len() == 0 {
        0
    } else {
        unvisited(s.drop_last()) + if s.last() {
            0nat
        } else {
            1nat
        }
    }
}

pub proof fn lemma_unvisited_mono(a: Seq<bool>, b: Seq<bool>)
    requires
        a.len() == b.len(),
        forall|i: int| 0 <= i < a.len() && a[i] ==> b[i],
    ensures
        unvisited(b) <= unvisited(a),
        (exists|i: int| 0 <= i < a.len() && !a[i] && b[i]) ==> unvisited(b) < unvisited(a),
    decreases a.len(),
{
    if a.len() > 0 {
        lemma_unvisited_mono(a.drop_last(), b.drop_last());
        if exists|i: int| 0 <= i < a.len() && !a[i] && b[i] {
            let i = choose|i: int| 0 <= i < a.len() && !a[i] && b[i];
            if i < a.len() - 1 {
                assert(!a.drop_last()[i] && b.drop_last()[i]);
            }
        }
    }
}

/// A closed walk along adjacency edges, as node indices.
pub open spec fn index_cycle(adj: Seq<Seq<usize>>, c: Seq<usize>) -> bool {
    &&& c.len() >= 2
    &&& c[0] == c[c.len() - 1]
    &&& forall|k: int| 0 <= k < c.len() ==> c[k] < adj.len()
    &&& forall|k: int| 0 <= k < c.len() - 1 ==> adj[#[trigger] c[k] as int].contains(c[k + 1])
}

pub open spec fn black(visited: Seq<bool>, in_stack: Seq<bool>, x: int) -> bool {
    visited[x] && !in_stack[x]
}

/// The invariant of the depth-first search.
pub open spec fn dfs_state(
    adj: Seq<Seq<usize>>,
    visited: Seq<bool>,
    in_stack: Seq<bool>,
    path: Seq<usize>,
    cycles: Seq<Seq<usize>>,
    rank: Seq<int>,
    t: int,
) -> bool {
    let n = adj.len();
    &&& visited.len() == n
    &&& in_stack.len() == n
    &&& rank.len() == n
    &&& forall|u: int, k: int| 0 <= u < n && 0 <= k < adj[u].len() ==> adj[u][k] < n
    &&& forall|x: int| 0 <= x < n && in_stack[x] ==> visited[x]
    &&& forall|k: int| 0 <= k < path.len() ==> path[k] < n
    &&& forall|x: usize| (x as int) < n ==> (in_stack[x as int] <==> path.contains(x))
    &&& forall|i: int, j: int| 0 <= i < j < path.len() ==> path[i] != path[j]
    &&& forall|k: int| 0 <= k < path.len() - 1 ==> adj[#[trigger] path[k] as int].contains(path[k + 1])
    &&& forall|k: int| 0 <= k < cycles.len() ==> index_cycle(adj, #[trigger] cycles[k])
    &&& forall|x: int| 0 <= x < n && black(visited, in_stack, x) ==> rank[x] < t
    &&& cycles.len() == 0 ==> forall|u: int, k: int|
        0 <= u < n && black(visited, in_stack, u) && 0 <= k < adj[u].len() ==> black(
            visited,
            in_stack,
            adj[u][k] as int,
        ) && rank[adj[u][k] as int] < rank[u]
}

pub proof fn lemma_enter(
    av: Seq<Seq<usize>>,
    vis: Seq<bool>,
    stk: Seq<bool>,
    path: Seq<usize>,
    cyc: Seq<Seq<usize>>,
    rank: Seq<int>,
    t: int,
    node: usize,
)
    requires
        dfs_state(av, vis, stk, path, cyc, rank, t),
        node < av.len(),
        !vis[node as int],
        path.len() > 0 ==> av[path.last() as int].contains(node),
    ensures
        dfs_state(av, vis.update(node as int, true), stk.update(node as int, true), path.push(node), cyc, rank, t),
{
    let n = av.len() as int;
    let vis2 = vis.update(node as int, true);
    let stk2 = stk.update(node as int, true);
    let path2 = path.push(node);
    assert(!stk[node as int]);
    assert(!path.contains(node));
    assert forall|x: usize| (x as int) < n implies (stk2[x as int] <==> path2.contains(x)) by {
        if x == node {
            assert(path2[path2.len() - 1] == node);
        } else {
            if path2.contains(x) {
                let k = choose|k: int| 0 <= k < path2.len() && path2[k] == x;
                assert(k < path.len());
                assert(path[k] == x);
            }
            if path.contains(x) {
                let k = choose|k: int| 0 <= k < path.len() && path[k] == x;
                assert(path2[k] == x);
            }
        }
    }
    assert forall|i: int, j: int| 0 <= i < j < path2.len() implies path2[i] != path2[j] by {
        if j == path2.len() - 1 {
            assert(path[i] == path2[i]);
            assert(path.contains(path2[i]));
        }
    }
    assert forall|k: int| 0 <= k < path2.len() - 1 implies av[#[trigger] path2[k] as int].contains(
        path2[k + 1],
    ) by {
        if k < path2.len() - 2 {
            assert(path[k] == path2[k]);
            assert(av[path[k] as int].contains(path[k + 1]));
        }
    }
    assert forall|x: int| 0 <= x < n && black(vis2, stk2, x) implies black(vis, stk, x) by {}
}

pub proof fn lemma_leave(
    av: Seq<Seq<usize>>,
    vis: Seq<bool>,
    stk: Seq<bool>,
    path: Seq<usize>,
    cyc: Seq<Seq<usize>>,
    rank: Seq<int>,
    t: int,
    node: usize,
)
    requires
        dfs_state(av, vis, stk, path, cyc, rank, t),
        node < av.len(),
        path.len() > 0,
        path.last() == node,
        cyc.len() == 0 ==> forall|k: int|
            0 <= k < av[node as int].len() ==> black(vis, stk, #[trigger] av[node as int][k] as int)
                && rank[av[node as int][k] as int] < t,
    ensures
        dfs_state(
            av,
            vis,
            stk.update(node as int, false),
            path.drop_last(),
            cyc,
            rank.update(node as int, t),
            t + 1,
        ),
{
    let n = av.len() as int;
    let stk2 = stk.update(node as int, false);
    let path2 = path.drop_last();
    let rank2 = rank.update(node as int, t);
    assert(stk[node as int]) by {
        assert(path[path.len() - 1] == node);
    }
    assert forall|x: usize| (x as int) < n implies (stk2[x as int] <==> path2.contains(x)) by {
        if x == node {
            if path2.contains(x) {
                let k = choose|k: int| 0 <= k < path2.len() && path2[k] == x;
                assert(path[k] == path[path.len() - 1]);
            }
        } else {
            if path.contains(x) {
                let k = choose|k: int| 0 <= k < path.len() && path[k] == x;
                assert(k != path.len() - 1);
                assert(path2[k] == x);
            }
            if path2.contains(x) {
                let k = choose|k: int| 0 <= k < path2.len() && path2[k] == x;
                assert(path[k] == x);
            }
        }
    }
    assert forall|k: int| 0 <= k < path2.len() - 1 implies av[#[trigger] path2[k] as int].contains(
        path2[k + 1],
    ) by {
        assert(path[k] == path2[k]);
        assert(av[path[k] as int].contains(path[k + 1]));
    }
    assert forall|x: int| 0 <= x < n && black(vis, stk2, x) implies rank2[x] < t + 1 by {
        if x != node {
            assert(black(vis, stk, x));
        }
    }
    if cyc.len() == 0 {
        assert forall|u: int, k: int|
            0 <= u < n && black(vis, stk2, u) && 0 <= k < av[u].len() implies black(
            vis,
            stk2,
            av[u][k] as int,
        ) && rank2[av[u][k] as int] < rank2[u] by {
            if u == node {
                assert(black(vis, stk, av[node as int][k] as int));
            } else {
                assert(black(vis, stk, u));
                assert(black(vis, stk, av[u][k] as int));
            }
        }
    }
}

proof fn lemma_add_cycle(
    av: Seq<Seq<usize>>,
    vis: Seq<bool>,
    stk: Seq<bool>,
    path: Seq<usize>,
    cyc: Seq<Seq<usize>>,
    rank: Seq<int>,
    t: int,
    c: Seq<usize>,
)
    requires
        dfs_state(av, vis, stk, path, cyc, rank, t),
        index_cycle(av, c),
    ensures
        dfs_state(av, vis, stk, path, cyc.push(c), rank, t),
{
    assert forall|k: int| 0 <= k < cyc.push(c).len() implies index_cycle(av, #[trigger] cyc.push(c)[k]) by {
        if k < cyc.len() {
            assert(cyc.push(c)[k] == cyc[k]);
        }
    }
}

#[verifier::rlimit(100)]
fn dfs_cycle(
    node: usize,
    adj: &Vec<Vec<usize>>,
    visited: &mut Vec<bool>,
    in_stack: &mut Vec<bool>,
    path: &mut Vec<usize>,
    cycles: &mut Vec<Vec<usize>>,
    Ghost(rank0): Ghost<Seq<int>>,
    Ghost(t0): Ghost<int>,
) -> (out: Ghost<(Seq<int>, int)>)
    requires
        dfs_state(
            adj_view(adj@),
            old(visited)@,
            old(in_stack)@,
            old(path)@,
            adj_view(old(cycles)@),
            rank0,
            t0,
        ),
        node < adj.len(),
        !old(visited)@[node as int],
        old(path)@.len() > 0 ==> adj_view(adj@)[old(path)@.last() as int].contains(node),
    ensures
        dfs_state(
            adj_view(adj@),
            final(visited)@,
            final(in_stack)@,
            final(path)@,
            adj_view(final(cycles)@),
            out@.0,
            out@.1,
        ),
        final(visited)@[node as int],
        final(path)@ == old(path)@,
        final(in_stack)@ == old(in_stack)@,
        forall|x: int| 0 <= x < adj.len() && old(visited)@[x] ==> final(visited)@[x],
        final(cycles)@.len() >= old(cycles)@.len(),
        forall|k: int| 0 <= k < old(cycles)@.len() ==> final(cycles)@[k]@ == old(cycles)@[k]@,
        forall|x: int|
            0 <= x < adj.len() && black(old(visited)@, old(in_stack)@, x) ==> out@.0[x] == rank0[x],
        out@.1 >= t0,
    decreases unvisited(old(visited)@),
{
    let ghost av = adj_view(adj@);
    let ghost n = adj.len() as int;
    let ghost entry_visited = visited@;
    let ghost entry_stack = in_stack@;
    let ghost entry_path = path@;
    let ghost entry_cycles = cycles@;
    proof {
        lemma_enter(av, visited@, in_stack@, path@, adj_view(cycles@), rank0, t0, node);
    }
    visited.set(node, true);
    in_stack.set(node, true);
    path.push(node);
    proof {
        lemma_unvisited_mono(entry_visited, visited@);
        assert(!entry_visited[node as int] && visited@[node as int]);
    }
    let ghost mut rank = rank0;
    let ghost mut t = t0;
    let mut j: usize = 0;
    while j < adj[node].len()
        invariant
            av == adj_view(adj@),
            n == adj.len(),
            node < n,
            entry_visited.len() == n,
            entry_stack.len() == n,
            entry_visited == old(visited)@,
            !entry_visited[node as int],
            j <= av[node as int].len(),
            dfs_state(av, visited@, in_stack@, path@, adj_view(cycles@), rank, t),
            path@ == entry_path.push(node),
            visited@[node as int],
            in_stack@ == entry_stack.update(node as int, true),
            forall|x: int| 0 <= x < n && entry_visited[x] ==> visited@[x],
            unvisited(visited@) < unvisited(entry_visited),
            cycles@.len() >= entry_cycles.len(),
            forall|k: int| 0 <= k < entry_cycles.len() ==> cycles@[k]@ == entry_cycles[k]@,
            forall|x: int| 0 <= x < n && black(entry_visited, entry_stack, x) ==> rank[x] == rank0[x],
            t >= t0,
            cycles@.len() == 0 ==> forall|k: int|
                0 <= k < j ==> black(visited@, in_stack@, #[trigger] av[node as int][k] as int)
                    && rank[av[node as int][k] as int] < t,
        decreases av[node as int].len() - j,
    {
        let nb = adj[node][j];
        assert(av[node as int][j as int] == nb);
        if in_stack[nb] {
            let mut p: usize = 0;
            while p < path.len() && path[p] != nb
                invariant
                    p <= path.len(),
                    forall|k: int| 0 <= k < p ==> path@[k] != nb,
                decreases path.len() - p,
            {
                p = p + 1;
            }
            proof {
                assert(path@.contains(nb));
                if p == path.len() {
                    let k = choose|k: int| 0 <= k < path@.len() && path@[k] == nb;
                    assert(path@[k] == nb);
                }
            }
            let mut cycle: Vec<usize> = Vec::new();
            let mut q = p;
            while q < path.len()
                invariant
                    p <= q <= path.len(),
                    cycle@ == path@.subrange(p as int, q as int),
                decreases path.len() - q,
            {
                cycle.push(path[q]);
                q = q + 1;
            }
            cycle.push(nb);
            proof {
                let c = cycle@;
                assert(c[0] == nb);
                assert forall|k: int| 0 <= k < c.len() - 1 implies av[#[trigger] c[k] as int].contains(
                    c[k + 1],
                ) by {
                    if k < c.len() - 2 {
                        assert(c[k] == path@[p + k]);
                        assert(c[k + 1] == path@[p + k + 1]);
                    } else {
                        assert(c[k] == path@[path@.len() - 1]);
                    }
                }
                lemma_add_cycle(av, visited@, in_stack@, path@, adj_view(cycles@), rank, t, c);
            }
            let ghost old_cycles = cycles@;
            cycles.push(cycle);
            proof {
                assert(adj_view(cycles@) =~= adj_view(old_cycles).push(cycle@));
                assert forall|k: int| 0 <= k < entry_cycles.len() implies cycles@[k]@ == entry_cycles[k]@ by {
                    assert(cycles@[k] == old_cycles[k]);
                }
            }
        } else if !visited[nb] {
            let ghost pre_visited = visited@;
            let ghost pre_stack = in_stack@;
            let ghost pre_cycles = cycles@;
            let ghost pre_t = t;
            let ghost pre_rank0 = rank;
            assert(cycles@.len() == 0 ==> forall|k: int|
                0 <= k < j ==> black(pre_visited, pre_stack, #[trigger] av[node as int][k] as int)
                    && pre_rank0[av[node as int][k] as int] < pre_t);
            proof {
                assert(path@.last() == node);
            }
            let out = dfs_cycle(nb, adj, visited, in_stack, path, cycles, Ghost(rank), Ghost(t));
            proof {
                let pre_rank = rank;
                rank = out@.0;
                t = out@.1;
                lemma_unvisited_mono(entry_visited, visited@);
                assert forall|k: int| 0 <= k < entry_cycles.len() implies cycles@[k]@ == entry_cycles[k]@ by {
                    assert(cycles@[k]@ == pre_cycles[k]@);
                }
                assert forall|x: int| 0 <= x < n && black(entry_visited, entry_stack, x) implies rank[x] == rank0[x] by {
                    assert(x != node);
                    assert(black(pre_visited, pre_stack, x));
                    assert(pre_rank[x] == rank0[x]);
                }
                if cycles@.len() == 0 {
                    assert forall|k: int|
                        0 <= k < j + 1 implies black(visited@, in_stack@, #[trigger] av[node as int][k] as int)
                        && rank[av[node as int][k] as int] < t by {
                        let w = av[node as int][k] as int;
                        assert(pre_cycles.len() == 0);
                        if k < j {
                            assert(black(pre_visited, pre_stack, w) && pre_rank0[w] < pre_t);
                            assert(rank[w] == pre_rank0[w]);
                            assert(visited@[w]);
                            assert(!in_stack@[w]);
                        } else {
                            assert(w == nb);
                            assert(visited@[w]);
                            assert(!pre_stack[w]);
                            assert(black(visited@, in_stack@, w));
                        }
                    }
                }
            }
        } else {
            proof {
                assert(black(visited@, in_stack@, nb as int));
                assert(rank[nb as int] < t);
            }
        }
        j = j + 1;
    }
    proof {
        lemma_leave(av, visited@, in_stack@, path@, adj_view(cycles@), rank, t, node);
    }
    path.pop();
    in_stack.set(node, false);
    proof {
        rank = rank.update(node as int, t);
        t = t + 1;
        assert(path@ =~= entry_path);
        assert(in_stack@ =~= entry_stack);
    }
    Ghost((rank, t))
}

/// The position of a name among distinct names.
spec fn name_index(nv: Seq<Seq<char>>, x: Seq<char>) -> int {
    choose|i: int| 0 <= i < nv.len() && nv[i] == x
}

proof fn lemma_rank_descends(
    g: PropositionGraph,
    nv: Seq<Seq<char>>,
    av: Seq<Seq<usize>>,
    rank: Seq<int>,
    c: Seq<Seq<char>>,
    k: int,
)
    requires
        distinct_names(nv),
        adjacency_of(g, nv, av),
        rank.len() == nv.len(),
        nv.len() <= usize::MAX,
        forall|u: int, m: int|
            0 <= u < av.len() && 0 <= m < av[u].len() ==> rank[av[u][m] as int] < rank[u],
        is_cycle(g, c),
        forall|m: int| 0 <= m < c.len() ==> nv.contains(#[trigger] c[m]),
        0 <= k < c.len(),
    ensures
        rank[name_index(nv, c[k])] <= rank[name_index(nv, c[0])] - k,
    decreases k,
{
    if k > 0 {
        lemma_rank_descends(g, nv, av, rank, c, k - 1);
        let a = name_index(nv, c[k - 1]);
        let b = name_index(nv, c[k]);
        assert(nv.contains(c[k - 1]));
        assert(nv.contains(c[k]));
        assert(0 <= a < nv.len() && nv[a] == c[k - 1]);
        assert(0 <= b < nv.len() && nv[b] == c[k]);
        assert(structural_edge(g, c[k - 1], c[k]));
        assert(av[a].contains(b as usize));
        let m = choose|m: int| 0 <= m < av[a].len() && av[a][m] == b as usize;
        assert(rank[av[a][m] as int] < rank[a]);
    }
}

proof fn lemma_no_cycle_when_ranked(
    g: PropositionGraph,
    nv: Seq<Seq<char>>,
    av: Seq<Seq<usize>>,
    rank: Seq<int>,
    c: Seq<Seq<char>>,
)
    requires
        distinct_names(nv),
        endpoints_named(g, nv),
        adjacency_of(g, nv, av),
        rank.len() == nv.len(),
        nv.len() <= usize::MAX,
        forall|u: int, k: int|
            0 <= u < av.len() && 0 <= k < av[u].len() ==> rank[av[u][k] as int] < rank[u],
    ensures
        !is_cycle(g, c),
{
    if !is_cycle(g, c) {
        return;
    }
    assert forall|k: int| 0 <= k < c.len() implies nv.contains(#[trigger] c[k]) by {
        if k < c.len() - 1 {
            assert(structural_edge(g, c[k], c[k + 1]));
            let r = choose|r: int|
                0 <= r < g.relations@.len() && is_structural(#[trigger] rel_type(g, r)) && rel_from(
                    g,
                    r,
                ) == c[k] && rel_to(g, r) == c[k + 1];
            assert(nv.contains(rel_from(g, r)));
        } else {
            assert(structural_edge(g, c[k - 1], c[k]));
            let r = choose|r: int|
                0 <= r < g.relations@.len() && is_structural(#[trigger] rel_type(g, r)) && rel_from(
                    g,
                    r,
                ) == c[k - 1] && rel_to(g, r) == c[k];
            assert(nv.contains(rel_from(g, r)));
        }
    }
    lemma_rank_descends(g, nv, av, rank, c, c.len() - 1);
    assert(c[0] == c[c.len() - 1]);
}

fn check_dag_topology(g: &PropositionGraph) -> (res: (bool, Vec<Violation>))
    ensures
        res.0 == acyclic(*g),
        res.0 == (res.1.len() == 0),
        forall|k: int|
            0 <= k < res.1@.len() ==> (#[trigger] res.1@[k]@ matches ViolationView::CycleDetected(
                ids,
            ) && is_cycle(*g, ids)),
{
    let names = collect_nodes(g);
    let adj = build_adjacency(g, &names);
    let ghost nv = names_view(names@);
    let ghost av = adj_view(adj@);
    let n = names.len();
    let mut visited: Vec<bool> = Vec::new();
    let mut in_stack: Vec<bool> = Vec::new();
    let mut i: usize = 0;
    while i < n
        invariant
            i <= n,
            visited@.len() == i,
            in_stack@.len() == i,
            forall|x: int| 0 <= x < i ==> !visited@[x] && !in_stack@[x],
        decreases n - i,
    {
        visited.push(false);
        in_stack.push(false);
        i = i + 1;
    }
    let mut path: Vec<usize> = Vec::new();
    let mut cycles: Vec<Vec<usize>> = Vec::new();
    let ghost mut rank: Seq<int> = Seq::new(n as nat, |x: int| 0int);
    let ghost mut t: int = 0;
    proof {
        assert(adj_view(cycles@) =~= Seq::<Seq<usize>>::empty());
        assert forall|x: usize| (x as int) < n implies (in_stack@[x as int] <==> path@.contains(x)) by {}
    }
    let mut u: usize = 0;
    while u < n
        invariant
            u <= n,
            n == names.len(),
            nv == names_view(names@),
            av == adj_view(adj@),
            adjacency_of(*g, nv, av),
            dfs_state(av, visited@, in_stack@, path@, adj_view(cycles@), rank, t),
            path@.len() == 0,
            forall|x: int| 0 <= x < n ==> !in_stack@[x],
            forall|x: int| 0 <= x < u ==> visited@[x],
        decreases n - u,
    {
        if !visited[u] {
            let out = dfs_cycle(u, &adj, &mut visited, &mut in_stack, &mut path, &mut cycles, Ghost(rank), Ghost(t));
            proof {
                rank = out@.0;
                t = out@.1;
            }
        }
        u = u + 1;
    }
    let mut violations: Vec<Violation> = Vec::new();
    let mut c: usize = 0;
    while c < cycles.len()
        invariant
            c <= cycles.len(),
            violations@.len() == c,
            nv == names_view(names@),
            av == adj_view(adj@),
            adjacency_of(*g, nv, av),
            forall|k: int| 0 <= k < cycles@.len() ==> index_cycle(av, #[trigger] adj_view(cycles@)[k]),
            forall|k: int|
                0 <= k < c ==> (#[trigger] violations@[k]@ matches ViolationView::CycleDetected(
                    ids,
                ) && is_cycle(*g, ids)),
        decreases cycles.len() - c,
    {
        let cyc = &cycles[c];
        assert(index_cycle(av, adj_view(cycles@)[c as int]));
        assert(adj_view(cycles@)[c as int] == cyc@);
        let mut ids: Vec<String> = Vec::new();
        let mut k: usize = 0;
        while k < cyc.len()
            invariant
                k <= cyc.len(),
                nv == names_view(names@),
                index_cycle(av, cyc@),
                av.len() == names.len(),
                strings_view(ids@) == cyc@.take(k as int).map_values(|x: usize| nv[x as int]),
            decreases cyc.len() - k,
        {
            let w = &names[cyc[k]];
            ids.push(string_of(w));
            assert(cyc@.take(k + 1).map_values(|x: usize| nv[x as int]) =~= cyc@.take(k as int).map_values(
                |x: usize| nv[x as int],
            ).push(nv[cyc@[k as int] as int]));
            assert(strings_view(ids@) =~= cyc@.take(k + 1).map_values(|x: usize| nv[x as int]));
            k = k + 1;
        }
        proof {
            let idsv = strings_view(ids@);
            assert(cyc@.take(cyc.len() as int) == cyc@);
            assert forall|m: int| 0 <= m < idsv.len() - 1 implies structural_edge(*g, #[trigger] idsv[m], idsv[m + 1]) by {
                assert(av[cyc@[m] as int].contains(cyc@[m + 1]));
                assert(idsv[m] == nv[cyc@[m] as int]);
                assert(idsv[m + 1] == nv[cyc@[m + 1] as int]);
            }
            assert(is_cycle(*g, idsv));
        }
        violations.push(Violation::CycleDetected(ids));
        c = c + 1;
    }
    proof {
        if cycles@.len() > 0 {
            let v = violations@[0]@;
            assert(v matches ViolationView::CycleDetected(ids) && is_cycle(*g, ids));
        } else {
            assert forall|cc: Seq<Seq<char>>| !is_cycle(*g, cc) by {
                if is_cycle(*g, cc) {
                    assert forall|x: int, k: int|
                        0 <= x < av.len() && 0 <= k < av[x].len() implies rank[av[x][k] as int] < rank[x] by {
                        assert(visited@[x]);
                        assert(black(visited@, in_stack@, x));
                    }
                    lemma_no_cycle_when_ranked(*g, nv, av, rank, cc);
                }
            }
        }
    }
    (cycles.len() == 0, violations)
}

/// The kernel that checks proposition graphs for structural consistency.
pub struct HybridLeanKernel;

/// Diagnostic views of a sequence of violations.
pub open spec fn diagnostics_view(d: Seq<ViolationDiagnostic>) -> Seq<DiagnosticView> {
    d.map_values(|x: ViolationDiagnostic| x@)
}

/// What `HybridLeanKernel::verify` reports of a graph.
pub open spec fn verification_ok(g: PropositionGraph, res: VerificationResult) -> bool {
    let v = violations_view(res.violations@);
    let nc = non_cycle_violations(g);
    let k = v.len() - nc.len();
    &&& res.topology_valid == acyclic(g)
    &&& res.reference_valid == (dangling_refs(g).len() == 0)
    &&& res.conflict_free == (conflicts_from(g, 0).len() == 0)
    &&& v.len() >= nc.len()
    &&& v.skip(k) == nc
    &&& forall|i: int|
        0 <= i < k ==> (#[trigger] v[i] matches ViolationView::CycleDetected(ids) && is_cycle(g, ids))
    &&& (k == 0) == acyclic(g)
    &&& res.passed == (res.violations@.len() == 0)
    &&& diagnostics_view(res.diagnostics@) == v.map_values(|x: ViolationView| diagnostic_of(x))
    &&& res.warnings@.len() == 0
    &&& res.kernel_name@ == "PropositionKernel"@
    &&& res.scope@ == "proposition_graph_consistency"@
    &&& !res.is_truth_proof
}

/// Name of the kernel.
pub fn default_kernel_name() -> (res: String)
    ensures
        res@ == "PropositionKernel"@,
{
    owned("PropositionKernel")
}

/// What the kernel checks.
pub fn default_kernel_scope() -> (res: String)
    ensures
        res@ == "proposition_graph_consistency"@,
{
    owned("proposition_graph_consistency")
}

fn append_violations(out: &mut Vec<Violation>, more: Vec<Violation>)
    ensures
        violations_view(final(out)@) == violations_view(old(out)@) + violations_view(more@),
        final(out)@ == old(out)@ + more@,
{
    let mut m = more;
    let ghost mv = m@;
    out.append(&mut m);
    assert(violations_view(out@) =~= violations_view(old(out)@) + violations_view(mv));
}

impl HybridLeanKernel {
    /// Checks the graph for cycles, dangling references, contradictions and unsupported
    /// dependency chains; it passes when none is found.
    pub fn verify(graph: &PropositionGraph) -> (res: VerificationResult)
        ensures
            verification_ok(*graph, res),
    {
        let (topology_valid, top) = check_dag_topology(graph);
        let (reference_valid, refs) = graph.check_references();
        let (conflict_free, conf) = graph.check_conflicts();
        let (_chains_ok, chains) = graph.check_unsupported_chains();
        let ghost tv = violations_view(top@);
        let ghost rv = violations_view(refs@);
        let ghost cv = violations_view(conf@);
        let ghost uv = violations_view(chains@);
        let mut violations: Vec<Violation> = Vec::new();
        append_violations(&mut violations, top);
        append_violations(&mut violations, refs);
        append_violations(&mut violations, conf);
        append_violations(&mut violations, chains);
        let mut diagnostics: Vec<ViolationDiagnostic> = Vec::new();
        let mut i: usize = 0;
        while i < violations.len()
            invariant
                i <= violations.len(),
                diagnostics_view(diagnostics@) == violations_view(violations@).take(i as int).map_values(
                    |x: ViolationView| diagnostic_of(x),
                ),
            decreases violations.len() - i,
        {
            let d = violations[i].diagnostic();
            let ghost old_d = diagnostics_view(diagnostics@);
            let ghost dv = d@;
            diagnostics.push(d);
            assert(diagnostics_view(diagnostics@) =~= old_d.push(dv));
            assert(violations_view(violations@).take(i + 1) == violations_view(violations@).take(
                i as int,
            ).push(violations@[i as int]@));
            assert(diagnostics_view(diagnostics@) =~= violations_view(violations@).take(i + 1).map_values(
                |x: ViolationView| diagnostic_of(x),
            ));
            i = i + 1;
        }
        let passed = violations.len() == 0;
        let res = VerificationResult {
            passed,
            violations,
            diagnostics,
            warnings: Vec::new(),
            topology_valid,
            reference_valid,
            conflict_free,
            kernel_name: default_kernel_name(),
            scope: default_kernel_scope(),
            is_truth_proof: false,
        };
        proof {
            let v = violations_view(res.violations@);
            let nc = non_cycle_violations(*graph);
            assert(v == tv + rv + cv + uv);
            assert(nc == rv + cv + uv);
            assert(v.len() - nc.len() == tv.len());
            assert(v.skip(tv.len() as int) =~= nc);
            assert(v.take(v.len() as int) == v);
            assert forall|i: int| 0 <= i < tv.len() implies (#[trigger] v[i] matches ViolationView::CycleDetected(
                ids,
            ) && is_cycle(*graph, ids)) by {
                assert(v[i] == tv[i]);
                assert(tv[i] == top@[i]@);
            }
        }
        res
    }
}

/// The proposition kernel under its public name.
pub struct PropositionKernel;

impl PropositionKernel {
    pub const NAME: &'static str = "PropositionKernel";

    pub fn verify(graph: &PropositionGraph) -> (res: VerificationResult)
        ensures
            verification_ok(*graph, res),
    {
        HybridLeanKernel::verify(graph)
    }
}

/// The ids carried by a sequence of dangling-reference violations.
pub open spec fn violations_ids(v: Seq<Violation>) -> Seq<Seq<char>> {
    v.map_values(
        |x: Violation|
            match x {
                Violation::DanglingReference(id) => id@,
                _ => Seq::empty(),
            },
    )
}

proof fn lemma_violations_ids_push(v: Seq<Violation>)
    ensures
        forall|x: Violation| #[trigger] violations_ids(v.push(x)) == violations_ids(v).push(
            match x {
                Violation::DanglingReference(id) => id@,
                _ => Seq::empty(),
            },
        ),
{
    assert forall|x: Violation| #[trigger] violations_ids(v.push(x)) == violations_ids(v).push(
        match x {
            Violation::DanglingReference(id) => id@,
            _ => Seq::empty(),
        },
    ) by {
        assert(violations_ids(v.push(x)) =~= violations_ids(v).push(
            match x {
                Violation::DanglingReference(id) => id@,
                _ => Seq::empty(),
            },
        ));
    }
}

} // verus!

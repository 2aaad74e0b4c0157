//! The in-memory link graph of a vault: which notes link to which, the typed edges between
//! them, and the notes' titles.
//!
//! Outgoing and incoming links are kept as two association lists, from a note to the notes it
//! links to and from a note to the notes that link to it. Each key occurs once, and each list
//! of neighbours holds a note at most once.

use vstd::prelude::*;
use crate::text::{contains_string, copy_strings, owned, str_eq, strings_view};

verus! {

#[derive(Debug, Clone, Copy, PartialEq, Eq, Structural, Hash)]
pub enum GraphEdgeType {
    Parent,
    Reference,
    Related,
    Source,
    Sequence,
    Semantic,
    Temporal,
    Bridge,
}

/// A typed edge between two notes. Its confidence and weight are kept as the bit patterns of
/// the 32-bit floats they were given as, and are handed back unchanged.
#[derive(Debug, Clone)]
pub struct GraphEdge {
    pub from: String,
    pub to: String,
    pub edge_type: GraphEdgeType,
    pub origin: String,
    pub confidence_bits: u32,
    pub weight_bits: Option<u32>,
    pub memory_region: Option<String>,
}

pub struct EdgeView {
    pub from: Seq<char>,
    pub to: Seq<char>,
    pub edge_type: GraphEdgeType,
    pub origin: Seq<char>,
    pub confidence_bits: u32,
    pub weight_bits: Option<u32>,
    pub memory_region: Option<Seq<char>>,
}

pub open spec fn optional_text(o: Option<String>) -> Option<Seq<char>> {
    match o {
        Some(s) => Some(s@),
        None => None,
    }
}

impl View for GraphEdge {
    type V = EdgeView;

    open spec fn view(&self) -> EdgeView {
        EdgeView {
            from: self.from@,
            to: self.to@,
            edge_type: self.edge_type,
            origin: self.origin@,
            confidence_bits: self.confidence_bits,
            weight_bits: self.weight_bits,
            memory_region: optional_text(self.memory_region),
        }
    }
}

impl GraphEdge {
    pub fn copied(&self) -> (res: GraphEdge)
        ensures
            res@ == self@,
    {
        GraphEdge {
            from: self.from.clone(),
            to: self.to.clone(),
            edge_type: self.edge_type,
            origin: self.origin.clone(),
            confidence_bits: self.confidence_bits,
            weight_bits: self.weight_bits,
            memory_region: match &self.memory_region {
                Some(r) => Some(r.clone()),
                None => None,
            },
        }
    }
}

/// A note as the frontend draws it. `hops` is its distance from the focused note, where the
/// graph was asked for around one and the note can be reached from it.
#[derive(Debug, Clone)]
pub struct GraphNode {
    pub id: String,
    pub title: String,
    pub outgoing: usize,
    pub incoming: usize,
    pub hops: Option<usize>,
}

pub struct NodeView {
    pub id: Seq<char>,
    pub title: Seq<char>,
    pub outgoing: usize,
    pub incoming: usize,
    pub hops: Option<usize>,
}

impl View for GraphNode {
    type V = NodeView;

    open spec fn view(&self) -> NodeView {
        NodeView {
            id: self.id@,
            title: self.title@,
            outgoing: self.outgoing,
            incoming: self.incoming,
            hops: self.hops,
        }
    }
}

/// A link into a note, with the text around it.
#[derive(Debug, Clone)]
pub struct Backlink {
    pub from_file: String,
    pub from_title: String,
    pub context: String,
    pub position: usize,
}

/// The nodes and edges of the graph, for the frontend.
#[derive(Debug, Clone)]
pub struct GraphData {
    pub nodes: Vec<GraphNode>,
    pub edges: Vec<GraphEdge>,
}

// ---------------------------------------------------------------------------------------
// Association lists from note ids to values.
// ---------------------------------------------------------------------------------------

pub open spec fn has_key<V>(a: Seq<(Seq<char>, V)>, k: Seq<char>) -> bool {
    exists|i: int| 0 <= i < a.len() && #[trigger] a[i].0 == k
}

pub open spec fn key_index<V>(a: Seq<(Seq<char>, V)>, k: Seq<char>) -> int {
    choose|i: int| 0 <= i < a.len() && #[trigger] a[i].0 == k
}

pub open spec fn keys_distinct<V>(a: Seq<(Seq<char>, V)>) -> bool {
    forall|i: int, j: int| 0 <= i < a.len() && 0 <= j < a.len() && i != j ==> #[trigger] a[i].0 != #[trigger] a[j].0
}

/// The value kept under `k`.
pub open spec fn lookup<V>(a: Seq<(Seq<char>, V)>, k: Seq<char>) -> Option<V> {
    if has_key(a, k) {
        Some(a[key_index(a, k)].1)
    } else {
        None
    }
}

/// `a` with `v` under `k`: in place where `k` is already a key, else appended.
pub open spec fn put<V>(a: Seq<(Seq<char>, V)>, k: Seq<char>, v: V) -> Seq<(Seq<char>, V)> {
    if has_key(a, k) {
        a.update(key_index(a, k), (k, v))
    } else {
        a.push((k, v))
    }
}

/// `a` without the entry of `k`.
pub open spec fn drop_key<V>(a: Seq<(Seq<char>, V)>, k: Seq<char>) -> Seq<(Seq<char>, V)> {
    if has_key(a, k) {
        a.remove(key_index(a, k))
    } else {
        a
    }
}

/// The keys in order.
pub open spec fn keys_of<V>(a: Seq<(Seq<char>, V)>) -> Seq<Seq<char>> {
    a.map_values(|e: (Seq<char>, V)| e.0)
}

proof fn lemma_key_at<V>(a: Seq<(Seq<char>, V)>, k: Seq<char>, i: int)
    requires
        keys_distinct(a),
        0 <= i < a.len(),
        a[i].0 == k,
    ensures
        has_key(a, k),
        key_index(a, k) == i,
        lookup(a, k) == Some(a[i].1),
{
    assert(has_key(a, k));
    let j = key_index(a, k);
    assert(0 <= j < a.len() && a[j].0 == k);
}

proof fn lemma_put<V>(a: Seq<(Seq<char>, V)>, k: Seq<char>, v: V)
    requires
        keys_distinct(a),
    ensures
        keys_distinct(put(a, k, v)),
        lookup(put(a, k, v), k) == Some(v),
        forall|x: Seq<char>| x != k ==> lookup(#[trigger] put(a, k, v), x) == lookup(a, x),
        forall|x: Seq<char>| has_key(#[trigger] put(a, k, v), x) <==> (has_key(a, x) || x == k),
{
    let b = put(a, k, v);
    if has_key(a, k) {
        let i = key_index(a, k);
        assert(0 <= i < a.len() && a[i].0 == k);
        assert forall|p: int, q: int| 0 <= p < b.len() && 0 <= q < b.len() && p != q implies #[trigger] b[p].0 != #[trigger] b[q].0 by {
            assert(b[p].0 == a[p].0);
            assert(b[q].0 == a[q].0);
        }
        lemma_key_at(b, k, i);
        assert forall|x: Seq<char>| x != k implies lookup(#[trigger] put(a, k, v), x) == lookup(a, x) by {
            if has_key(a, x) {
                let j = key_index(a, x);
                assert(b[j].0 == x);
                lemma_key_at(b, x, j);
            } else {
                if has_key(b, x) {
                    let j = key_index(b, x);
                    assert(a[j].0 == x);
                }
            }
        }
        assert forall|x: Seq<char>| has_key(#[trigger] put(a, k, v), x) <==> (has_key(a, x) || x == k) by {
            if has_key(a, x) {
                let j = key_index(a, x);
                assert(b[j].0 == x);
            }
            if has_key(b, x) {
                let j = key_index(b, x);
                assert(a[j].0 == x);
            }
        }
    } else {
        assert forall|p: int, q: int| 0 <= p < b.len() && 0 <= q < b.len() && p != q implies #[trigger] b[p].0 != #[trigger] b[q].0 by {
            if p == a.len() {
                assert(a[q].0 != k);
            } else if q == a.len() {
                assert(a[p].0 != k);
            }
        }
        lemma_key_at(b, k, a.len() as int);
        assert forall|x: Seq<char>| x != k implies lookup(#[trigger] put(a, k, v), x) == lookup(a, x) by {
            if has_key(a, x) {
                let j = key_index(a, x);
                assert(b[j].0 == x);
                lemma_key_at(b, x, j);
            } else {
                if has_key(b, x) {
                    let j = key_index(b, x);
                    assert(a[j].0 == x);
                }
            }
        }
        assert forall|x: Seq<char>| has_key(#[trigger] put(a, k, v), x) <==> (has_key(a, x) || x == k) by {
            if has_key(a, x) {
                let j = key_index(a, x);
                assert(b[j].0 == x);
            }
            if has_key(b, x) && x != k {
                let j = key_index(b, x);
                assert(a[j].0 == x);
            }
        }
    }
}

proof fn lemma_drop_key<V>(a: Seq<(Seq<char>, V)>, k: Seq<char>)
    requires
        keys_distinct(a),
    ensures
        keys_distinct(drop_key(a, k)),
        !has_key(drop_key(a, k), k),
        forall|x: Seq<char>| x != k ==> lookup(#[trigger] drop_key(a, k), x) == lookup(a, x),
        forall|x: Seq<char>| has_key(#[trigger] drop_key(a, k), x) <==> (has_key(a, x) && x != k),
{
    let b = drop_key(a, k);
    if has_key(a, k) {
        let i = key_index(a, k);
        assert(0 <= i < a.len() && a[i].0 == k);
        assert forall|p: int| 0 <= p < b.len() implies #[trigger] b[p] == (if p < i { a[p] } else { a[p + 1] }) by {}
        assert forall|p: int, q: int| 0 <= p < b.len() && 0 <= q < b.len() && p != q implies #[trigger] b[p].0 != #[trigger] b[q].0 by {
            let pp = if p < i { p } else { p + 1 };
            let qq = if q < i { q } else { q + 1 };
            assert(b[p].0 == a[pp].0);
            assert(b[q].0 == a[qq].0);
        }
        if has_key(b, k) {
            let j = key_index(b, k);
            let jj = if j < i { j } else { j + 1 };
            assert(a[jj].0 == k);
        }
        assert forall|x: Seq<char>| x != k implies lookup(#[trigger] drop_key(a, k), x) == lookup(a, x) by {
            if has_key(a, x) {
                let j = key_index(a, x);
                assert(j != i);
                let jb = if j < i { j } else { j - 1 };
                assert(b[jb].0 == x);
                lemma_key_at(b, x, jb);
            } else {
                if has_key(b, x) {
                    let j = key_index(b, x);
                    let jj = if j < i { j } else { j + 1 };
                    assert(a[jj].0 == x);
                }
            }
        }
        assert forall|x: Seq<char>| has_key(#[trigger] drop_key(a, k), x) <==> (has_key(a, x) && x != k) by {
            if has_key(a, x) && x != k {
                let j = key_index(a, x);
                let jb = if j < i { j } else { j - 1 };
                assert(b[jb].0 == x);
            }
            if has_key(b, x) {
                let j = key_index(b, x);
                let jj = if j < i { j } else { j + 1 };
                assert(a[jj].0 == x);
            }
        }
    }
}

// ---------------------------------------------------------------------------------------
// Adjacency lists: from a note to a list of notes without repeats.
// ---------------------------------------------------------------------------------------

pub open spec fn adj_view(t: Seq<(String, Vec<String>)>) -> Seq<(Seq<char>, Seq<Seq<char>>)> {
    t.map_values(|e: (String, Vec<String>)| (e.0@, strings_view(e.1@)))
}

pub open spec fn adj_ok(a: Seq<(Seq<char>, Seq<Seq<char>>)>) -> bool {
    &&& keys_distinct(a)
    &&& forall|i: int| 0 <= i < a.len() ==> (#[trigger] a[i]).1.no_duplicates()
}

/// The notes kept under `k`; none where `k` is no key.
pub open spec fn members(a: Seq<(Seq<char>, Seq<Seq<char>>)>, k: Seq<char>) -> Seq<Seq<char>> {
    match lookup(a, k) {
        Some(v) => v,
        None => Seq::empty(),
    }
}

pub open spec fn with_member(vs: Seq<Seq<char>>, v: Seq<char>) -> Seq<Seq<char>> {
    if vs.contains(v) {
        vs
    } else {
        vs.push(v)
    }
}

pub open spec fn without_member(vs: Seq<Seq<char>>, v: Seq<char>) -> Seq<Seq<char>>
    decreases vs.len(),
{
    if vs.len() == 0 {
        vs
    } else {
        let rest = without_member(vs.drop_last(), v);
        if vs.last() == v {
            rest
        } else {
            rest.push(vs.last())
        }
    }
}

/// `a` with `v` among the notes of `k`, `k` becoming a key where it was none.
pub open spec fn add_member(a: Seq<(Seq<char>, Seq<Seq<char>>)>, k: Seq<char>, v: Seq<char>) -> Seq<
    (Seq<char>, Seq<Seq<char>>),
> {
    put(a, k, with_member(members(a, k), v))
}

/// `a` without `v` among the notes of `k`; keys stay.
pub open spec fn remove_member(a: Seq<(Seq<char>, Seq<Seq<char>>)>, k: Seq<char>, v: Seq<char>) -> Seq<
    (Seq<char>, Seq<Seq<char>>),
> {
    if has_key(a, k) {
        put(a, k, without_member(members(a, k), v))
    } else {
        a
    }
}

/// `a` without `v` among the notes of each key in `ks`.
pub open spec fn strip_member(a: Seq<(Seq<char>, Seq<Seq<char>>)>, ks: Seq<Seq<char>>, v: Seq<char>) -> Seq<
    (Seq<char>, Seq<Seq<char>>),
> {
    a.map_values(
        |e: (Seq<char>, Seq<Seq<char>>)|
            if ks.contains(e.0) {
                (e.0, without_member(e.1, v))
            } else {
                e
            },
    )
}

/// `a` with `v` added under each key of `ks`, in order.
pub open spec fn add_member_to_all(a: Seq<(Seq<char>, Seq<Seq<char>>)>, ks: Seq<Seq<char>>, v: Seq<char>) -> Seq<
    (Seq<char>, Seq<Seq<char>>),
>
    decreases ks.len(),
{
    if ks.len() == 0 {
        a
    } else {
        add_member(add_member_to_all(a, ks.drop_last(), v), ks.last(), v)
    }
}

pub proof fn lemma_push_contains<A>(s: Seq<A>, e: A, x: A)
    ensures
        s.push(e).contains(x) <==> (s.contains(x) || e == x),
{
    let w = s.push(e);
    if s.contains(x) {
        let j = choose|j: int| 0 <= j < s.len() && s[j] == x;
        assert(w[j] == x);
    }
    if e == x {
        assert(w[s.len() as int] == x);
    }
    if w.contains(x) {
        let j = choose|j: int| 0 <= j < w.len() && w[j] == x;
        if j < s.len() {
            assert(s[j] == x);
        }
    }
}

proof fn lemma_last_contains<A>(s: Seq<A>, x: A)
    requires
        s.len() > 0,
    ensures
        s.contains(x) <==> (s.drop_last().contains(x) || s.last() == x),
{
    assert(s == s.drop_last().push(s.last()));
    lemma_push_contains(s.drop_last(), s.last(), x);
}

pub proof fn lemma_push_no_duplicates<A>(s: Seq<A>, e: A)
    requires
        s.no_duplicates(),
        !s.contains(e),
    ensures
        s.push(e).no_duplicates(),
{
    let w = s.push(e);
    assert forall|p: int, q: int| 0 <= p < w.len() && 0 <= q < w.len() && p != q implies w[p] != w[q] by {
        if p == s.len() {
            assert(s[q] == w[q]);
        } else if q == s.len() {
            assert(s[p] == w[p]);
        } else {
            assert(s[p] == w[p] && s[q] == w[q]);
        }
    }
}

pub proof fn lemma_without_member(vs: Seq<Seq<char>>, v: Seq<char>)
    ensures
        !without_member(vs, v).contains(v),
        forall|x: Seq<char>| x != v ==> (without_member(vs, v).contains(x) <==> vs.contains(x)),
        vs.no_duplicates() ==> without_member(vs, v).no_duplicates(),
    decreases vs.len(),
{
    if vs.len() > 0 {
        let d = vs.drop_last();
        lemma_without_member(d, v);
        let r = without_member(d, v);
        assert forall|x: Seq<char>| x != v implies (without_member(vs, v).contains(x) <==> vs.contains(x)) by {
            lemma_last_contains(vs, x);
            lemma_push_contains(r, vs.last(), x);
        }
        lemma_push_contains(r, vs.last(), v);
        if vs.no_duplicates() {
            assert(d.no_duplicates()) by {
                assert forall|p: int, q: int| 0 <= p < d.len() && 0 <= q < d.len() && p != q implies d[p] != d[q] by {
                    assert(d[p] == vs[p] && d[q] == vs[q]);
                }
            }
            if vs.last() != v {
                assert(!d.contains(vs.last())) by {
                    if d.contains(vs.last()) {
                        let m = choose|m: int| 0 <= m < d.len() && d[m] == vs.last();
                        assert(vs[m] == vs[vs.len() - 1]);
                    }
                }
                lemma_push_no_duplicates(r, vs.last());
            }
        }
    }
}

proof fn lemma_with_member(vs: Seq<Seq<char>>, v: Seq<char>)
    requires
        vs.no_duplicates(),
    ensures
        with_member(vs, v).no_duplicates(),
        with_member(vs, v).contains(v),
        forall|x: Seq<char>| x != v ==> (with_member(vs, v).contains(x) <==> vs.contains(x)),
{
    if !vs.contains(v) {
        let w = vs.push(v);
        assert(w[vs.len() as int] == v);
        assert forall|p: int, q: int| 0 <= p < w.len() && 0 <= q < w.len() && p != q implies w[p] != w[q] by {
            if p == vs.len() {
                assert(vs.contains(w[q]) || q == vs.len());
            } else if q == vs.len() {
                assert(vs.contains(w[p]));
            }
        }
        assert forall|x: Seq<char>| x != v implies (with_member(vs, v).contains(x) <==> vs.contains(x)) by {
            if w.contains(x) {
                let j = choose|j: int| 0 <= j < w.len() && w[j] == x;
                assert(j < vs.len());
                assert(vs[j] == x);
            }
            if vs.contains(x) {
                let j = choose|j: int| 0 <= j < vs.len() && vs[j] == x;
                assert(w[j] == x);
            }
        }
    } else {
    }
}

proof fn lemma_adj_put(a: Seq<(Seq<char>, Seq<Seq<char>>)>, k: Seq<char>, vs: Seq<Seq<char>>)
    requires
        adj_ok(a),
        vs.no_duplicates(),
    ensures
        adj_ok(put(a, k, vs)),
{
    lemma_put(a, k, vs);
    let b = put(a, k, vs);
    assert forall|i: int| 0 <= i < b.len() implies (#[trigger] b[i]).1.no_duplicates() by {
        if has_key(a, k) {
            if i != key_index(a, k) {
                assert(b[i] == a[i]);
            }
        } else {
            if i < a.len() {
                assert(b[i] == a[i]);
            }
        }
    }
}

proof fn lemma_adj_drop(a: Seq<(Seq<char>, Seq<Seq<char>>)>, k: Seq<char>)
    requires
        adj_ok(a),
    ensures
        adj_ok(drop_key(a, k)),
{
    lemma_drop_key(a, k);
    let b = drop_key(a, k);
    if has_key(a, k) {
        let i = key_index(a, k);
        assert forall|p: int| 0 <= p < b.len() implies (#[trigger] b[p]).1.no_duplicates() by {
            if p < i {
                assert(b[p] == a[p]);
            } else {
                assert(b[p] == a[p + 1]);
            }
        }
    }
}

proof fn lemma_members_ok(a: Seq<(Seq<char>, Seq<Seq<char>>)>, k: Seq<char>)
    requires
        adj_ok(a),
    ensures
        members(a, k).no_duplicates(),
{
    if has_key(a, k) {
        let i = key_index(a, k);
        assert(0 <= i < a.len() && a[i].0 == k);
        assert(a[i].1.no_duplicates());
    }
}

proof fn lemma_add_member(a: Seq<(Seq<char>, Seq<Seq<char>>)>, k: Seq<char>, v: Seq<char>)
    requires
        adj_ok(a),
    ensures
        adj_ok(add_member(a, k, v)),
        members(add_member(a, k, v), k).contains(v),
        forall|x: Seq<char>| x != v ==> (members(add_member(a, k, v), k).contains(x) <==> members(a, k).contains(x)),
        forall|y: Seq<char>| y != k ==> members(#[trigger] add_member(a, k, v), y) == members(a, y),
{
    lemma_members_ok(a, k);
    lemma_with_member(members(a, k), v);
    lemma_adj_put(a, k, with_member(members(a, k), v));
    lemma_put(a, k, with_member(members(a, k), v));
}

proof fn lemma_remove_member(a: Seq<(Seq<char>, Seq<Seq<char>>)>, k: Seq<char>, v: Seq<char>)
    requires
        adj_ok(a),
    ensures
        adj_ok(remove_member(a, k, v)),
        !members(remove_member(a, k, v), k).contains(v),
        forall|x: Seq<char>| x != v ==> (members(remove_member(a, k, v), k).contains(x) <==> members(a, k).contains(x)),
        forall|y: Seq<char>| y != k ==> members(#[trigger] remove_member(a, k, v), y) == members(a, y),
{
    lemma_members_ok(a, k);
    lemma_without_member(members(a, k), v);
    if has_key(a, k) {
        lemma_adj_put(a, k, without_member(members(a, k), v));
        lemma_put(a, k, without_member(members(a, k), v));
    }
}

// ---------------------------------------------------------------------------------------
// Executable operations on adjacency lists.
// ---------------------------------------------------------------------------------------

/// The position of the entry of `k`.
fn find_key<V>(t: &Vec<(String, V)>, k: &str) -> (res: Option<usize>)
    ensures
        match res {
            Some(i) => i < t@.len() && t@[i as int].0@ == k@,
            None => forall|i: int| 0 <= i < t@.len() ==> (#[trigger] t@[i]).0@ != k@,
        },
{
    let mut i: usize = 0;
    while i < t.len()
        invariant
            i <= t.len(),
            forall|j: int| 0 <= j < i ==> (#[trigger] t@[j]).0@ != k@,
        decreases t.len() - i,
    {
        if str_eq(t[i].0.as_str(), k) {
            return Some(i);
        }
        i = i + 1;
    }
    None
}

/// Where `k` is a key of the adjacency list, its position.
fn adj_find(t: &Vec<(String, Vec<String>)>, k: &str) -> (res: Option<usize>)
    requires
        adj_ok(adj_view(t@)),
    ensures
        match res {
            Some(i) => has_key(adj_view(t@), k@) && i == key_index(adj_view(t@), k@) && i < t@.len(),
            None => !has_key(adj_view(t@), k@),
        },
{
    let r = find_key(t, k);
    proof {
        let a = adj_view(t@);
        match r {
            Some(i) => {
                assert(a[i as int].0 == k@);
                lemma_key_at(a, k@, i as int);
            },
            None => {
                if has_key(a, k@) {
                    let j = key_index(a, k@);
                    assert(t@[j].0@ == a[j].0);
                }
            },
        }
    }
    r
}

/// A copy of the notes kept under `k`.
fn adj_members(t: &Vec<(String, Vec<String>)>, k: &str) -> (res: Vec<String>)
    requires
        adj_ok(adj_view(t@)),
    ensures
        strings_view(res@) == members(adj_view(t@), k@),
{
    match adj_find(t, k) {
        Some(i) => copy_strings(&t[i].1),
        None => Vec::new(),
    }
}

/// `without_member` on a vector of strings.
fn strings_without(vs: &Vec<String>, v: &str) -> (res: Vec<String>)
    ensures
        strings_view(res@) == without_member(strings_view(vs@), v@),
{
    let ghost s = strings_view(vs@);
    let mut out: Vec<String> = Vec::new();
    let mut i: usize = 0;
    while i < vs.len()
        invariant
            i <= vs.len(),
            s == strings_view(vs@),
            strings_view(out@) == without_member(s.take(i as int), v@),
        decreases vs.len() - i,
    {
        assert(s.take(i + 1).drop_last() == s.take(i as int));
        assert(s.take(i + 1).last() == vs@[i as int]@);
        if !str_eq(vs[i].as_str(), v) {
            out.push(vs[i].clone());
            assert(strings_view(out@) =~= without_member(s.take(i + 1), v@));
        } else {
            assert(strings_view(out@) =~= without_member(s.take(i + 1), v@));
        }
        i = i + 1;
    }
    assert(s.take(vs.len() as int) == s);
    out
}

/// Puts `vs` under `k`.
fn adj_put(t: &mut Vec<(String, Vec<String>)>, k: &str, vs: Vec<String>)
    requires
        adj_ok(adj_view(old(t)@)),
        strings_view(vs@).no_duplicates(),
    ensures
        adj_view(final(t)@) == put(adj_view(old(t)@), k@, strings_view(vs@)),
        adj_ok(adj_view(final(t)@)),
{
    let ghost a = adj_view(t@);
    let ghost sv = strings_view(vs@);
    match adj_find(t, k) {
        Some(i) => {
            let key = t[i].0.clone();
            t.set(i, (key, vs));
            assert(adj_view(t@) =~= a.update(i as int, (k@, sv)));
        },
        None => {
            t.push((owned(k), vs));
            assert(adj_view(t@) =~= a.push((k@, sv)));
        },
    }
    proof {
        lemma_adj_put(a, k@, sv);
    }
}

/// Adds `v` among the notes of `k`.
fn adj_add(t: &mut Vec<(String, Vec<String>)>, k: &str, v: &str)
    requires
        adj_ok(adj_view(old(t)@)),
    ensures
        adj_view(final(t)@) == add_member(adj_view(old(t)@), k@, v@),
        adj_ok(adj_view(final(t)@)),
{
    let ghost a = adj_view(t@);
    let mut vs = adj_members(t, k);
    let vstr = owned(v);
    if !contains_string(&vs, &vstr) {
        vs.push(vstr);
        assert(strings_view(vs@) =~= members(a, k@).push(v@));
    }
    proof {
        lemma_members_ok(a, k@);
        lemma_with_member(members(a, k@), v@);
    }
    adj_put(t, k, vs);
}

/// Removes `v` from the notes of `k`, where `k` is a key.
fn adj_remove(t: &mut Vec<(String, Vec<String>)>, k: &str, v: &str)
    requires
        adj_ok(adj_view(old(t)@)),
    ensures
        adj_view(final(t)@) == remove_member(adj_view(old(t)@), k@, v@),
        adj_ok(adj_view(final(t)@)),
{
    let ghost a = adj_view(t@);
    match adj_find(t, k) {
        Some(i) => {
            let vs = strings_without(&t[i].1, v);
            proof {
                lemma_members_ok(a, k@);
                lemma_without_member(members(a, k@), v@);
            }
            adj_put(t, k, vs);
        },
        None => {},
    }
}

/// Takes the entry of `k` out, giving its notes back.
fn adj_take(t: &mut Vec<(String, Vec<String>)>, k: &str) -> (res: Option<Vec<String>>)
    requires
        adj_ok(adj_view(old(t)@)),
    ensures
        adj_view(final(t)@) == drop_key(adj_view(old(t)@), k@),
        adj_ok(adj_view(final(t)@)),
        match res {
            Some(vs) => has_key(adj_view(old(t)@), k@) && strings_view(vs@) == members(adj_view(old(t)@), k@),
            None => !has_key(adj_view(old(t)@), k@),
        },
{
    let ghost a = adj_view(t@);
    proof {
        lemma_adj_drop(a, k@);
    }
    match adj_find(t, k) {
        Some(i) => {
            let e = t.remove(i);
            assert(adj_view(t@) =~= a.remove(i as int));
            Some(e.1)
        },
        None => None,
    }
}

// ---------------------------------------------------------------------------------------
// Titles and typed edges.
// ---------------------------------------------------------------------------------------

pub open spec fn titles_view(t: Seq<(String, String)>) -> Seq<(Seq<char>, Seq<char>)> {
    t.map_values(|e: (String, String)| (e.0@, e.1@))
}

fn titles_find(t: &Vec<(String, String)>, k: &str) -> (res: Option<usize>)
    requires
        keys_distinct(titles_view(t@)),
    ensures
        match res {
            Some(i) => has_key(titles_view(t@), k@) && i == key_index(titles_view(t@), k@) && i < t@.len(),
            None => !has_key(titles_view(t@), k@),
        },
{
    let r = find_key(t, k);
    proof {
        let a = titles_view(t@);
        match r {
            Some(i) => {
                assert(a[i as int].0 == k@);
                lemma_key_at(a, k@, i as int);
            },
            None => {
                if has_key(a, k@) {
                    let j = key_index(a, k@);
                    assert(t@[j].0@ == a[j].0);
                }
            },
        }
    }
    r
}

pub open spec fn edges_view(es: Seq<GraphEdge>) -> Seq<EdgeView> {
    es.map_values(|e: GraphEdge| e@)
}

/// What identifies an edge: its ends and its type.
pub open spec fn edge_key(e: EdgeView) -> (Seq<char>, Seq<char>, GraphEdgeType) {
    (e.from, e.to, e.edge_type)
}

pub open spec fn edge_keys_distinct(es: Seq<EdgeView>) -> bool {
    forall|i: int, j: int|
        0 <= i < es.len() && 0 <= j < es.len() && i != j ==> edge_key(#[trigger] es[i]) != edge_key(#[trigger] es[j])
}

pub open spec fn has_edge(es: Seq<EdgeView>, key: (Seq<char>, Seq<char>, GraphEdgeType)) -> bool {
    exists|i: int| 0 <= i < es.len() && edge_key(#[trigger] es[i]) == key
}

pub open spec fn edge_index(es: Seq<EdgeView>, key: (Seq<char>, Seq<char>, GraphEdgeType)) -> int {
    choose|i: int| 0 <= i < es.len() && edge_key(#[trigger] es[i]) == key
}

/// `es` with `e`, in place of the edge with its key where there is one, else appended.
pub open spec fn put_edge(es: Seq<EdgeView>, e: EdgeView) -> Seq<EdgeView> {
    if has_edge(es, edge_key(e)) {
        es.update(edge_index(es, edge_key(e)), e)
    } else {
        es.push(e)
    }
}

/// The edges of `es` that `keep` holds of, in order.
pub open spec fn edges_where(es: Seq<EdgeView>, keep: spec_fn(EdgeView) -> bool) -> Seq<EdgeView>
    decreases es.len(),
{
    if es.len() == 0 {
        es
    } else {
        let rest = edges_where(es.drop_last(), keep);
        if keep(es.last()) {
            rest.push(es.last())
        } else {
            rest
        }
    }
}

pub open spec fn not_between(from: Seq<char>, to: Seq<char>) -> spec_fn(EdgeView) -> bool {
    |e: EdgeView| !(e.from == from && e.to == to)
}

pub open spec fn not_touching(id: Seq<char>) -> spec_fn(EdgeView) -> bool {
    |e: EdgeView| e.from != id && e.to != id
}

pub open spec fn renamed_end(x: Seq<char>, old_id: Seq<char>, new_id: Seq<char>) -> Seq<char> {
    if x == old_id {
        new_id
    } else {
        x
    }
}

pub open spec fn renamed_edge(e: EdgeView, old_id: Seq<char>, new_id: Seq<char>) -> EdgeView {
    EdgeView { from: renamed_end(e.from, old_id, new_id), to: renamed_end(e.to, old_id, new_id), ..e }
}

/// The edges with `old_id` renamed to `new_id` at both ends; where two edges come to share a
/// key, the later one is kept, at the place of the earlier.
pub open spec fn renamed_edges(es: Seq<EdgeView>, old_id: Seq<char>, new_id: Seq<char>) -> Seq<EdgeView>
    decreases es.len(),
{
    if es.len() == 0 {
        es
    } else {
        put_edge(renamed_edges(es.drop_last(), old_id, new_id), renamed_edge(es.last(), old_id, new_id))
    }
}

proof fn lemma_edge_at(es: Seq<EdgeView>, i: int)
    requires
        edge_keys_distinct(es),
        0 <= i < es.len(),
    ensures
        has_edge(es, edge_key(es[i])),
        edge_index(es, edge_key(es[i])) == i,
{
    assert(has_edge(es, edge_key(es[i])));
    let j = edge_index(es, edge_key(es[i]));
    assert(0 <= j < es.len() && edge_key(es[j]) == edge_key(es[i]));
}

proof fn lemma_put_edge(es: Seq<EdgeView>, e: EdgeView)
    requires
        edge_keys_distinct(es),
    ensures
        edge_keys_distinct(put_edge(es, e)),
        put_edge(es, e).contains(e),
        forall|f: EdgeView| #[trigger] es.contains(f) && edge_key(f) != edge_key(e) ==> put_edge(es, e).contains(f),
        forall|f: EdgeView| #[trigger] put_edge(es, e).contains(f) ==> f == e || es.contains(f),
{
    let b = put_edge(es, e);
    if has_edge(es, edge_key(e)) {
        let i = edge_index(es, edge_key(e));
        assert(0 <= i < es.len() && edge_key(es[i]) == edge_key(e));
        assert forall|p: int, q: int| 0 <= p < b.len() && 0 <= q < b.len() && p != q implies edge_key(#[trigger] b[p]) != edge_key(#[trigger] b[q]) by {
            if p != i {
                assert(b[p] == es[p]);
            }
            if q != i {
                assert(b[q] == es[q]);
            }
        }
        assert(b[i] == e);
        assert forall|f: EdgeView| #[trigger] es.contains(f) && edge_key(f) != edge_key(e) implies b.contains(f) by {
            let j = choose|j: int| 0 <= j < es.len() && es[j] == f;
            assert(b[j] == f);
        }
        assert forall|f: EdgeView| #[trigger] b.contains(f) implies f == e || es.contains(f) by {
            let j = choose|j: int| 0 <= j < b.len() && b[j] == f;
            if j != i {
                assert(es[j] == f);
            }
        }
    } else {
        assert forall|p: int, q: int| 0 <= p < b.len() && 0 <= q < b.len() && p != q implies edge_key(#[trigger] b[p]) != edge_key(#[trigger] b[q]) by {
            if p == es.len() {
                assert(b[q] == es[q]);
            } else if q == es.len() {
                assert(b[p] == es[p]);
            } else {
                assert(b[p] == es[p] && b[q] == es[q]);
            }
        }
        lemma_push_contains(es, e, e);
        assert forall|f: EdgeView| #[trigger] es.contains(f) && edge_key(f) != edge_key(e) implies b.contains(f) by {
            lemma_push_contains(es, e, f);
        }
        assert forall|f: EdgeView| #[trigger] b.contains(f) implies f == e || es.contains(f) by {
            lemma_push_contains(es, e, f);
        }
    }
}

proof fn lemma_edges_where(es: Seq<EdgeView>, keep: spec_fn(EdgeView) -> bool)
    requires
        edge_keys_distinct(es),
    ensures
        edge_keys_distinct(edges_where(es, keep)),
        forall|f: EdgeView| #[trigger] edges_where(es, keep).contains(f) <==> (es.contains(f) && keep(f)),
    decreases es.len(),
{
    if es.len() > 0 {
        let d = es.drop_last();
        assert(edge_keys_distinct(d)) by {
            assert forall|p: int, q: int| 0 <= p < d.len() && 0 <= q < d.len() && p != q implies edge_key(#[trigger] d[p]) != edge_key(#[trigger] d[q]) by {
                assert(d[p] == es[p] && d[q] == es[q]);
            }
        }
        lemma_edges_where(d, keep);
        let r = edges_where(d, keep);
        assert forall|f: EdgeView| #[trigger] edges_where(es, keep).contains(f) <==> (es.contains(f) && keep(f)) by {
            lemma_last_contains(es, f);
            lemma_push_contains(r, es.last(), f);
        }
        if keep(es.last()) {
            let w = r.push(es.last());
            assert forall|p: int, q: int| 0 <= p < w.len() && 0 <= q < w.len() && p != q implies edge_key(#[trigger] w[p]) != edge_key(#[trigger] w[q]) by {
                if p == r.len() {
                    assert(r.contains(w[q]));
                    let m = choose|m: int| 0 <= m < d.len() && d[m] == w[q];
                    assert(es[m] == d[m]);
                    assert(es[es.len() - 1] == w[p]);
                } else if q == r.len() {
                    assert(r.contains(w[p]));
                    let m = choose|m: int| 0 <= m < d.len() && d[m] == w[p];
                    assert(es[m] == d[m]);
                    assert(es[es.len() - 1] == w[q]);
                } else {
                    assert(w[p] == r[p] && w[q] == r[q]);
                }
            }
        }
    }
}

proof fn lemma_renamed_edges(es: Seq<EdgeView>, old_id: Seq<char>, new_id: Seq<char>)
    ensures
        edge_keys_distinct(renamed_edges(es, old_id, new_id)),
    decreases es.len(),
{
    if es.len() > 0 {
        lemma_renamed_edges(es.drop_last(), old_id, new_id);
        lemma_put_edge(renamed_edges(es.drop_last(), old_id, new_id), renamed_edge(es.last(), old_id, new_id));
    }
}

fn find_edge(es: &Vec<GraphEdge>, from: &str, to: &str, edge_type: GraphEdgeType) -> (res: Option<usize>)
    requires
        edge_keys_distinct(edges_view(es@)),
    ensures
        match res {
            Some(i) => has_edge(edges_view(es@), (from@, to@, edge_type)) && i == edge_index(edges_view(es@), (from@, to@, edge_type))
                && i < es@.len(),
            None => !has_edge(edges_view(es@), (from@, to@, edge_type)),
        },
{
    let ghost v = edges_view(es@);
    let mut i: usize = 0;
    while i < es.len()
        invariant
            i <= es.len(),
            v == edges_view(es@),
            edge_keys_distinct(v),
            forall|j: int| 0 <= j < i ==> edge_key(#[trigger] v[j]) != (from@, to@, edge_type),
        decreases es.len() - i,
    {
        if es[i].edge_type == edge_type && str_eq(es[i].from.as_str(), from) && str_eq(es[i].to.as_str(), to) {
            proof {
                assert(edge_key(v[i as int]) == (from@, to@, edge_type));
                lemma_edge_at(v, i as int);
            }
            return Some(i);
        }
        assert(edge_key(v[i as int]) != (from@, to@, edge_type));
        i = i + 1;
    }
    None
}

fn edges_put(es: &mut Vec<GraphEdge>, e: GraphEdge)
    requires
        edge_keys_distinct(edges_view(old(es)@)),
    ensures
        edges_view(final(es)@) == put_edge(edges_view(old(es)@), e@),
        edge_keys_distinct(edges_view(final(es)@)),
{
    let ghost v = edges_view(es@);
    proof {
        lemma_put_edge(v, e@);
    }
    match find_edge(es, e.from.as_str(), e.to.as_str(), e.edge_type) {
        Some(i) => {
            let ghost ev = e@;
            es.set(i, e);
            assert(edges_view(es@) =~= v.update(i as int, ev));
        },
        None => {
            let ghost ev = e@;
            es.push(e);
            assert(edges_view(es@) =~= v.push(ev));
        },
    }
}

/// The edges other than those from `from` to `to`.
fn edges_without_link(es: &Vec<GraphEdge>, from: &str, to: &str) -> (res: Vec<GraphEdge>)
    ensures
        edges_view(res@) == edges_where(edges_view(es@), not_between(from@, to@)),
{
    let ghost v = edges_view(es@);
    let mut out: Vec<GraphEdge> = Vec::new();
    let mut i: usize = 0;
    while i < es.len()
        invariant
            i <= es.len(),
            v == edges_view(es@),
            edges_view(out@) == edges_where(v.take(i as int), not_between(from@, to@)),
        decreases es.len() - i,
    {
        assert(v.take(i + 1).drop_last() == v.take(i as int));
        assert(v.take(i + 1).last() == es@[i as int]@);
        let between = str_eq(es[i].from.as_str(), from) && str_eq(es[i].to.as_str(), to);
        if !between {
            let c = es[i].copied();
            out.push(c);
        }
        assert(edges_view(out@) =~= edges_where(v.take(i + 1), not_between(from@, to@)));
        i = i + 1;
    }
    assert(v.take(es.len() as int) == v);
    out
}

/// The edges with neither end at `id`.
fn edges_without_node(es: &Vec<GraphEdge>, id: &str) -> (res: Vec<GraphEdge>)
    ensures
        edges_view(res@) == edges_where(edges_view(es@), not_touching(id@)),
{
    let ghost v = edges_view(es@);
    let mut out: Vec<GraphEdge> = Vec::new();
    let mut i: usize = 0;
    while i < es.len()
        invariant
            i <= es.len(),
            v == edges_view(es@),
            edges_view(out@) == edges_where(v.take(i as int), not_touching(id@)),
        decreases es.len() - i,
    {
        assert(v.take(i + 1).drop_last() == v.take(i as int));
        assert(v.take(i + 1).last() == es@[i as int]@);
        let touches = str_eq(es[i].from.as_str(), id) || str_eq(es[i].to.as_str(), id);
        if !touches {
            let c = es[i].copied();
            out.push(c);
        }
        assert(edges_view(out@) =~= edges_where(v.take(i + 1), not_touching(id@)));
        i = i + 1;
    }
    assert(v.take(es.len() as int) == v);
    out
}

/// The edges with `old_id` renamed to `new_id`.
fn edges_renamed(es: &Vec<GraphEdge>, old_id: &str, new_id: &str) -> (res: Vec<GraphEdge>)
    ensures
        edges_view(res@) == renamed_edges(edges_view(es@), old_id@, new_id@),
        edge_keys_distinct(edges_view(res@)),
{
    let ghost v = edges_view(es@);
    let mut out: Vec<GraphEdge> = Vec::new();
    let mut i: usize = 0;
    while i < es.len()
        invariant
            i <= es.len(),
            v == edges_view(es@),
            edges_view(out@) == renamed_edges(v.take(i as int), old_id@, new_id@),
            edge_keys_distinct(edges_view(out@)),
        decreases es.len() - i,
    {
        assert(v.take(i + 1).drop_last() == v.take(i as int));
        assert(v.take(i + 1).last() == es@[i as int]@);
        let mut c = es[i].copied();
        if str_eq(c.from.as_str(), old_id) {
            c.from = owned(new_id);
        }
        if str_eq(c.to.as_str(), old_id) {
            c.to = owned(new_id);
        }
        assert(c@ == renamed_edge(v[i as int], old_id@, new_id@));
        edges_put(&mut out, c);
        i = i + 1;
    }
    assert(v.take(es.len() as int) == v);
    out
}

proof fn lemma_strip_member(a: Seq<(Seq<char>, Seq<Seq<char>>)>, ks: Seq<Seq<char>>, v: Seq<char>)
    requires
        adj_ok(a),
    ensures
        adj_ok(strip_member(a, ks, v)),
        forall|k: Seq<char>| has_key(#[trigger] strip_member(a, ks, v), k) <==> has_key(a, k),
        forall|k: Seq<char>|
            members(#[trigger] strip_member(a, ks, v), k) == (if ks.contains(k) {
                without_member(members(a, k), v)
            } else {
                members(a, k)
            }),
{
    let b = strip_member(a, ks, v);
    assert forall|i: int| 0 <= i < b.len() implies #[trigger] b[i].0 == a[i].0 by {}
    assert forall|p: int, q: int| 0 <= p < b.len() && 0 <= q < b.len() && p != q implies #[trigger] b[p].0 != #[trigger] b[q].0 by {
        assert(b[p].0 == a[p].0 && b[q].0 == a[q].0);
    }
    assert forall|i: int| 0 <= i < b.len() implies (#[trigger] b[i]).1.no_duplicates() by {
        assert(a[i].1.no_duplicates());
        lemma_without_member(a[i].1, v);
    }
    assert forall|k: Seq<char>| has_key(#[trigger] strip_member(a, ks, v), k) <==> has_key(a, k) by {
        if has_key(a, k) {
            let j = key_index(a, k);
            assert(b[j].0 == k);
        }
        if has_key(b, k) {
            let j = key_index(b, k);
            assert(a[j].0 == k);
        }
    }
    assert forall|k: Seq<char>|
        members(#[trigger] strip_member(a, ks, v), k) == (if ks.contains(k) {
            without_member(members(a, k), v)
        } else {
            members(a, k)
        }) by {
        if has_key(a, k) {
            let j = key_index(a, k);
            assert(0 <= j < a.len() && a[j].0 == k);
            assert(b[j].0 == k);
            lemma_key_at(b, k, j);
        }
    }
}

/// Removes `v` from the notes of every key in `ks`.
fn adj_strip(t: &mut Vec<(String, Vec<String>)>, ks: &Vec<String>, v: &str)
    requires
        adj_ok(adj_view(old(t)@)),
    ensures
        adj_view(final(t)@) == strip_member(adj_view(old(t)@), strings_view(ks@), v@),
        adj_ok(adj_view(final(t)@)),
{
    let ghost a = adj_view(t@);
    let ghost kv = strings_view(ks@);
    let mut out: Vec<(String, Vec<String>)> = Vec::new();
    let mut i: usize = 0;
    while i < t.len()
        invariant
            i <= t.len(),
            a == adj_view(t@),
            kv == strings_view(ks@),
            adj_view(out@) == strip_member(a, kv, v@).take(i as int),
        decreases t.len() - i,
    {
        let key = t[i].0.clone();
        let ghost e = a[i as int];
        assert(e == (t@[i as int].0@, strings_view(t@[i as int].1@)));
        let ghost before = adj_view(out@);
        if contains_string(ks, &key) {
            let vs = strings_without(&t[i].1, v);
            out.push((key, vs));
            assert(strip_member(a, kv, v@)[i as int] == (e.0, without_member(e.1, v@)));
        } else {
            let vs = copy_strings(&t[i].1);
            out.push((key, vs));
            assert(strip_member(a, kv, v@)[i as int] == e);
        }
        assert(adj_view(out@) =~= before.push(strip_member(a, kv, v@)[i as int]));
        assert(adj_view(out@) =~= strip_member(a, kv, v@).take(i + 1));
        i = i + 1;
    }
    assert(strip_member(a, kv, v@).take(t.len() as int) =~= strip_member(a, kv, v@));
    *t = out;
    proof {
        lemma_strip_member(a, kv, v@);
    }
}

proof fn lemma_add_member_to_all(a: Seq<(Seq<char>, Seq<Seq<char>>)>, ks: Seq<Seq<char>>, v: Seq<char>)
    requires
        adj_ok(a),
    ensures
        adj_ok(add_member_to_all(a, ks, v)),
        forall|k: Seq<char>, x: Seq<char>| #[trigger] members(a, k).contains(x) ==> members(add_member_to_all(a, ks, v), k).contains(x),
        forall|k: Seq<char>| #[trigger] ks.contains(k) ==> members(add_member_to_all(a, ks, v), k).contains(v),
    decreases ks.len(),
{
    if ks.len() > 0 {
        let d = ks.drop_last();
        lemma_add_member_to_all(a, d, v);
        let r = add_member_to_all(a, d, v);
        lemma_add_member(r, ks.last(), v);
        assert forall|k: Seq<char>, x: Seq<char>| #[trigger] members(a, k).contains(x) implies members(add_member_to_all(a, ks, v), k).contains(x) by {
            assert(members(r, k).contains(x));
            if k == ks.last() {
                if x != v {
                }
            }
        }
        assert forall|k: Seq<char>| #[trigger] ks.contains(k) implies members(add_member_to_all(a, ks, v), k).contains(v) by {
            lemma_last_contains(ks, k);
            if k != ks.last() {
                assert(members(r, k).contains(v));
            }
        }
    }
}

/// Adds `v` among the notes of every key in `ks`, in order.
fn adj_add_all(t: &mut Vec<(String, Vec<String>)>, ks: &Vec<String>, v: &str)
    requires
        adj_ok(adj_view(old(t)@)),
    ensures
        adj_view(final(t)@) == add_member_to_all(adj_view(old(t)@), strings_view(ks@), v@),
        adj_ok(adj_view(final(t)@)),
{
    let ghost a = adj_view(t@);
    let ghost kv = strings_view(ks@);
    let mut i: usize = 0;
    while i < ks.len()
        invariant
            i <= ks.len(),
            kv == strings_view(ks@),
            adj_view(t@) == add_member_to_all(a, kv.take(i as int), v@),
            adj_ok(adj_view(t@)),
        decreases ks.len() - i,
    {
        assert(kv.take(i + 1).drop_last() == kv.take(i as int));
        assert(kv.take(i + 1).last() == ks@[i as int]@);
        adj_add(t, ks[i].as_str(), v);
        i = i + 1;
    }
    assert(kv.take(ks.len() as int) == kv);
}

fn titles_take(t: &mut Vec<(String, String)>, k: &str) -> (res: Option<String>)
    requires
        keys_distinct(titles_view(old(t)@)),
    ensures
        titles_view(final(t)@) == drop_key(titles_view(old(t)@), k@),
        keys_distinct(titles_view(final(t)@)),
        optional_text(res) == lookup(titles_view(old(t)@), k@),
{
    let ghost a = titles_view(t@);
    proof {
        lemma_drop_key(a, k@);
    }
    match titles_find(t, k) {
        Some(i) => {
            let e = t.remove(i);
            assert(titles_view(t@) =~= a.remove(i as int));
            Some(e.1)
        },
        None => None,
    }
}

fn titles_put(t: &mut Vec<(String, String)>, k: &str, v: String)
    requires
        keys_distinct(titles_view(old(t)@)),
    ensures
        titles_view(final(t)@) == put(titles_view(old(t)@), k@, v@),
        keys_distinct(titles_view(final(t)@)),
{
    let ghost a = titles_view(t@);
    let ghost vv = v@;
    proof {
        lemma_put(a, k@, v@);
    }
    match titles_find(t, k) {
        Some(i) => {
            let key = t[i].0.clone();
            t.set(i, (key, v));
            assert(titles_view(t@) =~= a.update(i as int, (k@, vv)));
        },
        None => {
            t.push((owned(k), v));
            assert(titles_view(t@) =~= a.push((k@, vv)));
        },
    }
}

/// The links of `out` and their mirror `inl` with each link `(from, to)` of `links` added in
/// turn: `to` among the links of `from`, and `from` among the backlinks of `to`.
pub open spec fn add_links(
    out: Seq<(Seq<char>, Seq<Seq<char>>)>,
    inl: Seq<(Seq<char>, Seq<Seq<char>>)>,
    links: Seq<(Seq<char>, Seq<char>)>,
) -> (Seq<(Seq<char>, Seq<Seq<char>>)>, Seq<(Seq<char>, Seq<Seq<char>>)>)
    decreases links.len(),
{
    if links.len() == 0 {
        (out, inl)
    } else {
        let p = add_links(out, inl, links.drop_last());
        let l = links.last();
        (add_member(p.0, l.0, l.1), add_member(p.1, l.1, l.0))
    }
}

/// The links of a renamed note under its new name: from the new name to each note the old one
/// linked to, then from each note left linking to the old one (once the old name has left the
/// backlinks of its own targets) to the new name. A link of the note to itself becomes one of
/// the new name to itself.
pub open spec fn relinked(
    out0: Seq<(Seq<char>, Seq<Seq<char>>)>,
    in0: Seq<(Seq<char>, Seq<Seq<char>>)>,
    old_id: Seq<char>,
    new_id: Seq<char>,
) -> Seq<(Seq<char>, Seq<char>)> {
    let ts = members(out0, old_id);
    let ss = members(strip_member(in0, ts, old_id), old_id);
    ts.map_values(|t: Seq<char>| (new_id, renamed_end(t, old_id, new_id))) + ss.map_values(
        |s: Seq<char>| (renamed_end(s, old_id, new_id), new_id),
    )
}

/// The links and backlinks after a rename: the old note is taken out of every list, as a
/// removal does, and its links are recorded again under the new name.
pub open spec fn renamed_links(
    out0: Seq<(Seq<char>, Seq<Seq<char>>)>,
    in0: Seq<(Seq<char>, Seq<Seq<char>>)>,
    old_id: Seq<char>,
    new_id: Seq<char>,
) -> (Seq<(Seq<char>, Seq<Seq<char>>)>, Seq<(Seq<char>, Seq<Seq<char>>)>) {
    add_links(
        out_after_removal(out0, in0, old_id),
        in_after_removal(out0, in0, old_id),
        relinked(out0, in0, old_id, new_id),
    )
}

proof fn lemma_add_links(
    out: Seq<(Seq<char>, Seq<Seq<char>>)>,
    inl: Seq<(Seq<char>, Seq<Seq<char>>)>,
    links: Seq<(Seq<char>, Seq<char>)>,
)
    requires
        adj_ok(out),
        adj_ok(inl),
    ensures
        adj_ok(add_links(out, inl, links).0),
        adj_ok(add_links(out, inl, links).1),
        forall|x: Seq<char>, y: Seq<char>|
            #[trigger] members(add_links(out, inl, links).0, x).contains(y) <==> (members(out, x).contains(y)
                || links.contains((x, y))),
        forall|x: Seq<char>, y: Seq<char>|
            #[trigger] members(add_links(out, inl, links).1, y).contains(x) <==> (members(inl, y).contains(x)
                || links.contains((x, y))),
        forall|k: Seq<char>|
            #[trigger] has_key(add_links(out, inl, links).0, k) ==> has_key(out, k) || exists|i: int|
                0 <= i < links.len() && (#[trigger] links[i]).0 == k,
        forall|k: Seq<char>|
            #[trigger] has_key(add_links(out, inl, links).1, k) ==> has_key(inl, k) || exists|i: int|
                0 <= i < links.len() && (#[trigger] links[i]).1 == k,
    decreases links.len(),
{
    if links.len() > 0 {
        let rest = links.drop_last();
        lemma_add_links(out, inl, rest);
        let p = add_links(out, inl, rest);
        let l = links.last();
        lemma_add_member(p.0, l.0, l.1);
        lemma_add_member(p.1, l.1, l.0);
        lemma_put(p.0, l.0, with_member(members(p.0, l.0), l.1));
        lemma_put(p.1, l.1, with_member(members(p.1, l.1), l.0));
        let r = add_links(out, inl, links);
        assert(r.0 == add_member(p.0, l.0, l.1));
        assert(r.1 == add_member(p.1, l.1, l.0));
        assert forall|z: (Seq<char>, Seq<char>)| links.contains(z) <==> (rest.contains(z) || z == l) by {
            if links.contains(z) {
                let i = choose|i: int| 0 <= i < links.len() && links[i] == z;
                if i < links.len() - 1 {
                    assert(rest[i] == z);
                }
            }
            if rest.contains(z) {
                let i = choose|i: int| 0 <= i < rest.len() && rest[i] == z;
                assert(links[i] == z);
            }
            if z == l {
                assert(links[links.len() - 1] == z);
            }
        }
        assert forall|x: Seq<char>, y: Seq<char>|
            #[trigger] members(r.0, x).contains(y) <==> (members(out, x).contains(y) || links.contains((x, y))) by {
            assert(members(p.0, x).contains(y) <==> (members(out, x).contains(y) || rest.contains((x, y))));
            if x == l.0 {
                if y != l.1 {
                    assert(members(r.0, x).contains(y) <==> members(p.0, x).contains(y));
                }
            } else {
                assert(members(r.0, x) == members(p.0, x));
            }
        }
        assert forall|x: Seq<char>, y: Seq<char>|
            #[trigger] members(r.1, y).contains(x) <==> (members(inl, y).contains(x) || links.contains((x, y))) by {
            assert(members(p.1, y).contains(x) <==> (members(inl, y).contains(x) || rest.contains((x, y))));
            if y == l.1 {
                if x != l.0 {
                    assert(members(r.1, y).contains(x) <==> members(p.1, y).contains(x));
                }
            } else {
                assert(members(r.1, y) == members(p.1, y));
            }
        }
        assert forall|k: Seq<char>|
            #[trigger] has_key(r.0, k) implies has_key(out, k) || exists|i: int|
                0 <= i < links.len() && (#[trigger] links[i]).0 == k by {
            if k == l.0 {
                assert(links[links.len() - 1].0 == k);
            } else {
                assert(has_key(p.0, k));
                if !has_key(out, k) {
                    let i = choose|i: int| 0 <= i < rest.len() && (#[trigger] rest[i]).0 == k;
                    assert(links[i].0 == k);
                }
            }
        }
        assert forall|k: Seq<char>|
            #[trigger] has_key(r.1, k) implies has_key(inl, k) || exists|i: int|
                0 <= i < links.len() && (#[trigger] links[i]).1 == k by {
            if k == l.1 {
                assert(links[links.len() - 1].1 == k);
            } else {
                assert(has_key(p.1, k));
                if !has_key(inl, k) {
                    let i = choose|i: int| 0 <= i < rest.len() && (#[trigger] rest[i]).1 == k;
                    assert(links[i].1 == k);
                }
            }
        }
    }
}

// ---------------------------------------------------------------------------------------
// Node ids and titles.
// ---------------------------------------------------------------------------------------

/// The notes of `s` in order of first occurrence, each once.
pub open spec fn first_occurrences(s: Seq<Seq<char>>) -> Seq<Seq<char>>
    decreases s.len(),
{
    if s.len() == 0 {
        s
    } else {
        with_member(first_occurrences(s.drop_last()), s.last())
    }
}

/// All the notes kept as values, entry by entry.
pub open spec fn all_members(a: Seq<(Seq<char>, Seq<Seq<char>>)>) -> Seq<Seq<char>>
    decreases a.len(),
{
    if a.len() == 0 {
        Seq::empty()
    } else {
        all_members(a.drop_last()) + a.last().1
    }
}

/// Where the segment after the last `/` before index `j` starts.
pub open spec fn segment_start(s: Seq<char>, j: int) -> int
    decreases j,
{
    if j <= 0 {
        0
    } else if s[j - 1] == '/' {
        j
    } else {
        segment_start(s, j - 1)
    }
}

/// `s` with every trailing `.md` taken off.
pub open spec fn trim_md(s: Seq<char>) -> Seq<char>
    decreases s.len(),
{
    if s.len() >= 3 && s.subrange(s.len() - 3, s.len() as int) == ".md"@ {
        trim_md(s.take(s.len() - 3))
    } else {
        s
    }
}

/// The name a note is shown by when it has no title: the last path segment without `.md`.
pub open spec fn file_stem(id: Seq<char>) -> Seq<char> {
    trim_md(id.skip(segment_start(id, id.len() as int)))
}

proof fn lemma_segment_start(s: Seq<char>, j: int)
    requires
        0 <= j <= s.len(),
    ensures
        0 <= segment_start(s, j) <= j,
    decreases j,
{
    if j > 0 && s[j - 1] != '/' {
        lemma_segment_start(s, j - 1);
    }
}

pub fn file_stem_of(id: &str) -> (res: String)
    ensures
        res@ == file_stem(id@),
{
    let cs = crate::text::chars_of(id);
    let mut j: usize = cs.len();
    while j > 0 && cs[j - 1] != '/'
        invariant
            j <= cs.len(),
            cs@ == id@,
            segment_start(id@, id@.len() as int) == segment_start(id@, j as int),
        decreases j,
    {
        j = j - 1;
    }
    proof {
        lemma_segment_start(id@, id@.len() as int);
    }
    let mut cur = crate::text::skip_chars(&cs, j);
    let md = crate::text::chars_of(".md");
    while crate::text::ends_with(&cur, &md)
        invariant
            md@ == ".md"@,
            trim_md(cur@) == file_stem(id@),
        decreases cur.len(),
    {
        proof {
            reveal_strlit(".md");
        }
        let k = cur.len() - 3;
        cur = crate::text::take_chars(&cur, k);
    }
    proof {
        reveal_strlit(".md");
    }
    crate::text::string_of(&cur)
}

/// Appends `x` unless it is there already.
fn push_new(out: &mut Vec<String>, x: &String)
    ensures
        strings_view(final(out)@) == with_member(strings_view(old(out)@), x@),
{
    if !contains_string(out, x) {
        out.push(x.clone());
        assert(strings_view(out@) =~= strings_view(old(out)@).push(x@));
    }
}

/// Appends the keys of `t`, each unless it is there already.
fn push_new_keys<V>(out: &mut Vec<String>, t: &Vec<(String, V)>, Ghost(prior): Ghost<Seq<Seq<char>>>, Ghost(ks): Ghost<Seq<Seq<char>>>)
    requires
        strings_view(old(out)@) == first_occurrences(prior),
        ks == t@.map_values(|e: (String, V)| e.0@),
    ensures
        strings_view(final(out)@) == first_occurrences(prior + ks),
{
    assert(prior + ks.take(0) == prior);
    let mut i: usize = 0;
    while i < t.len()
        invariant
            i <= t.len(),
            ks == t@.map_values(|e: (String, V)| e.0@),
            strings_view(out@) == first_occurrences(prior + ks.take(i as int)),
        decreases t.len() - i,
    {
        assert((prior + ks.take(i + 1)).drop_last() == prior + ks.take(i as int));
        assert((prior + ks.take(i + 1)).last() == t@[i as int].0@);
        push_new(out, &t[i].0);
        i = i + 1;
    }
    assert(ks.take(t.len() as int) == ks);
}

/// Appends the notes kept as values in `t`, each unless it is there already.
fn push_new_members(out: &mut Vec<String>, t: &Vec<(String, Vec<String>)>, Ghost(prior): Ghost<Seq<Seq<char>>>)
    requires
        strings_view(old(out)@) == first_occurrences(prior),
    ensures
        strings_view(final(out)@) == first_occurrences(prior + all_members(adj_view(t@))),
{
    let ghost a = adj_view(t@);
    assert(a.take(0) =~= Seq::<(Seq<char>, Seq<Seq<char>>)>::empty());
    assert(prior + all_members(a.take(0)) =~= prior);
    let mut i: usize = 0;
    while i < t.len()
        invariant
            i <= t.len(),
            a == adj_view(t@),
            strings_view(out@) == first_occurrences(prior + all_members(a.take(i as int))),
        decreases t.len() - i,
    {
        let ghost base = prior + all_members(a.take(i as int));
        let ghost vs = a[i as int].1;
        assert(vs == strings_view(t@[i as int].1@));
        assert(base + vs.take(0) == base);
        let mut j: usize = 0;
        while j < t[i].1.len()
            invariant
                i < t.len(),
                j <= t@[i as int].1.len(),
                vs == strings_view(t@[i as int].1@),
                strings_view(out@) == first_occurrences(base + vs.take(j as int)),
            decreases t@[i as int].1.len() - j,
        {
            assert((base + vs.take(j + 1)).drop_last() == base + vs.take(j as int));
            assert((base + vs.take(j + 1)).last() == t@[i as int].1@[j as int]@);
            push_new(out, &t[i].1[j]);
            j = j + 1;
        }
        assert(vs.take(vs.len() as int) == vs);
        assert(a.take(i + 1).drop_last() == a.take(i as int));
        assert(a.take(i + 1).last() == a[i as int]);
        assert(prior + all_members(a.take(i + 1)) =~= base + vs);
        i = i + 1;
    }
    assert(a.take(t.len() as int) == a);
}

/// The node of `id` as the frontend draws it.
pub open spec fn node_view(
    out_links: Seq<(Seq<char>, Seq<Seq<char>>)>,
    in_links: Seq<(Seq<char>, Seq<Seq<char>>)>,
    titles: Seq<(Seq<char>, Seq<char>)>,
    id: Seq<char>,
    hops: Option<usize>,
) -> NodeView {
    NodeView {
        id,
        title: match lookup(titles, id) {
            Some(t) => t,
            None => file_stem(id),
        },
        outgoing: members(out_links, id).len() as usize,
        incoming: members(in_links, id).len() as usize,
        hops,
    }
}

/// The backlinks after a note is removed: the note leaves the backlinks of the notes it
/// linked to, then its own entry goes.
pub open spec fn in_after_removal(
    out_links: Seq<(Seq<char>, Seq<Seq<char>>)>,
    in_links: Seq<(Seq<char>, Seq<Seq<char>>)>,
    id: Seq<char>,
) -> Seq<(Seq<char>, Seq<Seq<char>>)> {
    drop_key(strip_member(in_links, members(out_links, id), id), id)
}

/// The outgoing links after a note is removed: its own entry goes, and the note leaves the
/// links of the notes that were left linking to it.
pub open spec fn out_after_removal(
    out_links: Seq<(Seq<char>, Seq<Seq<char>>)>,
    in_links: Seq<(Seq<char>, Seq<Seq<char>>)>,
    id: Seq<char>,
) -> Seq<(Seq<char>, Seq<Seq<char>>)> {
    strip_member(drop_key(out_links, id), members(strip_member(in_links, members(out_links, id), id), id), id)
}

// ---------------------------------------------------------------------------------------
// The graph.
// ---------------------------------------------------------------------------------------

/// The bidirectional link graph of a vault.
pub struct LinkGraph {
    outgoing: Vec<(String, Vec<String>)>,
    incoming: Vec<(String, Vec<String>)>,
    edges: Vec<GraphEdge>,
    titles: Vec<(String, String)>,
}

/// The bit pattern of the 32-bit float 1.0, the confidence of a plain wikilink.
pub const FULL_CONFIDENCE_BITS: u32 = 0x3f80_0000u32;

impl LinkGraph {
    /// From each note, the notes it links to.
    pub closed spec fn out_links(&self) -> Seq<(Seq<char>, Seq<Seq<char>>)> {
        adj_view(self.outgoing@)
    }

    /// To each note, the notes that link to it.
    pub closed spec fn in_links(&self) -> Seq<(Seq<char>, Seq<Seq<char>>)> {
        adj_view(self.incoming@)
    }

    /// The typed edges, one per key.
    pub closed spec fn edge_list(&self) -> Seq<EdgeView> {
        edges_view(self.edges@)
    }

    /// The notes' titles.
    pub closed spec fn title_list(&self) -> Seq<(Seq<char>, Seq<char>)> {
        titles_view(self.titles@)
    }

    pub open spec fn well_formed(&self) -> bool {
        &&& adj_ok(self.out_links())
        &&& adj_ok(self.in_links())
        &&& edge_keys_distinct(self.edge_list())
        &&& keys_distinct(self.title_list())
    }

    /// Each link is recorded from both of its ends.
    pub open spec fn consistent(&self) -> bool {
        forall|s: Seq<char>, t: Seq<char>|
            #![trigger members(self.out_links(), s).contains(t)]
            #![trigger members(self.in_links(), t).contains(s)]
            members(self.out_links(), s).contains(t) <==> members(self.in_links(), t).contains(s)
    }

    pub fn new() -> (res: LinkGraph)
        ensures
            res.well_formed(),
            res.consistent(),
            res.out_links() == Seq::<(Seq<char>, Seq<Seq<char>>)>::empty(),
            res.in_links() == Seq::<(Seq<char>, Seq<Seq<char>>)>::empty(),
            res.edge_list() == Seq::<EdgeView>::empty(),
            res.title_list() == Seq::<(Seq<char>, Seq<char>)>::empty(),
    {
        let g = LinkGraph { outgoing: Vec::new(), incoming: Vec::new(), edges: Vec::new(), titles: Vec::new() };
        assert(g.out_links() =~= Seq::<(Seq<char>, Seq<Seq<char>>)>::empty());
        assert(g.in_links() =~= Seq::<(Seq<char>, Seq<Seq<char>>)>::empty());
        assert(g.edge_list() =~= Seq::<EdgeView>::empty());
        assert(g.title_list() =~= Seq::<(Seq<char>, Seq<char>)>::empty());
        g
    }

    /// A plain wikilink from `from` to `to`: a reference edge of full confidence.
    pub fn add_link(&mut self, from: &str, to: &str)
        requires
            old(self).well_formed(),
        ensures
            final(self).well_formed(),
            final(self).out_links() == add_member(old(self).out_links(), from@, to@),
            final(self).in_links() == add_member(old(self).in_links(), to@, from@),
            final(self).edge_list() == put_edge(
                old(self).edge_list(),
                EdgeView {
                    from: from@,
                    to: to@,
                    edge_type: GraphEdgeType::Reference,
                    origin: "wikilink"@,
                    confidence_bits: FULL_CONFIDENCE_BITS,
                    weight_bits: None,
                    memory_region: None,
                },
            ),
            final(self).title_list() == old(self).title_list(),
            old(self).consistent() ==> final(self).consistent(),
    {
        self.add_typed_link(from, to, GraphEdgeType::Reference, "wikilink", FULL_CONFIDENCE_BITS);
    }

    /// Records a link from `from` to `to` and its typed edge, which replaces one of the same
    /// ends and type.
    pub fn add_typed_link(&mut self, from: &str, to: &str, edge_type: GraphEdgeType, origin: &str, confidence_bits: u32)
        requires
            old(self).well_formed(),
        ensures
            final(self).well_formed(),
            final(self).out_links() == add_member(old(self).out_links(), from@, to@),
            final(self).in_links() == add_member(old(self).in_links(), to@, from@),
            final(self).edge_list() == put_edge(
                old(self).edge_list(),
                EdgeView {
                    from: from@,
                    to: to@,
                    edge_type,
                    origin: origin@,
                    confidence_bits,
                    weight_bits: None,
                    memory_region: None,
                },
            ),
            final(self).title_list() == old(self).title_list(),
            old(self).consistent() ==> final(self).consistent(),
    {
        let edge = GraphEdge {
            from: owned(from),
            to: owned(to),
            edge_type,
            origin: owned(origin),
            confidence_bits,
            weight_bits: None,
            memory_region: None,
        };
        self.add_graph_edge(edge);
    }

    /// Records the link of an edge and the edge itself, which replaces one of the same ends
    /// and type.
    pub fn add_graph_edge(&mut self, edge: GraphEdge)
        requires
            old(self).well_formed(),
        ensures
            final(self).well_formed(),
            final(self).out_links() == add_member(old(self).out_links(), edge.from@, edge.to@),
            final(self).in_links() == add_member(old(self).in_links(), edge.to@, edge.from@),
            final(self).edge_list() == put_edge(old(self).edge_list(), edge@),
            final(self).title_list() == old(self).title_list(),
            old(self).consistent() ==> final(self).consistent(),
    {
        let ghost g0 = *self;
        adj_add(&mut self.outgoing, edge.from.as_str(), edge.to.as_str());
        adj_add(&mut self.incoming, edge.to.as_str(), edge.from.as_str());
        edges_put(&mut self.edges, edge);
        proof {
            lemma_add_member(g0.out_links(), edge.from@, edge.to@);
            lemma_add_member(g0.in_links(), edge.to@, edge.from@);
            if g0.consistent() {
                let f = edge.from@;
                let t0 = edge.to@;
                assert forall|s: Seq<char>, t: Seq<char>|
                    members(self.out_links(), s).contains(t) <==> members(self.in_links(), t).contains(s) by {
                    assert(members(g0.out_links(), s).contains(t) <==> members(g0.in_links(), t).contains(s));
                }
            }
        }
    }

    /// Removes the link from `from` to `to` and its edges of every type; the notes stay.
    pub fn remove_link(&mut self, from: &str, to: &str)
        requires
            old(self).well_formed(),
        ensures
            final(self).well_formed(),
            final(self).out_links() == remove_member(old(self).out_links(), from@, to@),
            final(self).in_links() == remove_member(old(self).in_links(), to@, from@),
            final(self).edge_list() == edges_where(old(self).edge_list(), not_between(from@, to@)),
            final(self).title_list() == old(self).title_list(),
            old(self).consistent() ==> final(self).consistent(),
    {
        let ghost g0 = *self;
        adj_remove(&mut self.outgoing, from, to);
        adj_remove(&mut self.incoming, to, from);
        let es = edges_without_link(&self.edges, from, to);
        self.edges = es;
        proof {
            lemma_remove_member(g0.out_links(), from@, to@);
            lemma_remove_member(g0.in_links(), to@, from@);
            lemma_edges_where(g0.edge_list(), not_between(from@, to@));
            if g0.consistent() {
                assert forall|s: Seq<char>, t: Seq<char>|
                    members(self.out_links(), s).contains(t) <==> members(self.in_links(), t).contains(s) by {
                    assert(members(g0.out_links(), s).contains(t) <==> members(g0.in_links(), t).contains(s));
                }
            }
        }
    }

    /// The notes that link to `note_id`.
    pub fn get_backlinks(&self, note_id: &str) -> (res: Vec<String>)
        requires
            self.well_formed(),
        ensures
            strings_view(res@) == members(self.in_links(), note_id@),
            strings_view(res@).no_duplicates(),
    {
        proof {
            lemma_members_ok(self.in_links(), note_id@);
        }
        adj_members(&self.incoming, note_id)
    }

    /// The notes that `id` links to.
    pub fn outgoing_neighbors(&self, id: &str) -> (res: Vec<String>)
        requires
            self.well_formed(),
        ensures
            strings_view(res@) == members(self.out_links(), id@),
            strings_view(res@).no_duplicates(),
    {
        proof {
            lemma_members_ok(self.out_links(), id@);
        }
        adj_members(&self.outgoing, id)
    }

    /// How many notes `id` links to.
    pub fn outgoing_count(&self, id: &str) -> (res: usize)
        requires
            self.well_formed(),
        ensures
            res == members(self.out_links(), id@).len(),
    {
        match adj_find(&self.outgoing, id) {
            Some(i) => self.outgoing[i].1.len(),
            None => 0,
        }
    }

    /// How many notes link to `id`.
    pub fn incoming_count(&self, id: &str) -> (res: usize)
        requires
            self.well_formed(),
        ensures
            res == members(self.in_links(), id@).len(),
    {
        match adj_find(&self.incoming, id) {
            Some(i) => self.incoming[i].1.len(),
            None => 0,
        }
    }

    /// Links out of and into `id`.
    pub fn degree(&self, id: &str) -> (res: usize)
        requires
            self.well_formed(),
            members(self.out_links(), id@).len() + members(self.in_links(), id@).len() <= usize::MAX,
        ensures
            res == members(self.out_links(), id@).len() + members(self.in_links(), id@).len(),
    {
        self.outgoing_count(id) + self.incoming_count(id)
    }

    /// Sets the title of a note.
    pub fn set_title(&mut self, id: &str, title: &str)
        requires
            old(self).well_formed(),
        ensures
            final(self).well_formed(),
            final(self).title_list() == put(old(self).title_list(), id@, title@),
            final(self).out_links() == old(self).out_links(),
            final(self).in_links() == old(self).in_links(),
            final(self).edge_list() == old(self).edge_list(),
            old(self).consistent() ==> final(self).consistent(),
    {
        let ghost a = self.title_list();
        proof {
            lemma_put(a, id@, title@);
        }
        match titles_find(&self.titles, id) {
            Some(i) => {
                let key = self.titles[i].0.clone();
                self.titles.set(i, (key, owned(title)));
                assert(self.title_list() =~= a.update(i as int, (id@, title@)));
            },
            None => {
                self.titles.push((owned(id), owned(title)));
                assert(self.title_list() =~= a.push((id@, title@)));
            },
        }
    }

    /// Removes a note: its own entries, its title and every edge at it, and the note from the
    /// lists of the notes it links to and of the notes that link to it.
    pub fn remove_note(&mut self, id: &str)
        requires
            old(self).well_formed(),
        ensures
            final(self).well_formed(),
            final(self).out_links() == out_after_removal(old(self).out_links(), old(self).in_links(), id@),
            final(self).in_links() == in_after_removal(old(self).out_links(), old(self).in_links(), id@),
            final(self).edge_list() == edges_where(old(self).edge_list(), not_touching(id@)),
            final(self).title_list() == drop_key(old(self).title_list(), id@),
            old(self).consistent() ==> final(self).consistent(),
    {
        let ghost g0 = *self;
        let _ = self.unlink_note(id);
        let es = edges_without_node(&self.edges, id);
        self.edges = es;
        let _ = titles_take(&mut self.titles, id);
        proof {
            lemma_edges_where(g0.edge_list(), not_touching(id@));
        }
    }

    /// Takes a note out of the links and backlinks, as a removal does, and hands back the notes
    /// it linked to and the notes that were left linking to it.
    fn unlink_note(&mut self, id: &str) -> (res: (Vec<String>, Vec<String>))
        requires
            old(self).well_formed(),
        ensures
            final(self).well_formed(),
            final(self).out_links() == out_after_removal(old(self).out_links(), old(self).in_links(), id@),
            final(self).in_links() == in_after_removal(old(self).out_links(), old(self).in_links(), id@),
            strings_view(res.0@) == members(old(self).out_links(), id@),
            strings_view(res.1@) == members(
                strip_member(old(self).in_links(), members(old(self).out_links(), id@), id@),
                id@,
            ),
            final(self).edge_list() == old(self).edge_list(),
            final(self).title_list() == old(self).title_list(),
            old(self).consistent() ==> final(self).consistent(),
    {
        let ghost g0 = *self;
        let ghost targets = members(g0.out_links(), id@);
        let tv = match adj_take(&mut self.outgoing, id) {
            Some(vs) => vs,
            None => Vec::new(),
        };
        assert(strings_view(tv@) =~= targets);
        let ghost out1 = self.out_links();
        adj_strip(&mut self.incoming, &tv, id);
        let ghost in1 = self.in_links();
        let ghost sources = members(in1, id@);
        let sv = match adj_take(&mut self.incoming, id) {
            Some(vs) => vs,
            None => Vec::new(),
        };
        assert(strings_view(sv@) =~= sources);
        adj_strip(&mut self.outgoing, &sv, id);
        proof {
            lemma_drop_key(g0.out_links(), id@);
            lemma_strip_member(g0.in_links(), targets, id@);
            lemma_drop_key(in1, id@);
            lemma_strip_member(out1, sources, id@);
            if g0.consistent() {
                assert forall|s: Seq<char>, t: Seq<char>|
                    members(self.out_links(), s).contains(t) <==> members(self.in_links(), t).contains(s) by {
                    lemma_without_member(members(g0.out_links(), s), id@);
                    lemma_without_member(members(g0.in_links(), t), id@);
                    lemma_without_member(members(g0.in_links(), id@), id@);
                    assert(members(g0.out_links(), s).contains(t) <==> members(g0.in_links(), t).contains(s));
                    assert(members(g0.out_links(), s).contains(id@) <==> members(g0.in_links(), id@).contains(s));
                    assert(members(g0.out_links(), id@).contains(t) <==> members(g0.in_links(), t).contains(id@));
                    if s == id@ {
                        assert(!members(self.out_links(), s).contains(t));
                    }
                    if t == id@ {
                        assert(!members(self.in_links(), t).contains(s));
                    }
                }
            }
        }
        (tv, sv)
    }

    /// Records the link from `from` to `to` on both sides, leaving the edges as they are.
    fn link_pair(&mut self, from: &str, to: &str)
        requires
            old(self).well_formed(),
        ensures
            final(self).well_formed(),
            final(self).out_links() == add_member(old(self).out_links(), from@, to@),
            final(self).in_links() == add_member(old(self).in_links(), to@, from@),
            final(self).edge_list() == old(self).edge_list(),
            final(self).title_list() == old(self).title_list(),
            old(self).consistent() ==> final(self).consistent(),
    {
        let ghost g0 = *self;
        adj_add(&mut self.outgoing, from, to);
        adj_add(&mut self.incoming, to, from);
        proof {
            lemma_add_member(g0.out_links(), from@, to@);
            lemma_add_member(g0.in_links(), to@, from@);
            if g0.consistent() {
                assert forall|s: Seq<char>, t: Seq<char>|
                    members(self.out_links(), s).contains(t) <==> members(self.in_links(), t).contains(s) by {
                    assert(members(g0.out_links(), s).contains(t) <==> members(g0.in_links(), t).contains(s));
                }
            }
        }
    }

    /// Renames a note and updates every reference to it: the old name leaves every list of
    /// links and backlinks, and the note's links are recorded again under the new name. Its
    /// title and its edges follow.
    pub fn rename_note(&mut self, old_id: &str, new_id: &str)
        requires
            old(self).well_formed(),
        ensures
            final(self).well_formed(),
            (final(self).out_links(), final(self).in_links()) == renamed_links(
                old(self).out_links(),
                old(self).in_links(),
                old_id@,
                new_id@,
            ),
            final(self).edge_list() == renamed_edges(old(self).edge_list(), old_id@, new_id@),
            final(self).title_list() == (match lookup(old(self).title_list(), old_id@) {
                Some(t) => put(drop_key(old(self).title_list(), old_id@), new_id@, t),
                None => old(self).title_list(),
            }),
            old(self).consistent() ==> final(self).consistent(),
    {
        let ghost g0 = *self;
        let ghost links = relinked(g0.out_links(), g0.in_links(), old_id@, new_id@);
        let (targets, sources) = self.unlink_note(old_id);
        let ghost ts = strings_view(targets@);
        let ghost ss = strings_view(sources@);
        let ghost tl = ts.map_values(|t: Seq<char>| (new_id@, renamed_end(t, old_id@, new_id@)));
        let ghost sl = ss.map_values(|s: Seq<char>| (renamed_end(s, old_id@, new_id@), new_id@));
        assert(links == tl + sl);
        let ghost out_r = self.out_links();
        let ghost in_r = self.in_links();
        assert(add_links(out_r, in_r, links.take(0)) == (out_r, in_r));
        let mut i: usize = 0;
        while i < targets.len()
            invariant
                self.well_formed(),
                i <= targets.len(),
                ts == strings_view(targets@),
                links == tl + sl,
                tl.len() == targets.len(),
                forall|k: int| 0 <= k < tl.len() ==> #[trigger] tl[k] == (new_id@, renamed_end(ts[k], old_id@, new_id@)),
                (self.out_links(), self.in_links()) == add_links(out_r, in_r, links.take(i as int)),
                self.edge_list() == g0.edge_list(),
                self.title_list() == g0.title_list(),
                g0.consistent() ==> self.consistent(),
            decreases targets.len() - i,
        {
            let t = targets[i].as_str();
            let to = if str_eq(t, old_id) { new_id } else { t };
            self.link_pair(new_id, to);
            assert(links.take(i + 1).drop_last() =~= links.take(i as int));
            assert(links.take(i + 1).last() == tl[i as int]);
            i = i + 1;
        }
        let mut j: usize = 0;
        while j < sources.len()
            invariant
                self.well_formed(),
                j <= sources.len(),
                ss == strings_view(sources@),
                links == tl + sl,
                tl.len() == targets.len(),
                sl.len() == sources.len(),
                forall|k: int| 0 <= k < sl.len() ==> #[trigger] sl[k] == (renamed_end(ss[k], old_id@, new_id@), new_id@),
                (self.out_links(), self.in_links()) == add_links(out_r, in_r, links.take(tl.len() + j as int)),
                self.edge_list() == g0.edge_list(),
                self.title_list() == g0.title_list(),
                g0.consistent() ==> self.consistent(),
            decreases sources.len() - j,
        {
            let s = sources[j].as_str();
            let from = if str_eq(s, old_id) { new_id } else { s };
            self.link_pair(from, new_id);
            assert(links.take(tl.len() + j + 1).drop_last() =~= links.take(tl.len() + j as int));
            assert(links.take(tl.len() + j + 1).last() == sl[j as int]);
            j = j + 1;
        }
        assert(links.take((tl.len() + sl.len()) as int) =~= links);
        match titles_take(&mut self.titles, old_id) {
            Some(t) => titles_put(&mut self.titles, new_id, t),
            None => {},
        }
        let es = edges_renamed(&self.edges, old_id, new_id);
        self.edges = es;
    }

    /// The notes with an entry of outgoing links or of backlinks, each once.
    pub open spec fn entry_ids(&self) -> Seq<Seq<char>> {
        first_occurrences(keys_of(self.out_links()) + keys_of(self.in_links()))
    }

    /// Every note the graph knows: with links out, linked to, with backlinks or with a title.
    pub open spec fn node_ids(&self) -> Seq<Seq<char>> {
        first_occurrences(
            keys_of(self.out_links()) + all_members(self.out_links()) + keys_of(self.in_links()) + keys_of(
                self.title_list(),
            ),
        )
    }

    pub fn all_ids(&self) -> (res: Vec<String>)
        requires
            self.well_formed(),
        ensures
            strings_view(res@) == self.entry_ids(),
    {
        let mut out: Vec<String> = Vec::new();
        let ghost e = Seq::<Seq<char>>::empty();
        assert(strings_view(out@) =~= first_occurrences(e));
        let ghost ko = keys_of(self.out_links());
        let ghost ki = keys_of(self.in_links());
        assert(ko =~= self.outgoing@.map_values(|x: (String, Vec<String>)| x.0@));
        assert(ki =~= self.incoming@.map_values(|x: (String, Vec<String>)| x.0@));
        push_new_keys(&mut out, &self.outgoing, Ghost(e), Ghost(ko));
        assert(e + ko =~= ko);
        push_new_keys(&mut out, &self.incoming, Ghost(ko), Ghost(ki));
        out
    }

    /// The nodes and edges for the frontend: each known note once, in the order of
    /// `node_ids`, with its title (or file stem), its link counts and no distance.
    pub fn to_frontend_json(&self) -> (res: GraphData)
        requires
            self.well_formed(),
        ensures
            res.nodes@.map_values(|n: GraphNode| n@) == self.node_ids().map_values(
                |id: Seq<char>| node_view(self.out_links(), self.in_links(), self.title_list(), id, None),
            ),
            edges_view(res.edges@) == self.edge_list(),
    {
        let ids = self.known_ids();
        let mut nodes: Vec<GraphNode> = Vec::new();
        let mut i: usize = 0;
        while i < ids.len()
            invariant
                self.well_formed(),
                i <= ids.len(),
                strings_view(ids@) == self.node_ids(),
                nodes@.map_values(|n: GraphNode| n@) == strings_view(ids@).take(i as int).map_values(
                    |id: Seq<char>| node_view(self.out_links(), self.in_links(), self.title_list(), id, None),
                ),
            decreases ids.len() - i,
        {
            let n = self.node_for(ids[i].as_str(), None);
            let ghost before = nodes@.map_values(|n: GraphNode| n@);
            nodes.push(n);
            assert(nodes@.map_values(|n: GraphNode| n@) =~= before.push(n@));
            assert(strings_view(ids@).take(i + 1) =~= strings_view(ids@).take(i as int).push(ids@[i as int]@));
            assert(nodes@.map_values(|n: GraphNode| n@) =~= strings_view(ids@).take(i + 1).map_values(
                |id: Seq<char>| node_view(self.out_links(), self.in_links(), self.title_list(), id, None),
            ));
            i = i + 1;
        }
        assert(strings_view(ids@).take(ids.len() as int) =~= strings_view(ids@));
        GraphData { nodes, edges: self.edges_from_meta() }
    }

    fn known_ids(&self) -> (res: Vec<String>)
        requires
            self.well_formed(),
        ensures
            strings_view(res@) == self.node_ids(),
    {
        let mut out: Vec<String> = Vec::new();
        let ghost e = Seq::<Seq<char>>::empty();
        assert(strings_view(out@) =~= first_occurrences(e));
        let ghost ko = keys_of(self.out_links());
        let ghost mo = all_members(self.out_links());
        let ghost ki = keys_of(self.in_links());
        let ghost kt = keys_of(self.title_list());
        assert(ko =~= self.outgoing@.map_values(|x: (String, Vec<String>)| x.0@));
        assert(ki =~= self.incoming@.map_values(|x: (String, Vec<String>)| x.0@));
        assert(kt =~= self.titles@.map_values(|x: (String, String)| x.0@));
        push_new_keys(&mut out, &self.outgoing, Ghost(e), Ghost(ko));
        assert(e + ko =~= ko);
        push_new_members(&mut out, &self.outgoing, Ghost(ko));
        push_new_keys(&mut out, &self.incoming, Ghost(ko + mo), Ghost(ki));
        push_new_keys(&mut out, &self.titles, Ghost(ko + mo + ki), Ghost(kt));
        out
    }

    fn node_for(&self, id: &str, hops: Option<usize>) -> (res: GraphNode)
        requires
            self.well_formed(),
        ensures
            res@ == node_view(self.out_links(), self.in_links(), self.title_list(), id@, hops),
    {
        let title = match self.title_of(id) {
            Some(t) => t,
            None => file_stem_of(id),
        };
        GraphNode {
            id: owned(id),
            title,
            outgoing: self.outgoing_count(id),
            incoming: self.incoming_count(id),
            hops,
        }
    }

    /// A copy of the typed edges.
    fn edges_from_meta(&self) -> (res: Vec<GraphEdge>)
        ensures
            edges_view(res@) == self.edge_list(),
    {
        let mut out: Vec<GraphEdge> = Vec::new();
        let mut i: usize = 0;
        while i < self.edges.len()
            invariant
                i <= self.edges.len(),
                edges_view(out@) == edges_view(self.edges@).take(i as int),
            decreases self.edges.len() - i,
        {
            let c = self.edges[i].copied();
            let ghost before = edges_view(out@);
            out.push(c);
            assert(edges_view(out@) =~= before.push(c@));
            assert(edges_view(out@) =~= edges_view(self.edges@).take(i + 1));
            i = i + 1;
        }
        assert(edges_view(self.edges@).take(self.edges.len() as int) =~= edges_view(self.edges@));
        out
    }

    /// The title recorded for a note.
    pub fn title_of(&self, id: &str) -> (res: Option<String>)
        requires
            self.well_formed(),
        ensures
            optional_text(res) == lookup(self.title_list(), id@),
    {
        match titles_find(&self.titles, id) {
            Some(i) => Some(self.titles[i].1.clone()),
            None => None,
        }
    }
}

// ---------------------------------------------------------------------------------------
// Distances from a focused note.
// ---------------------------------------------------------------------------------------

/// Whether `y` is a neighbour of `x`: `x` links to it, or it links to `x`.
pub open spec fn linked(
    out_links: Seq<(Seq<char>, Seq<Seq<char>>)>,
    in_links: Seq<(Seq<char>, Seq<Seq<char>>)>,
    x: Seq<char>,
    y: Seq<char>,
) -> bool {
    members(out_links, x).contains(y) || members(in_links, x).contains(y)
}

/// A walk: notes each a neighbour of the one before.
pub open spec fn is_walk(
    out_links: Seq<(Seq<char>, Seq<Seq<char>>)>,
    in_links: Seq<(Seq<char>, Seq<Seq<char>>)>,
    w: Seq<Seq<char>>,
) -> bool {
    w.len() > 0 && forall|i: int| 0 <= i < w.len() - 1 ==> linked(out_links, in_links, #[trigger] w[i], w[i + 1])
}

/// Whether `y` can be reached from `from` in at most `n` steps between neighbours.
pub open spec fn within(
    out_links: Seq<(Seq<char>, Seq<Seq<char>>)>,
    in_links: Seq<(Seq<char>, Seq<Seq<char>>)>,
    from: Seq<char>,
    y: Seq<char>,
    n: nat,
) -> bool {
    exists|w: Seq<Seq<char>>|
        #[trigger] is_walk(out_links, in_links, w) && w[0] == from && w.last() == y && w.len() <= n + 1
}

/// Whether `d` is the least number of steps from `from` to `y`.
pub open spec fn is_distance(
    out_links: Seq<(Seq<char>, Seq<Seq<char>>)>,
    in_links: Seq<(Seq<char>, Seq<Seq<char>>)>,
    from: Seq<char>,
    y: Seq<char>,
    d: nat,
) -> bool {
    within(out_links, in_links, from, y, d) && (d == 0 || !within(out_links, in_links, from, y, (d - 1) as nat))
}

proof fn lemma_within_monotone(
    out_links: Seq<(Seq<char>, Seq<Seq<char>>)>,
    in_links: Seq<(Seq<char>, Seq<Seq<char>>)>,
    from: Seq<char>,
    y: Seq<char>,
    m: nat,
    n: nat,
)
    requires
        m <= n,
        within(out_links, in_links, from, y, m),
    ensures
        within(out_links, in_links, from, y, n),
{
    let w = choose|w: Seq<Seq<char>>|
        #[trigger] is_walk(out_links, in_links, w) && w[0] == from && w.last() == y && w.len() <= m + 1;
    assert(is_walk(out_links, in_links, w) && w[0] == from && w.last() == y && w.len() <= n + 1);
}

proof fn lemma_within_start(
    out_links: Seq<(Seq<char>, Seq<Seq<char>>)>,
    in_links: Seq<(Seq<char>, Seq<Seq<char>>)>,
    from: Seq<char>,
    y: Seq<char>,
)
    ensures
        within(out_links, in_links, from, y, 0) <==> from == y,
{
    if from == y {
        let w = seq![from];
        assert(is_walk(out_links, in_links, w) && w[0] == from && w.last() == y && w.len() <= 1);
    }
}

proof fn lemma_within_extend(
    out_links: Seq<(Seq<char>, Seq<Seq<char>>)>,
    in_links: Seq<(Seq<char>, Seq<Seq<char>>)>,
    from: Seq<char>,
    z: Seq<char>,
    y: Seq<char>,
    n: nat,
)
    requires
        within(out_links, in_links, from, z, n),
        linked(out_links, in_links, z, y),
    ensures
        within(out_links, in_links, from, y, n + 1),
{
    let w = choose|w: Seq<Seq<char>>|
        #[trigger] is_walk(out_links, in_links, w) && w[0] == from && w.last() == z && w.len() <= n + 1;
    let v = w.push(y);
    assert forall|i: int| 0 <= i < v.len() - 1 implies linked(out_links, in_links, #[trigger] v[i], v[i + 1]) by {
        if i < w.len() - 1 {
            assert(v[i] == w[i] && v[i + 1] == w[i + 1]);
        } else {
            assert(v[i] == z && v[i + 1] == y);
        }
    }
    assert(is_walk(out_links, in_links, v) && v[0] == from && v.last() == y && v.len() <= n + 2);
}

proof fn lemma_within_back(
    out_links: Seq<(Seq<char>, Seq<Seq<char>>)>,
    in_links: Seq<(Seq<char>, Seq<Seq<char>>)>,
    from: Seq<char>,
    y: Seq<char>,
    n: nat,
) -> (z: Seq<char>)
    requires
        within(out_links, in_links, from, y, n + 1),
        from != y,
    ensures
        within(out_links, in_links, from, z, n),
        linked(out_links, in_links, z, y),
{
    let w = choose|w: Seq<Seq<char>>|
        #[trigger] is_walk(out_links, in_links, w) && w[0] == from && w.last() == y && w.len() <= n + 2;
    assert(w.len() >= 2);
    let v = w.drop_last();
    let z = v.last();
    assert(linked(out_links, in_links, w[w.len() - 2], w[w.len() - 1]));
    assert forall|i: int| 0 <= i < v.len() - 1 implies linked(out_links, in_links, #[trigger] v[i], v[i + 1]) by {
        assert(v[i] == w[i] && v[i + 1] == w[i + 1]);
        assert(linked(out_links, in_links, w[i], w[i + 1]));
    }
    assert(is_walk(out_links, in_links, v) && v[0] == from && v.last() == z && v.len() <= n + 1);
    z
}

/// The distance is the least number of steps, so there is at most one.
pub proof fn lemma_distance_unique(
    out_links: Seq<(Seq<char>, Seq<Seq<char>>)>,
    in_links: Seq<(Seq<char>, Seq<Seq<char>>)>,
    from: Seq<char>,
    y: Seq<char>,
    d: nat,
    e: nat,
)
    requires
        is_distance(out_links, in_links, from, y, d),
        is_distance(out_links, in_links, from, y, e),
    ensures
        d == e,
{
    if d < e {
        lemma_within_monotone(out_links, in_links, from, y, d, (e - 1) as nat);
    } else if e < d {
        lemma_within_monotone(out_links, in_links, from, y, e, (d - 1) as nat);
    }
}

/// A note at distance `d > 0` has a neighbour before it at distance `d - 1`.
proof fn lemma_distance_predecessor(
    out_links: Seq<(Seq<char>, Seq<Seq<char>>)>,
    in_links: Seq<(Seq<char>, Seq<Seq<char>>)>,
    from: Seq<char>,
    y: Seq<char>,
    d: nat,
) -> (z: Seq<char>)
    requires
        d > 0,
        is_distance(out_links, in_links, from, y, d),
    ensures
        is_distance(out_links, in_links, from, z, (d - 1) as nat),
        linked(out_links, in_links, z, y),
{
    assert(from != y) by {
        if from == y {
            lemma_within_start(out_links, in_links, from, y);
            lemma_within_monotone(out_links, in_links, from, y, 0, (d - 1) as nat);
        }
    }
    let z = lemma_within_back(out_links, in_links, from, y, (d - 1) as nat);
    if d >= 2 && within(out_links, in_links, from, z, (d - 2) as nat) {
        lemma_within_extend(out_links, in_links, from, z, y, (d - 2) as nat);
    }
    z
}

/// Going back from a note at distance `d >= l`, some note is at distance exactly `l`, and it is
/// `y` itself or has a neighbour.
proof fn lemma_distance_level(
    out_links: Seq<(Seq<char>, Seq<Seq<char>>)>,
    in_links: Seq<(Seq<char>, Seq<Seq<char>>)>,
    from: Seq<char>,
    y: Seq<char>,
    d: nat,
    l: nat,
) -> (z: Seq<char>)
    requires
        l <= d,
        is_distance(out_links, in_links, from, y, d),
    ensures
        is_distance(out_links, in_links, from, z, l),
        z == y || exists|w: Seq<char>| linked(out_links, in_links, z, w),
    decreases d - l,
{
    if l == d {
        y
    } else {
        let p = lemma_distance_predecessor(out_links, in_links, from, y, d);
        let z = lemma_distance_level(out_links, in_links, from, p, (d - 1) as nat, l);
        if z == p {
            assert(linked(out_links, in_links, p, y));
        }
        z
    }
}

proof fn lemma_first_occurrences(s: Seq<Seq<char>>)
    ensures
        first_occurrences(s).no_duplicates(),
        forall|x: Seq<char>| #[trigger] first_occurrences(s).contains(x) <==> s.contains(x),
    decreases s.len(),
{
    if s.len() > 0 {
        lemma_first_occurrences(s.drop_last());
        lemma_with_member(first_occurrences(s.drop_last()), s.last());
        assert forall|x: Seq<char>| #[trigger] first_occurrences(s).contains(x) <==> s.contains(x) by {
            lemma_last_contains(s, x);
            assert(first_occurrences(s.drop_last()).contains(x) <==> s.drop_last().contains(x));
        }
    } else {
        assert(first_occurrences(s) == s);
    }
}

proof fn lemma_keys_contain<V>(a: Seq<(Seq<char>, V)>, k: Seq<char>)
    requires
        has_key(a, k),
    ensures
        keys_of(a).contains(k),
{
    let i = key_index(a, k);
    assert(keys_of(a)[i] == k);
}

/// The position of `s` in `ids`.
fn index_of(ids: &Vec<String>, s: &String) -> (res: Option<usize>)
    ensures
        match res {
            Some(j) => j < ids@.len() && ids@[j as int]@ == s@,
            None => !strings_view(ids@).contains(s@),
        },
{
    let mut j: usize = 0;
    while j < ids.len()
        invariant
            j <= ids.len(),
            forall|k: int| 0 <= k < j ==> (#[trigger] ids@[k])@ != s@,
        decreases ids.len() - j,
    {
        if ids[j] == *s {
            return Some(j);
        }
        j = j + 1;
    }
    assert(!strings_view(ids@).contains(s@)) by {
        if strings_view(ids@).contains(s@) {
            let k = choose|k: int| 0 <= k < strings_view(ids@).len() && strings_view(ids@)[k] == s@;
            assert(ids@[k]@ == s@);
        }
    }
    None
}

/// How many entries are set.
pub open spec fn count_set(d: Seq<Option<usize>>) -> nat
    decreases d.len(),
{
    if d.len() == 0 {
        0
    } else {
        count_set(d.drop_last()) + if d.last() is Some {
            1nat
        } else {
            0nat
        }
    }
}

proof fn lemma_count_set_bound(d: Seq<Option<usize>>)
    ensures
        count_set(d) <= d.len(),
    decreases d.len(),
{
    if d.len() > 0 {
        lemma_count_set_bound(d.drop_last());
    }
}

proof fn lemma_count_set_update(d: Seq<Option<usize>>, j: int, v: usize)
    requires
        0 <= j < d.len(),
        d[j] is None,
    ensures
        count_set(d.update(j, Some(v))) == count_set(d) + 1,
    decreases d.len(),
{
    let e = d.update(j, Some(v));
    if j == d.len() - 1 {
        assert(e.drop_last() == d.drop_last());
    } else {
        assert(e.drop_last() == d.drop_last().update(j, Some(v)));
        lemma_count_set_update(d.drop_last(), j, v);
    }
}

proof fn lemma_concat_contains<A>(a: Seq<A>, b: Seq<A>, x: A)
    ensures
        (a + b).contains(x) <==> (a.contains(x) || b.contains(x)),
{
    if a.contains(x) {
        let i = choose|i: int| 0 <= i < a.len() && a[i] == x;
        assert((a + b)[i] == x);
    }
    if b.contains(x) {
        let i = choose|i: int| 0 <= i < b.len() && b[i] == x;
        assert((a + b)[a.len() + i] == x);
    }
    if (a + b).contains(x) {
        let i = choose|i: int| 0 <= i < (a + b).len() && (a + b)[i] == x;
        if i < a.len() {
            assert(a[i] == x);
        } else {
            assert(b[i - a.len()] == x);
        }
    }
}

/// Below `lo` steps `y` cannot be reached, in `m` it can: its distance lies in between.
proof fn lemma_least_within(
    out_links: Seq<(Seq<char>, Seq<Seq<char>>)>,
    in_links: Seq<(Seq<char>, Seq<Seq<char>>)>,
    from: Seq<char>,
    y: Seq<char>,
    lo: nat,
    m: nat,
) -> (d: nat)
    requires
        lo < m,
        !within(out_links, in_links, from, y, lo),
        within(out_links, in_links, from, y, m),
    ensures
        lo < d <= m,
        is_distance(out_links, in_links, from, y, d),
    decreases m - lo,
{
    if lo + 1 < m && within(out_links, in_links, from, y, (m - 1) as nat) {
        lemma_least_within(out_links, in_links, from, y, lo, (m - 1) as nat)
    } else {
        m
    }
}

/// The distances found so far, up to `level`, and the notes at distance `level`.
pub open spec fn level_ok(
    out_links: Seq<(Seq<char>, Seq<Seq<char>>)>,
    in_links: Seq<(Seq<char>, Seq<Seq<char>>)>,
    focus: Seq<char>,
    ids: Seq<Seq<char>>,
    dist: Seq<Option<usize>>,
    frontier: Seq<usize>,
    level: nat,
) -> bool {
    &&& dist.len() == ids.len()
    &&& forall|j: int|
        0 <= j < dist.len() ==> (#[trigger] dist[j] matches Some(d) ==> d <= level && is_distance(
            out_links,
            in_links,
            focus,
            ids[j],
            d as nat,
        ))
    &&& forall|j: int|
        0 <= j < dist.len() ==> (within(out_links, in_links, focus, ids[j], level) ==> #[trigger] dist[j] is Some)
    &&& forall|j: int| 0 <= j < dist.len() ==> (#[trigger] dist[j] == Some(level as usize) <==> frontier.contains(j as usize))
    &&& forall|t: usize| #[trigger] frontier.contains(t) ==> t < ids.len()
}

/// Part way through a level: what was found before is kept, and what is found now is at
/// distance `level + 1` and listed in `next`.
pub open spec fn step_ok(
    out_links: Seq<(Seq<char>, Seq<Seq<char>>)>,
    in_links: Seq<(Seq<char>, Seq<Seq<char>>)>,
    focus: Seq<char>,
    ids: Seq<Seq<char>>,
    dist0: Seq<Option<usize>>,
    dist: Seq<Option<usize>>,
    next: Seq<usize>,
    level: nat,
) -> bool {
    &&& dist.len() == dist0.len()
    &&& forall|j: int| 0 <= j < dist.len() ==> (dist0[j] is Some ==> #[trigger] dist[j] == dist0[j])
    &&& forall|j: int| 0 <= j < dist.len() ==> (dist0[j] is None ==> (#[trigger] dist[j] is None || dist[j] == Some((level + 1) as usize)))
    &&& forall|j: int|
        0 <= j < dist.len() ==> (#[trigger] dist[j] == Some((level + 1) as usize) ==> dist0[j] is None && is_distance(
            out_links,
            in_links,
            focus,
            ids[j],
            level + 1,
        ))
    &&& forall|j: int| 0 <= j < dist.len() ==> (#[trigger] dist[j] == Some((level + 1) as usize) <==> next.contains(j as usize))
    &&& forall|t: usize| #[trigger] next.contains(t) ==> t < dist.len()
    &&& count_set(dist) == count_set(dist0) + next.len()
}

proof fn lemma_linked_is_node(g: LinkGraph, z: Seq<char>, y: Seq<char>)
    requires
        linked(g.out_links(), g.in_links(), z, y),
    ensures
        g.node_ids().contains(z),
{
    let ko = keys_of(g.out_links());
    let mo = all_members(g.out_links());
    let ki = keys_of(g.in_links());
    let kt = keys_of(g.title_list());
    if members(g.out_links(), z).contains(y) {
        assert(has_key(g.out_links(), z));
        lemma_keys_contain(g.out_links(), z);
        lemma_concat_contains(ko, mo, z);
        lemma_concat_contains(ko + mo, ki, z);
        lemma_concat_contains(ko + mo + ki, kt, z);
    } else {
        assert(has_key(g.in_links(), z));
        lemma_keys_contain(g.in_links(), z);
        lemma_concat_contains(ko + mo, ki, z);
        lemma_concat_contains(ko + mo + ki, kt, z);
    }
    lemma_first_occurrences(ko + mo + ki + kt);
}

/// Marks the notes of `nb` not reached before at distance `level + 1`.
fn visit_neighbours(
    ids: &Vec<String>,
    dist: &mut Vec<Option<usize>>,
    next: &mut Vec<usize>,
    nb: &Vec<String>,
    level: usize,
    Ghost(out_links): Ghost<Seq<(Seq<char>, Seq<Seq<char>>)>>,
    Ghost(in_links): Ghost<Seq<(Seq<char>, Seq<Seq<char>>)>>,
    Ghost(focus): Ghost<Seq<char>>,
    Ghost(x): Ghost<Seq<char>>,
    Ghost(dist0): Ghost<Seq<Option<usize>>>,
)
    requires
        strings_view(ids@).no_duplicates(),
        level < usize::MAX,
        dist0.len() == ids@.len(),
        within(out_links, in_links, focus, x, level as nat),
        forall|b: int| 0 <= b < nb@.len() ==> linked(out_links, in_links, x, #[trigger] nb@[b]@),
        forall|j: int|
            0 <= j < dist0.len() ==> (within(out_links, in_links, focus, ids@[j]@, level as nat) ==> #[trigger] dist0[j] is Some),
        step_ok(out_links, in_links, focus, strings_view(ids@), dist0, old(dist)@, old(next)@, level as nat),
    ensures
        step_ok(out_links, in_links, focus, strings_view(ids@), dist0, final(dist)@, final(next)@, level as nat),
        forall|j: int| 0 <= j < old(dist)@.len() ==> (old(dist)@[j] is Some ==> #[trigger] final(dist)@[j] == old(dist)@[j]),
        forall|j: int, b: int|
            0 <= j < ids@.len() && 0 <= b < nb@.len() && ids@[j]@ == #[trigger] nb@[b]@ ==> #[trigger] final(dist)@[j] is Some,
{
    let ghost v = strings_view(ids@);
    let ghost d_start = dist@;
    let mut b: usize = 0;
    while b < nb.len()
        invariant
            b <= nb.len(),
            v == strings_view(ids@),
            v.no_duplicates(),
            level < usize::MAX,
            dist0.len() == ids@.len(),
            within(out_links, in_links, focus, x, level as nat),
            forall|c: int| 0 <= c < nb@.len() ==> linked(out_links, in_links, x, #[trigger] nb@[c]@),
            forall|j: int|
                0 <= j < dist0.len() ==> (within(out_links, in_links, focus, ids@[j]@, level as nat) ==> #[trigger] dist0[j] is Some),
            step_ok(out_links, in_links, focus, v, dist0, dist@, next@, level as nat),
            forall|j: int| 0 <= j < d_start.len() ==> (d_start[j] is Some ==> #[trigger] dist@[j] == d_start[j]),
            d_start.len() == dist@.len(),
            forall|j: int, c: int|
                0 <= j < ids@.len() && 0 <= c < b && ids@[j]@ == #[trigger] nb@[c]@ ==> #[trigger] dist@[j] is Some,
        decreases nb.len() - b,
    {
        let ghost dist_b = dist@;
        match index_of(ids, &nb[b]) {
            Some(j) => {
                if dist[j].is_none() {
                    let ghost before = dist@;
                    let ghost next_before = next@;
                    proof {
                        assert(v[j as int] == ids@[j as int]@);
                        assert(dist0[j as int] is None);
                        assert(!within(out_links, in_links, focus, v[j as int], level as nat));
                        lemma_within_extend(out_links, in_links, focus, x, nb@[b as int]@, level as nat);
                        lemma_count_set_update(before, j as int, (level + 1) as usize);
                    }
                    dist.set(j, Some(level + 1));
                    next.push(j);
                    let dlen = dist.len();
                    proof {
                        assert(dist@.len() == dlen);
                        assert forall|t: usize| #[trigger] next@.contains(t) implies t < dist@.len() by {
                            lemma_push_contains(next_before, j, t);
                        }
                        assert forall|k: int| 0 <= k < dist@.len() implies (#[trigger] dist@[k] == Some((level + 1) as usize) <==> next@.contains(k as usize)) by {
                            lemma_push_contains(next_before, j, k as usize);
                            assert((k as usize) as int == k);
                            if k != j {
                                assert(dist@[k] == before[k]);
                                assert(before[k] == Some((level + 1) as usize) <==> next_before.contains(k as usize));
                            }
                        }
                        assert forall|k: int| 0 <= k < dist@.len() implies (#[trigger] dist@[k] == Some((level + 1) as usize) ==> dist0[k] is None && is_distance(out_links, in_links, focus, v[k], (level + 1) as nat)) by {
                            if k != j {
                                assert(dist@[k] == before[k]);
                            }
                        }
                        assert forall|k: int| 0 <= k < dist@.len() implies (dist0[k] is Some ==> #[trigger] dist@[k] == dist0[k]) by {
                            if k != j {
                                assert(dist@[k] == before[k]);
                            }
                        }
                        assert forall|k: int| 0 <= k < dist@.len() implies (dist0[k] is None ==> (#[trigger] dist@[k] is None || dist@[k] == Some((level + 1) as usize))) by {
                            if k != j {
                                assert(dist@[k] == before[k]);
                            }
                        }
                    }
                }
                proof {
                    assert(dist@[j as int] is Some);
                    assert forall|k: int| 0 <= k < dist@.len() && k != j implies #[trigger] dist@[k] == dist_b[k] by {}
                    assert forall|jj: int, c: int|
                        0 <= jj < ids@.len() && 0 <= c < b + 1 && ids@[jj]@ == #[trigger] nb@[c]@ implies #[trigger] dist@[jj] is Some by {
                        if c == b {
                            assert(v[jj] == v[j as int]);
                            assert(jj == j);
                        } else {
                            assert(dist_b[jj] is Some);
                            if jj != j {
                                assert(dist@[jj] == dist_b[jj]);
                            }
                        }
                    }
                }
            },
            None => {
                proof {
                    assert forall|jj: int, c: int|
                        0 <= jj < ids@.len() && 0 <= c < b + 1 && ids@[jj]@ == #[trigger] nb@[c]@ implies #[trigger] dist@[jj] is Some by {
                        if c == b {
                            assert(v[jj] == nb@[b as int]@);
                            assert(v.contains(nb@[b as int]@));
                        }
                    }
                }
            },
        }
        b = b + 1;
    }
}

/// The distances in `dist` are those from `focus`, where it is a node.
pub open spec fn hops_ok(
    out_links: Seq<(Seq<char>, Seq<Seq<char>>)>,
    in_links: Seq<(Seq<char>, Seq<Seq<char>>)>,
    focus: Seq<char>,
    ids: Seq<Seq<char>>,
    dist: Seq<Option<usize>>,
) -> bool {
    &&& dist.len() == ids.len()
    &&& forall|j: int|
        0 <= j < dist.len() ==> match #[trigger] dist[j] {
            Some(d) => ids.contains(focus) && is_distance(out_links, in_links, focus, ids[j], d as nat),
            None => !ids.contains(focus) || forall|m: nat| !within(out_links, in_links, focus, ids[j], m),
        }
}

proof fn lemma_bfs_start(g: LinkGraph, focus: Seq<char>, ids: Seq<Seq<char>>, dist: Seq<Option<usize>>, fi: int)
    requires
        ids.no_duplicates(),
        ids.len() <= usize::MAX,
        0 <= fi < ids.len(),
        ids[fi] == focus,
        dist.len() == ids.len(),
        dist[fi] == Some(0usize),
        forall|j: int| 0 <= j < dist.len() && j != fi ==> dist[j] is None,
    ensures
        level_ok(g.out_links(), g.in_links(), focus, ids, dist, seq![fi as usize], 0),
        count_set(dist) == 1,
{
    let o = g.out_links();
    let i = g.in_links();
    lemma_within_start(o, i, focus, focus);
    assert forall|j: int| 0 <= j < dist.len() implies (within(o, i, focus, ids[j], 0) ==> #[trigger] dist[j] is Some) by {
        lemma_within_start(o, i, focus, ids[j]);
        if within(o, i, focus, ids[j], 0) {
            assert(ids[j] == ids[fi]);
        }
    }
    assert forall|j: int| 0 <= j < dist.len() implies (#[trigger] dist[j] == Some(0usize) <==> seq![fi as usize].contains(j as usize)) by {
        lemma_push_contains(Seq::<usize>::empty(), fi as usize, j as usize);
        assert(seq![fi as usize] == Seq::<usize>::empty().push(fi as usize));
        assert((j as usize) as int == j);
        assert((fi as usize) as int == fi);
    }
    assert forall|t: usize| #[trigger] seq![fi as usize].contains(t) implies t < ids.len() by {
        lemma_push_contains(Seq::<usize>::empty(), fi as usize, t);
        assert(seq![fi as usize] == Seq::<usize>::empty().push(fi as usize));
    }
    let none = dist.update(fi, None);
    assert(count_set(none) == 0) by {
        lemma_count_set_none(none);
    }
    lemma_count_set_update(none, fi, 0usize);
    assert(none.update(fi, Some(0usize)) == dist);
}

proof fn lemma_count_set_none(d: Seq<Option<usize>>)
    requires
        forall|j: int| 0 <= j < d.len() ==> d[j] is None,
    ensures
        count_set(d) == 0,
    decreases d.len(),
{
    if d.len() > 0 {
        lemma_count_set_none(d.drop_last());
    }
}

proof fn lemma_bfs_next_level(
    g: LinkGraph,
    focus: Seq<char>,
    ids: Seq<Seq<char>>,
    dist0: Seq<Option<usize>>,
    dist: Seq<Option<usize>>,
    frontier: Seq<usize>,
    next: Seq<usize>,
    level: nat,
)
    requires
        ids == g.node_ids(),
        ids.no_duplicates(),
        ids.len() <= usize::MAX,
        level_ok(g.out_links(), g.in_links(), focus, ids, dist0, frontier, level),
        step_ok(g.out_links(), g.in_links(), focus, ids, dist0, dist, next, level),
        level + 1 <= usize::MAX,
        forall|j: int, a: int|
            #![trigger dist[j], frontier[a]]
            0 <= j < ids.len() && 0 <= a < frontier.len() && linked(g.out_links(), g.in_links(), ids[frontier[a] as int], ids[j])
                ==> dist[j] is Some,
    ensures
        level_ok(g.out_links(), g.in_links(), focus, ids, dist, next, level + 1),
{
    let o = g.out_links();
    let i = g.in_links();
    assert forall|j: int| 0 <= j < dist.len() implies (#[trigger] dist[j] matches Some(d) ==> d <= level + 1 && is_distance(o, i, focus, ids[j], d as nat)) by {
        if dist0[j] is Some {
            assert(dist[j] == dist0[j]);
        }
    }
    assert forall|j: int| 0 <= j < dist.len() implies (within(o, i, focus, ids[j], level + 1) ==> #[trigger] dist[j] is Some) by {
        if within(o, i, focus, ids[j], level + 1) {
            if within(o, i, focus, ids[j], level) {
                assert(dist0[j] is Some);
                assert(dist[j] == dist0[j]);
            } else {
                lemma_within_start(o, i, focus, ids[j]);
                if focus == ids[j] {
                    lemma_within_monotone(o, i, focus, ids[j], 0, level);
                }
                let z = lemma_within_back(o, i, focus, ids[j], level);
                lemma_linked_is_node(g, z, ids[j]);
                let iz = choose|iz: int| 0 <= iz < ids.len() && ids[iz] == z;
                assert(dist0[iz] is Some);
                let dz = dist0[iz]->0;
                assert(is_distance(o, i, focus, z, dz as nat));
                if (dz as nat) < level {
                    lemma_within_extend(o, i, focus, z, ids[j], dz as nat);
                    lemma_within_monotone(o, i, focus, ids[j], (dz + 1) as nat, level);
                }
                assert(dist0[iz] == Some(level as usize));
                assert(frontier.contains(iz as usize));
                let a = choose|a: int| 0 <= a < frontier.len() && frontier[a] == iz as usize;
                assert((iz as usize) as int == iz);
                assert(ids[frontier[a] as int] == z);
                assert(linked(o, i, ids[frontier[a] as int], ids[j]));
            }
        }
    }
}

proof fn lemma_bfs_done(g: LinkGraph, focus: Seq<char>, ids: Seq<Seq<char>>, dist: Seq<Option<usize>>, frontier: Seq<usize>, level: nat)
    requires
        ids == g.node_ids(),
        ids.no_duplicates(),
        ids.len() <= usize::MAX,
        ids.contains(focus),
        level_ok(g.out_links(), g.in_links(), focus, ids, dist, frontier, level),
        frontier.len() == 0,
    ensures
        hops_ok(g.out_links(), g.in_links(), focus, ids, dist),
{
    let o = g.out_links();
    let i = g.in_links();
    assert forall|j: int| 0 <= j < dist.len() implies match #[trigger] dist[j] {
        Some(d) => ids.contains(focus) && is_distance(o, i, focus, ids[j], d as nat),
        None => !ids.contains(focus) || forall|m: nat| !within(o, i, focus, ids[j], m),
    } by {
        if dist[j] is None {
            assert forall|m: nat| !within(o, i, focus, ids[j], m) by {
                if within(o, i, focus, ids[j], m) {
                    assert(!within(o, i, focus, ids[j], level));
                    if m <= level {
                        lemma_within_monotone(o, i, focus, ids[j], m, level);
                    } else {
                        let d = lemma_least_within(o, i, focus, ids[j], level, m);
                        let z = lemma_distance_level(o, i, focus, ids[j], d, level);
                        let iz: int = if z == ids[j] {
                            j
                        } else {
                            let w = choose|w: Seq<char>| linked(o, i, z, w);
                            lemma_linked_is_node(g, z, w);
                            choose|iz: int| 0 <= iz < ids.len() && ids[iz] == z
                        };
                        assert(ids[iz] == z);
                        assert(dist[iz] is Some);
                        let dz = dist[iz]->0;
                        lemma_distance_unique(o, i, focus, z, dz as nat, level);
                        assert(dist[iz] == Some(level as usize));
                        assert(frontier.contains(iz as usize));
                    }
                }
            }
        }
    }
}

impl LinkGraph {
    /// The graph drawn around a focused note: the nodes of `to_frontend_json`, each with its
    /// distance from `focus_path` in steps between neighbours (links followed either way),
    /// where `focus_path` is a node of the graph and the note can be reached from it.
    pub fn get_graph_with_focus(&self, focus_path: &str) -> (res: GraphData)
        requires
            self.well_formed(),
        ensures
            res.nodes@.len() == self.node_ids().len(),
            forall|k: int|
                0 <= k < res.nodes@.len() ==> (#[trigger] res.nodes@[k])@ == node_view(
                    self.out_links(),
                    self.in_links(),
                    self.title_list(),
                    self.node_ids()[k],
                    res.nodes@[k].hops,
                ),
            hops_ok(
                self.out_links(),
                self.in_links(),
                focus_path@,
                self.node_ids(),
                res.nodes@.map_values(|n: GraphNode| n.hops),
            ),
            edges_view(res.edges@) == self.edge_list(),
    {
        let ids = self.known_ids();
        let ghost v = strings_view(ids@);
        let ghost o = self.out_links();
        let ghost il = self.in_links();
        let ghost f = focus_path@;
        proof {
            lemma_first_occurrences(
                keys_of(self.out_links()) + all_members(self.out_links()) + keys_of(self.in_links()) + keys_of(
                    self.title_list(),
                ),
            );
        }
        let n = ids.len();
        let mut dist: Vec<Option<usize>> = Vec::new();
        let mut k: usize = 0;
        while k < n
            invariant
                k <= n,
                dist@.len() == k,
                forall|j: int| 0 <= j < k ==> #[trigger] dist@[j] is None,
            decreases n - k,
        {
            dist.push(None);
            k = k + 1;
        }
        let focus = owned(focus_path);
        match index_of(&ids, &focus) {
            Some(fi) => {
                let ghost d_none = dist@;
                dist.set(fi, Some(0));
                let mut frontier: Vec<usize> = Vec::new();
                frontier.push(fi);
                proof {
                    assert(v[fi as int] == f);
                    lemma_bfs_start(*self, f, v, dist@, fi as int);
                    assert(frontier@ == seq![fi]);
                    assert(v.contains(f));
                }
                let mut level: usize = 0;
                while frontier.len() > 0
                    invariant
                        self.well_formed(),
                        v == strings_view(ids@),
                        v == self.node_ids(),
                        v.no_duplicates(),
                        v.contains(f),
                        o == self.out_links(),
                        il == self.in_links(),
                        n == ids@.len(),
                        level <= n,
                        level_ok(o, il, f, v, dist@, frontier@, level as nat),
                        frontier@.len() > 0 ==> count_set(dist@) >= level + 1,
                    decreases n - level,
                {
                    proof {
                        lemma_count_set_bound(dist@);
                    }
                    let ghost dist0 = dist@;
                    let mut next: Vec<usize> = Vec::new();
                    proof {
                        assert forall|j: int| 0 <= j < dist@.len() implies (#[trigger] dist@[j] == Some((level + 1) as usize) <==> next@.contains(j as usize)) by {
                            if dist@[j] == Some((level + 1) as usize) {
                                assert(dist@[j] matches Some(d) && d <= level);
                            }
                        }
                    }
                    let mut a: usize = 0;
                    while a < frontier.len()
                        invariant
                            self.well_formed(),
                            v == strings_view(ids@),
                            v == self.node_ids(),
                            v.no_duplicates(),
                            o == self.out_links(),
                            il == self.in_links(),
                            n == ids@.len(),
                            level < n,
                            a <= frontier@.len(),
                            level_ok(o, il, f, v, dist0, frontier@, level as nat),
                            step_ok(o, il, f, v, dist0, dist@, next@, level as nat),
                            forall|j: int, c: int|
                                #![trigger dist@[j], frontier@[c]]
                                0 <= j < n && 0 <= c < a && linked(o, il, v[frontier@[c] as int], v[j]) ==> dist@[j] is Some,
                        decreases frontier@.len() - a,
                    {
                        let x = frontier[a];
                        proof {
                            assert(frontier@[a as int] == x);
                            assert(frontier@.contains(x));
                        }
                        let outs = self.outgoing_neighbors(ids[x].as_str());
                        let ins = self.get_backlinks(ids[x].as_str());
                        let ghost xv = v[x as int];
                        proof {
                            assert(frontier@.contains(x));
                            assert(dist0[x as int] == Some(level));
                            assert(xv == ids@[x as int]@);
                            assert forall|j: int| 0 <= j < dist0.len() implies (within(o, il, f, ids@[j]@, level as nat) ==> #[trigger] dist0[j] is Some) by {
                                assert(v[j] == ids@[j]@);
                            }
                            assert forall|c: int| 0 <= c < outs@.len() implies linked(o, il, xv, #[trigger] outs@[c]@) by {
                                assert(strings_view(outs@)[c] == outs@[c]@);
                            }
                            assert forall|c: int| 0 <= c < ins@.len() implies linked(o, il, xv, #[trigger] ins@[c]@) by {
                                assert(strings_view(ins@)[c] == ins@[c]@);
                            }
                        }
                        let ghost d_a = dist@;
                        visit_neighbours(&ids, &mut dist, &mut next, &outs, level, Ghost(o), Ghost(il), Ghost(f), Ghost(xv), Ghost(dist0));
                        let ghost d_b = dist@;
                        visit_neighbours(&ids, &mut dist, &mut next, &ins, level, Ghost(o), Ghost(il), Ghost(f), Ghost(xv), Ghost(dist0));
                        proof {
                            assert forall|j: int, c: int|
                                #![trigger dist@[j], frontier@[c]]
                                0 <= j < n && 0 <= c < a + 1 && linked(o, il, v[frontier@[c] as int], v[j]) implies dist@[j] is Some by {
                                if c < a {
                                    assert(d_a[j] is Some);
                                    assert(d_b[j] == d_a[j]);
                                } else {
                                    assert(v[j] == ids@[j]@);
                                    if members(o, xv).contains(v[j]) {
                                        let cc = choose|cc: int| 0 <= cc < strings_view(outs@).len() && strings_view(outs@)[cc] == v[j];
                                        assert(outs@[cc]@ == v[j]);
                                        assert(d_b[j] is Some);
                                    } else {
                                        let cc = choose|cc: int| 0 <= cc < strings_view(ins@).len() && strings_view(ins@)[cc] == v[j];
                                        assert(ins@[cc]@ == v[j]);
                                    }
                                }
                            }
                        }
                        a = a + 1;
                    }
                    proof {
                        lemma_bfs_next_level(*self, f, v, dist0, dist@, frontier@, next@, level as nat);
                    }
                    frontier = next;
                    level = level + 1;
                }
                proof {
                    lemma_bfs_done(*self, f, v, dist@, frontier@, level as nat);
                }
            },
            None => {
                proof {
                    assert forall|j: int| 0 <= j < dist@.len() implies match #[trigger] dist@[j] {
                        Some(d) => v.contains(f) && is_distance(o, il, f, v[j], d as nat),
                        None => !v.contains(f) || forall|m: nat| !within(o, il, f, v[j], m),
                    } by {}
                }
            },
        }
        let mut nodes: Vec<GraphNode> = Vec::new();
        let mut k: usize = 0;
        while k < n
            invariant
                self.well_formed(),
                v == strings_view(ids@),
                v == self.node_ids(),
                n == ids@.len(),
                k <= n,
                hops_ok(o, il, f, v, dist@),
                o == self.out_links(),
                il == self.in_links(),
                nodes@.len() == k,
                forall|kk: int|
                    0 <= kk < k ==> (#[trigger] nodes@[kk])@ == node_view(o, il, self.title_list(), v[kk], dist@[kk])
                        && nodes@[kk].hops == dist@[kk],
            decreases n - k,
        {
            let node = self.node_for(ids[k].as_str(), dist[k]);
            nodes.push(node);
            k = k + 1;
        }
        proof {
            assert(nodes@.map_values(|nd: GraphNode| nd.hops) =~= dist@);
        }
        GraphData { nodes, edges: self.edges_from_meta() }
    }
}

// ---------------------------------------------------------------------------------------
// Laws of the graph.
// ---------------------------------------------------------------------------------------

/// A recorded link is found from both ends: after a link from `from` to `to` is added, `from`
/// is among the backlinks of `to` and `to` among the links of `from`; the lists of other notes
/// are as they were.
pub proof fn lemma_added_link_is_found(g: LinkGraph, from: Seq<char>, to: Seq<char>)
    requires
        g.well_formed(),
    ensures
        members(add_member(g.in_links(), to, from), to).contains(from),
        members(add_member(g.out_links(), from, to), from).contains(to),
        forall|y: Seq<char>| y != to ==> members(#[trigger] add_member(g.in_links(), to, from), y) == members(g.in_links(), y),
        forall|y: Seq<char>| y != from ==> members(#[trigger] add_member(g.out_links(), from, to), y) == members(g.out_links(), y),
{
    lemma_add_member(g.in_links(), to, from);
    lemma_add_member(g.out_links(), from, to);
}

/// A removed link is gone from both ends, whatever else links the two notes.
pub proof fn lemma_removed_link_is_gone(g: LinkGraph, from: Seq<char>, to: Seq<char>)
    requires
        g.well_formed(),
    ensures
        !members(remove_member(g.in_links(), to, from), to).contains(from),
        !members(remove_member(g.out_links(), from, to), from).contains(to),
{
    lemma_remove_member(g.in_links(), to, from);
    lemma_remove_member(g.out_links(), from, to);
}

/// In a graph whose links are recorded from both ends, a removed note is left in no list of
/// links or backlinks, and has no entry of its own.
pub proof fn lemma_removed_note_is_unlinked(g: LinkGraph, id: Seq<char>)
    requires
        g.well_formed(),
        g.consistent(),
    ensures
        !has_key(out_after_removal(g.out_links(), g.in_links(), id), id),
        !has_key(in_after_removal(g.out_links(), g.in_links(), id), id),
        forall|x: Seq<char>| !(#[trigger] members(out_after_removal(g.out_links(), g.in_links(), id), x)).contains(id),
        forall|x: Seq<char>| !(#[trigger] members(in_after_removal(g.out_links(), g.in_links(), id), x)).contains(id),
{
    let out0 = g.out_links();
    let in0 = g.in_links();
    let targets = members(out0, id);
    let in1 = strip_member(in0, targets, id);
    let sources = members(in1, id);
    let out1 = drop_key(out0, id);
    lemma_drop_key(out0, id);
    lemma_strip_member(in0, targets, id);
    lemma_drop_key(in1, id);
    lemma_adj_drop(out0, id);
    lemma_strip_member(out1, sources, id);
    lemma_without_member(members(in0, id), id);
    assert forall|x: Seq<char>| !(#[trigger] members(out_after_removal(out0, in0, id), x)).contains(id) by {
        lemma_without_member(members(out1, x), id);
        if x != id {
            assert(members(out0, x).contains(id) <==> members(in0, id).contains(x));
        }
    }
    assert forall|x: Seq<char>| !(#[trigger] members(in_after_removal(out0, in0, id), x)).contains(id) by {
        lemma_without_member(members(in0, x), id);
        if x != id {
            assert(members(out0, id).contains(x) <==> members(in0, x).contains(id));
        }
    }
}

proof fn lemma_removal_ok(g: LinkGraph, id: Seq<char>)
    requires
        g.well_formed(),
    ensures
        adj_ok(out_after_removal(g.out_links(), g.in_links(), id)),
        adj_ok(in_after_removal(g.out_links(), g.in_links(), id)),
        forall|x: Seq<char>, y: Seq<char>|
            x != id && y != id ==> (#[trigger] members(out_after_removal(g.out_links(), g.in_links(), id), x).contains(y)
                <==> members(g.out_links(), x).contains(y)),
        forall|x: Seq<char>, y: Seq<char>|
            x != id && y != id ==> (#[trigger] members(in_after_removal(g.out_links(), g.in_links(), id), y).contains(x)
                <==> members(g.in_links(), y).contains(x)),
{
    let out0 = g.out_links();
    let in0 = g.in_links();
    let targets = members(out0, id);
    let in1 = strip_member(in0, targets, id);
    let sources = members(in1, id);
    let out1 = drop_key(out0, id);
    lemma_drop_key(out0, id);
    lemma_adj_drop(out0, id);
    lemma_strip_member(in0, targets, id);
    lemma_drop_key(in1, id);
    lemma_adj_drop(in1, id);
    lemma_strip_member(out1, sources, id);
    assert forall|x: Seq<char>, y: Seq<char>|
        x != id && y != id implies (#[trigger] members(out_after_removal(out0, in0, id), x).contains(y)
            <==> members(out0, x).contains(y)) by {
        lemma_without_member(members(out1, x), id);
    }
    assert forall|x: Seq<char>, y: Seq<char>|
        x != id && y != id implies (#[trigger] members(in_after_removal(out0, in0, id), y).contains(x)
            <==> members(in0, y).contains(x)) by {
        lemma_without_member(members(in0, y), id);
    }
}

proof fn lemma_relinked(g: LinkGraph, old_id: Seq<char>, new_id: Seq<char>)
    requires
        g.well_formed(),
    ensures
        forall|z: (Seq<char>, Seq<char>)|
            #[trigger] relinked(g.out_links(), g.in_links(), old_id, new_id).contains(z) ==> (z.0 == new_id
                || z.1 == new_id) && (z.0 != old_id || old_id == new_id) && (z.1 != old_id || old_id == new_id),
        forall|t: Seq<char>|
            #[trigger] members(g.out_links(), old_id).contains(t) ==> relinked(g.out_links(), g.in_links(), old_id, new_id).contains(
                (new_id, renamed_end(t, old_id, new_id)),
            ),
        forall|s: Seq<char>|
            #[trigger] members(strip_member(g.in_links(), members(g.out_links(), old_id), old_id), old_id).contains(s)
                ==> relinked(g.out_links(), g.in_links(), old_id, new_id).contains((renamed_end(s, old_id, new_id), new_id)),
{
    let out0 = g.out_links();
    let in0 = g.in_links();
    let ts = members(out0, old_id);
    let ss = members(strip_member(in0, ts, old_id), old_id);
    let tl = ts.map_values(|t: Seq<char>| (new_id, renamed_end(t, old_id, new_id)));
    let sl = ss.map_values(|s: Seq<char>| (renamed_end(s, old_id, new_id), new_id));
    let links = relinked(out0, in0, old_id, new_id);
    assert(links == tl + sl);
    assert forall|z: (Seq<char>, Seq<char>)| #[trigger] links.contains(z) implies (z.0 == new_id || z.1 == new_id) && (
    z.0 != old_id || old_id == new_id) && (z.1 != old_id || old_id == new_id) by {
        let i = choose|i: int| 0 <= i < links.len() && links[i] == z;
        if i < tl.len() {
            assert(links[i] == tl[i]);
        } else {
            assert(links[i] == sl[i - tl.len()]);
        }
    }
    assert forall|t: Seq<char>| #[trigger] ts.contains(t) implies links.contains((new_id, renamed_end(t, old_id, new_id))) by {
        let i = choose|i: int| 0 <= i < ts.len() && ts[i] == t;
        assert(links[i] == tl[i]);
    }
    assert forall|s: Seq<char>| #[trigger] ss.contains(s) implies links.contains((renamed_end(s, old_id, new_id), new_id)) by {
        let i = choose|i: int| 0 <= i < ss.len() && ss[i] == s;
        assert(links[tl.len() + i] == sl[i]);
    }
}

/// Renaming a note updates every reference to it: in a graph whose links are recorded from
/// both ends, the old name is afterwards in no list of links or backlinks and has no entry of
/// its own.
pub proof fn lemma_renamed_note_is_unlinked(g: LinkGraph, old_id: Seq<char>, new_id: Seq<char>)
    requires
        g.well_formed(),
        g.consistent(),
        old_id != new_id,
    ensures
        !has_key(renamed_links(g.out_links(), g.in_links(), old_id, new_id).0, old_id),
        !has_key(renamed_links(g.out_links(), g.in_links(), old_id, new_id).1, old_id),
        forall|x: Seq<char>| !(#[trigger] members(renamed_links(g.out_links(), g.in_links(), old_id, new_id).0, x)).contains(old_id),
        forall|x: Seq<char>| !(#[trigger] members(renamed_links(g.out_links(), g.in_links(), old_id, new_id).1, x)).contains(old_id),
{
    let out_r = out_after_removal(g.out_links(), g.in_links(), old_id);
    let in_r = in_after_removal(g.out_links(), g.in_links(), old_id);
    let links = relinked(g.out_links(), g.in_links(), old_id, new_id);
    let r = renamed_links(g.out_links(), g.in_links(), old_id, new_id);
    lemma_removed_note_is_unlinked(g, old_id);
    lemma_removal_ok(g, old_id);
    lemma_relinked(g, old_id, new_id);
    lemma_add_links(out_r, in_r, links);
    if has_key(r.0, old_id) {
        let i = choose|i: int| 0 <= i < links.len() && (#[trigger] links[i]).0 == old_id;
        assert(links.contains(links[i]));
    }
    if has_key(r.1, old_id) {
        let i = choose|i: int| 0 <= i < links.len() && (#[trigger] links[i]).1 == old_id;
        assert(links.contains(links[i]));
    }
    assert forall|x: Seq<char>| !(#[trigger] members(r.0, x)).contains(old_id) by {
        assert(!members(out_r, x).contains(old_id));
        if links.contains((x, old_id)) {
            assert(links.contains((x, old_id)));
        }
    }
    assert forall|x: Seq<char>| !(#[trigger] members(r.1, x)).contains(old_id) by {
        assert(!members(in_r, x).contains(old_id));
        if links.contains((old_id, x)) {
            assert(links.contains((old_id, x)));
        }
    }
}

/// A renamed note keeps its links under the new name: in a graph whose links are recorded
/// from both ends, the new name links to each note the old one linked to and is a backlink of
/// it, each note that linked to the old name links to the new one and is among its backlinks
/// (a link of the note to itself becoming one of the new name to itself), and a link between
/// two other notes is there after the rename exactly when it was there before.
pub proof fn lemma_renamed_note_keeps_links(g: LinkGraph, old_id: Seq<char>, new_id: Seq<char>)
    requires
        g.well_formed(),
        g.consistent(),
    ensures
        ({
            let r = renamed_links(g.out_links(), g.in_links(), old_id, new_id);
            &&& forall|t: Seq<char>|
                #[trigger] members(g.out_links(), old_id).contains(t) ==> members(r.0, new_id).contains(
                    renamed_end(t, old_id, new_id),
                ) && members(r.1, renamed_end(t, old_id, new_id)).contains(new_id)
            &&& forall|s: Seq<char>|
                #[trigger] members(g.in_links(), old_id).contains(s) ==> members(r.1, new_id).contains(
                    renamed_end(s, old_id, new_id),
                ) && members(r.0, renamed_end(s, old_id, new_id)).contains(new_id)
            &&& forall|x: Seq<char>, y: Seq<char>|
                x != old_id && y != old_id && x != new_id && y != new_id ==> (#[trigger] members(r.0, x).contains(y)
                    <==> members(g.out_links(), x).contains(y))
            &&& forall|x: Seq<char>, y: Seq<char>|
                x != old_id && y != old_id && x != new_id && y != new_id ==> (#[trigger] members(r.1, y).contains(x)
                    <==> members(g.in_links(), y).contains(x))
        }),
{
    let out0 = g.out_links();
    let in0 = g.in_links();
    let out_r = out_after_removal(out0, in0, old_id);
    let in_r = in_after_removal(out0, in0, old_id);
    let links = relinked(out0, in0, old_id, new_id);
    let r = renamed_links(out0, in0, old_id, new_id);
    let ts = members(out0, old_id);
    let ss = members(strip_member(in0, ts, old_id), old_id);
    lemma_removal_ok(g, old_id);
    lemma_relinked(g, old_id, new_id);
    lemma_add_links(out_r, in_r, links);
    lemma_strip_member(in0, ts, old_id);
    lemma_without_member(members(in0, old_id), old_id);
    assert forall|t: Seq<char>| #[trigger] members(out0, old_id).contains(t) implies members(r.0, new_id).contains(
        renamed_end(t, old_id, new_id),
    ) && members(r.1, renamed_end(t, old_id, new_id)).contains(new_id) by {
        assert(links.contains((new_id, renamed_end(t, old_id, new_id))));
    }
    assert forall|s: Seq<char>| #[trigger] members(in0, old_id).contains(s) implies members(r.1, new_id).contains(
        renamed_end(s, old_id, new_id),
    ) && members(r.0, renamed_end(s, old_id, new_id)).contains(new_id) by {
        if s == old_id {
            assert(members(out0, old_id).contains(old_id) <==> members(in0, old_id).contains(old_id));
            assert(links.contains((new_id, renamed_end(old_id, old_id, new_id))));
        } else {
            assert(ss.contains(s));
            assert(links.contains((renamed_end(s, old_id, new_id), new_id)));
        }
    }
    assert forall|x: Seq<char>, y: Seq<char>|
        x != old_id && y != old_id && x != new_id && y != new_id implies (#[trigger] members(r.0, x).contains(y)
            <==> members(out0, x).contains(y)) by {
        if links.contains((x, y)) {
            assert(links.contains((x, y)));
        }
    }
    assert forall|x: Seq<char>, y: Seq<char>|
        x != old_id && y != old_id && x != new_id && y != new_id implies (#[trigger] members(r.1, y).contains(x)
            <==> members(in0, y).contains(x)) by {
        if links.contains((x, y)) {
            assert(links.contains((x, y)));
        }
    }
}

/// A title that was set is the one read back.
pub proof fn lemma_title_read_back(g: LinkGraph, id: Seq<char>, title: Seq<char>)
    requires
        g.well_formed(),
    ensures
        lookup(put(g.title_list(), id, title), id) == Some(title),
{
    lemma_put(g.title_list(), id, title);
}

/// Edges of different types between the same notes are all kept.
pub proof fn lemma_edge_types_kept_apart(g: LinkGraph, e1: EdgeView, e2: EdgeView)
    requires
        g.well_formed(),
        edge_key(e1) != edge_key(e2),
    ensures
        put_edge(put_edge(g.edge_list(), e1), e2).contains(e1),
        put_edge(put_edge(g.edge_list(), e1), e2).contains(e2),
{
    lemma_put_edge(g.edge_list(), e1);
    lemma_put_edge(put_edge(g.edge_list(), e1), e2);
}

} // verus!

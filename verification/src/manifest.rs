//! Text measures for the graph manifest: token estimates, the first paragraph of a note,
//! and quoting for TOML strings.

use vstd::prelude::*;
use crate::text::{chars_of, string_of, trim, trim_chars, take_chars};
use crate::completion::decimal;
use crate::text::{contains_string, lex_lt, strings_view};
use crate::link_graph::{members, LinkGraph};

verus! {

/// Neighbours of more degree than this count as hubs.
pub const HUB_DEGREE_THRESHOLD: usize = 15;

/// How many characters of the text are ASCII.
pub open spec fn ascii_count(s: Seq<char>) -> nat
    decreases s.len(),
{
    if s.len() == 0 {
        0
    } else {
        ascii_count(s.drop_last()) + if (s.last() as u32) < 128 {
            1nat
        } else {
            0nat
        }
    }
}

proof fn lemma_ascii_count_bound(s: Seq<char>)
    ensures
        ascii_count(s) <= s.len(),
    decreases s.len(),
{
    if s.len() > 0 {
        lemma_ascii_count_bound(s.drop_last());
    }
}

/// The token estimate: a token per four ASCII characters, rounded down, and one per other
/// character.
pub open spec fn token_estimate(s: Seq<char>) -> int {
    ascii_count(s) as int / 4 + (s.len() - ascii_count(s))
}

/// Estimates how many tokens a text takes.
pub fn estimate_tokens(text: &str) -> (res: usize)
    ensures
        res == token_estimate(text@),
{
    let cs = chars_of(text);
    let mut ascii: usize = 0;
    let mut i: usize = 0;
    while i < cs.len()
        invariant
            i <= cs.len(),
            cs@ == text@,
            ascii == ascii_count(cs@.take(i as int)),
            ascii <= i,
        decreases cs.len() - i,
    {
        assert(cs@.take(i + 1).drop_last() == cs@.take(i as int));
        if (cs[i] as u32) < 128 {
            ascii = ascii + 1;
        }
        i = i + 1;
    }
    assert(cs@.take(cs.len() as int) == cs@);
    ascii / 4 + (cs.len() - ascii)
}

/// The end of the line that starts at `i`: the next line feed, or the end of the text.
pub open spec fn line_end(s: Seq<char>, i: int) -> int
    decreases s.len() - i,
{
    if i >= s.len() {
        s.len() as int
    } else if s[i] == '\n' {
        i
    } else {
        line_end(s, i + 1)
    }
}

pub proof fn lemma_line_end_bounds(s: Seq<char>, i: int)
    requires
        0 <= i <= s.len(),
    ensures
        i <= line_end(s, i) <= s.len(),
        forall|k: int| i <= k < line_end(s, i) ==> s[k] != '\n',
    decreases s.len() - i,
{
    if i < s.len() && s[i] != '\n' {
        lemma_line_end_bounds(s, i + 1);
    }
}

pub open spec fn dashes() -> Seq<char> {
    seq!['-', '-', '-']
}

/// The first paragraph line of the text from the line at `i` on: front matter between the
/// first two `---` lines, blank lines and headings are skipped; the line comes trimmed and
/// cut to 200 characters.
pub open spec fn first_paragraph_from(s: Seq<char>, i: int, in_front: bool, front_done: bool) -> Seq<char>
    decreases s.len() + 1 - i,
{
    if i < 0 || i > s.len() {
        Seq::empty()
    } else {
        let e = line_end(s, i);
        proof {
            lemma_line_end_bounds(s, i);
        }
        let t = trim(s.subrange(i, e));
        if t == dashes() {
            if !front_done {
                first_paragraph_from(s, e + 1, !in_front, in_front)
            } else {
                first_paragraph_from(s, e + 1, in_front, front_done)
            }
        } else if in_front {
            first_paragraph_from(s, e + 1, in_front, front_done)
        } else if t.len() == 0 || t[0] == '#' {
            first_paragraph_from(s, e + 1, in_front, front_done)
        } else if t.len() > 200 {
            t.take(200)
        } else {
            t
        }
    }
}

/// The first paragraph line of a note, for a short description.
pub fn extract_first_paragraph(content: &str) -> (res: String)
    ensures
        res@ == first_paragraph_from(content@, 0, false, false),
{
    let s = chars_of(content);
    let n = s.len();
    let mut in_front = false;
    let mut front_done = false;
    let mut i: usize = 0;
    while i <= n
        invariant
            s@ == content@,
            n == s@.len(),
            first_paragraph_from(s@, i as int, in_front, front_done) == first_paragraph_from(s@, 0, false, false),
        decreases n + 1 - i,
    {
        proof {
            lemma_line_end_bounds(s@, i as int);
        }
        let mut e = i;
        while e < n && s[e] != '\n'
            invariant
                i <= e <= n,
                n == s@.len(),
                line_end(s@, i as int) == line_end(s@, e as int),
            decreases n - e,
        {
            e = e + 1;
        }
        let mut line: Vec<char> = Vec::new();
        let mut k = i;
        while k < e
            invariant
                i <= k <= e <= n,
                n == s@.len(),
                line@ == s@.subrange(i as int, k as int),
            decreases e - k,
        {
            line.push(s[k]);
            k = k + 1;
        }
        let t = trim_chars(&line);
        let is_dashes = t.len() == 3 && t[0] == '-' && t[1] == '-' && t[2] == '-';
        assert(is_dashes == (t@ == dashes())) by {
            if t@ == dashes() {
                assert(t@[0] == '-' && t@[1] == '-' && t@[2] == '-');
            }
            if is_dashes {
                assert(t@ =~= dashes());
            }
        }
        if is_dashes {
            if !front_done {
                let was = in_front;
                in_front = !in_front;
                front_done = was;
            }
        } else if in_front {
        } else if t.len() == 0 || t[0] == '#' {
        } else {
            if t.len() > 200 {
                let cut = take_chars(&t, 200);
                return string_of(&cut);
            } else {
                return string_of(&t);
            }
        }
        if e == n {
            assert(first_paragraph_from(s@, e + 1, in_front, front_done) =~= Seq::<char>::empty());
            return String::new();
        }
        i = e + 1;
    }
    String::new()
}

/// A text quoted for a TOML basic string: backslashes doubled, then quotes escaped.
pub open spec fn toml_escaped(s: Seq<char>) -> Seq<char>
    decreases s.len(),
{
    if s.len() == 0 {
        Seq::empty()
    } else {
        let c = s.last();
        toml_escaped(s.drop_last()) + if c == '\\' {
            seq!['\\', '\\']
        } else if c == '"' {
            seq!['\\', '"']
        } else {
            seq![c]
        }
    }
}

/// Escapes backslashes and double quotes for a TOML string.
pub fn escape_toml_str(s: &str) -> (res: String)
    ensures
        res@ == toml_escaped(s@),
{
    let cs = chars_of(s);
    let mut out: Vec<char> = Vec::new();
    let mut i: usize = 0;
    while i < cs.len()
        invariant
            i <= cs.len(),
            cs@ == s@,
            out@ == toml_escaped(cs@.take(i as int)),
        decreases cs.len() - i,
    {
        assert(cs@.take(i + 1).drop_last() == cs@.take(i as int));
        let c = cs[i];
        if c == '\\' {
            out.push('\\');
            out.push('\\');
        } else if c == '"' {
            out.push('\\');
            out.push('"');
        } else {
            out.push(c);
        }
        assert(out@ =~= toml_escaped(cs@.take(i + 1)));
        i = i + 1;
    }
    assert(cs@.take(cs.len() as int) == cs@);
    string_of(&out)
}

// ---------------------------------------------------------------------------------------
// The manifest of a set of target notes, within a token budget.
// ---------------------------------------------------------------------------------------

/// A note in the manifest: its path, title and description, its relevance (the bit pattern of
/// a 32-bit float), how many links it lies from a target, whether it is a hub, and its degree.
#[derive(Debug, Clone)]
pub struct ManifestNode {
    pub path: String,
    pub title: String,
    pub description: String,
    pub relevance_bits: u32,
    pub hop: u32,
    pub is_hub: bool,
    pub degree: usize,
}

/// A community of notes: its id, title and summary, how many members it has and how many of
/// them are targets, and its confidence (the bit pattern of a 32-bit float).
#[derive(Debug, Clone)]
pub struct ManifestCommunity {
    pub id: String,
    pub title: String,
    pub summary: String,
    pub member_count: usize,
    pub overlap_with_targets: usize,
    pub confidence_bits: u32,
}

/// The ranked graph context of some target notes, cut to a token budget.
#[derive(Debug, Clone)]
pub struct GraphManifest {
    pub builder_version: u32,
    pub total_nodes: usize,
    pub token_budget: usize,
    pub total_tokens: usize,
    pub truncated: bool,
    pub omitted_neighbors: usize,
    pub omitted_communities: usize,
    pub nodes: Vec<ManifestNode>,
    pub communities: Vec<ManifestCommunity>,
}

/// The header the manifest's token count starts from.
pub const MANIFEST_HEADER: &'static str =
    "[manifest]\nbuilder_version = 2\ntotal_nodes = 0\ntoken_budget = 0\ntotal_tokens = 0\ntruncated = false\n";

/// The tokens a node takes: those of its path, title and description, and ten more.
pub open spec fn node_tokens(n: ManifestNode) -> int {
    token_estimate(n.path@) + token_estimate(n.title@) + token_estimate(n.description@) + 10
}

/// The tokens the first `k` nodes take.
pub open spec fn tokens_before(ns: Seq<ManifestNode>, k: int) -> int
    decreases k,
{
    if k <= 0 {
        0
    } else {
        tokens_before(ns, k - 1) + node_tokens(ns[k - 1])
    }
}

/// The number of nodes kept: counting from `i`, the first whose tokens would take the total
/// past the budget, or all of them.
pub open spec fn kept_from(ns: Seq<ManifestNode>, header: int, budget: int, i: int) -> int
    decreases ns.len() - i,
{
    if i >= ns.len() {
        ns.len() as int
    } else if header + tokens_before(ns, i + 1) > budget {
        i
    } else {
        kept_from(ns, header, budget, i + 1)
    }
}

/// The node that stands for the ones the budget left out.
pub open spec fn truncation_marker(omitted: nat) -> (Seq<char>, Seq<char>, Seq<char>) {
    ("[truncated]"@, "[truncated]"@, decimal(omitted) + " neighbors + communities omitted due to token budget"@)
}

/// The manifest of ranked candidates and communities within a budget: the candidates are kept
/// in order while the header and their tokens fit; where one does not, the rest are left out,
/// a marker says how many, and the communities are left out too.
pub open spec fn is_budgeted_manifest(m: GraphManifest, ns: Seq<ManifestNode>, cs: Seq<ManifestCommunity>, budget: usize) -> bool {
    let header = token_estimate(MANIFEST_HEADER@);
    let k = kept_from(ns, header, budget as int, 0);
    let truncated = k < ns.len();
    &&& m.builder_version == 2
    &&& m.token_budget == budget
    &&& m.truncated == truncated
    &&& m.total_tokens == header + tokens_before(ns, k)
    &&& m.nodes@.len() == if truncated { k + 1 } else { k }
    &&& m.nodes@.take(k) == ns.take(k)
    &&& truncated ==> {
        let mark = m.nodes@[k];
        let (p, t, d) = truncation_marker((ns.len() - k) as nat);
        &&& mark.path@ == p
        &&& mark.title@ == t
        &&& mark.description@ == d
        &&& mark.relevance_bits == 0
        &&& mark.hop == 0
        &&& !mark.is_hub
        &&& mark.degree == 0
    }
    &&& m.total_nodes == m.nodes@.len()
    &&& m.omitted_neighbors == if truncated { ns.len() - k } else { 0 }
    &&& m.omitted_communities == if truncated && cs.len() > 0 { cs.len() as int } else { 0 }
    &&& m.communities@ == if truncated { Seq::<ManifestCommunity>::empty() } else { cs }
}

proof fn lemma_token_estimate_bound(s: Seq<char>)
    ensures
        0 <= token_estimate(s) <= s.len(),
{
    lemma_ascii_count_bound(s);
}

proof fn lemma_tokens_before_grows(ns: Seq<ManifestNode>, k: int)
    ensures
        tokens_before(ns, k) <= tokens_before(ns, k + 1) || k + 1 <= 0,
        k >= 0 ==> tokens_before(ns, k) >= 0,
    decreases k,
{
    if k > 0 {
        lemma_tokens_before_grows(ns, k - 1);
    }
    if k >= 0 {
        lemma_token_estimate_bound(ns[k].path@);
        lemma_token_estimate_bound(ns[k].title@);
        lemma_token_estimate_bound(ns[k].description@);
    }
}

/// The tokens a node takes, where that number fits.
fn node_tokens_checked(n: &ManifestNode) -> (res: Option<usize>)
    ensures
        match res {
            Some(t) => t == node_tokens(*n),
            None => node_tokens(*n) > usize::MAX,
        },
{
    proof {
        lemma_token_estimate_bound(n.path@);
        lemma_token_estimate_bound(n.title@);
        lemma_token_estimate_bound(n.description@);
    }
    let a = estimate_tokens(n.path.as_str());
    let b = estimate_tokens(n.title.as_str());
    let c = estimate_tokens(n.description.as_str());
    match a.checked_add(b) {
        None => None,
        Some(ab) => match ab.checked_add(c) {
            None => None,
            Some(abc) => abc.checked_add(10),
        },
    }
}

/// A copy of a node.
fn copy_node(n: &ManifestNode) -> (res: ManifestNode)
    ensures
        res == *n,
{
    ManifestNode {
        path: n.path.clone(),
        title: n.title.clone(),
        description: n.description.clone(),
        relevance_bits: n.relevance_bits,
        hop: n.hop,
        is_hub: n.is_hub,
        degree: n.degree,
    }
}

/// Cuts ranked candidates and communities to a token budget: candidates are kept in order
/// while the header and their tokens fit; at the first that does not, the rest are left out,
/// a `[truncated]` node says how many, and the communities are left out as well.
pub fn assemble_manifest(candidates: &Vec<ManifestNode>, token_budget: usize, communities: Vec<ManifestCommunity>) -> (res: GraphManifest)
    ensures
        is_budgeted_manifest(res, candidates@, communities@, token_budget),
{
    let ghost ns = candidates@;
    let header = estimate_tokens(MANIFEST_HEADER);
    let ghost h = token_estimate(MANIFEST_HEADER@);
    let mut total: usize = header;
    let mut nodes: Vec<ManifestNode> = Vec::new();
    let n = candidates.len();
    let mut k: usize = 0;
    let mut truncated = false;
    proof {
        lemma_tokens_before_grows(ns, 0);
    }
    while k < n
        invariant_except_break
            k <= n,
            n == ns.len(),
            ns == candidates@,
            h == header,
            kept_from(ns, h, token_budget as int, 0) == kept_from(ns, h, token_budget as int, k as int),
            total == h + tokens_before(ns, k as int),
            nodes@ == ns.take(k as int),
            !truncated,
        ensures
            k <= n,
            nodes@ == ns.take(k as int),
            total == h + tokens_before(ns, k as int),
            kept_from(ns, h, token_budget as int, 0) == k,
            truncated == (k < n),
        decreases n - k,
    {
        let fits = match node_tokens_checked(&candidates[k]) {
            None => None,
            Some(t) => if total > token_budget || t > token_budget - total { None } else { Some(t) },
        };
        proof {
            lemma_tokens_before_grows(ns, k as int);
            lemma_tokens_before_grows(ns, k as int + 1);
        }
        assert(tokens_before(ns, k + 1) == tokens_before(ns, k as int) + node_tokens(ns[k as int]));
        let t = match fits {
            None => {
                assert(h + tokens_before(ns, k + 1) > token_budget);
                truncated = true;
                break;
            },
            Some(t) => t,
        };
        assert(kept_from(ns, h, token_budget as int, k as int) == kept_from(ns, h, token_budget as int, k + 1));
        total = total + t;
        nodes.push(copy_node(&candidates[k]));
        assert(ns.take(k + 1) == ns.take(k as int).push(ns[k as int]));
        k = k + 1;
    }
    let ghost kept = nodes@;
    if truncated {
        let mut d = crate::completion::decimal_text(n - k);
        crate::text::push_str(&mut d, " neighbors + communities omitted due to token budget");
        nodes.push(ManifestNode {
            path: crate::text::owned("[truncated]"),
            title: crate::text::owned("[truncated]"),
            description: string_of(&d),
            relevance_bits: 0,
            hop: 0,
            is_hub: false,
            degree: 0,
        });
        assert(nodes@.take(k as int) == kept);
    }
    assert(nodes@.take(k as int) =~= ns.take(k as int));
    let omitted_communities = if truncated && communities.len() > 0 { communities.len() } else { 0 };
    let total_nodes = nodes.len();
    GraphManifest {
        builder_version: 2,
        total_nodes,
        token_budget,
        total_tokens: total,
        truncated,
        omitted_neighbors: if truncated { n - k } else { 0 },
        omitted_communities,
        nodes,
        communities: if truncated { Vec::new() } else { communities },
    }
}

// ---------------------------------------------------------------------------------------
// The communities a manifest names.
// ---------------------------------------------------------------------------------------

/// A stored community of notes: its id, title, summary, size, confidence (the bit pattern of a
/// 32-bit float) and members.
#[derive(Debug, Clone)]
pub struct CommunityRecord {
    pub id: String,
    pub title: String,
    pub summary: String,
    pub member_count: usize,
    pub confidence_bits: u32,
    pub members: Vec<String>,
}

/// How many of the members are targets (a member listed twice counts twice).
pub open spec fn overlap_of(members: Seq<Seq<char>>, targets: Seq<Seq<char>>) -> nat
    decreases members.len(),
{
    if members.len() == 0 {
        0
    } else {
        overlap_of(members.drop_last(), targets) + if targets.contains(members.last()) {
            1nat
        } else {
            0nat
        }
    }
}

/// Whether record `i` ranks before record `j`: more overlap, or as much and listed earlier.
pub open spec fn ranks_before(ov: Seq<nat>, i: int, j: int) -> bool {
    ov[i] > ov[j] || (ov[i] == ov[j] && i < j)
}

/// `sel` lists the first `min(k, n)` of `n` records in rank order: distinct, ranked one after
/// another, and ahead of every record it leaves out.
pub open spec fn top_ranked(ov: Seq<nat>, sel: Seq<int>, k: nat) -> bool {
    &&& sel.len() == if ov.len() < k { ov.len() } else { k }
    &&& forall|a: int| 0 <= a < sel.len() ==> 0 <= #[trigger] sel[a] < ov.len()
    &&& forall|a: int, b: int| 0 <= a < b < sel.len() ==> ranks_before(ov, #[trigger] sel[a], #[trigger] sel[b])
    &&& forall|j: int, a: int| 0 <= j < ov.len() && !sel.contains(j) && 0 <= a < sel.len() ==> #[trigger] ranks_before(ov, sel[a], j)
}

/// The overlaps of the records with the targets.
pub open spec fn record_overlaps(rs: Seq<CommunityRecord>, targets: Seq<Seq<char>>) -> Seq<nat> {
    rs.map_values(|r: CommunityRecord| overlap_of(strings_view(r.members@), targets))
}

/// How many of the members are targets.
fn count_overlap(members: &Vec<String>, targets: &Vec<String>) -> (res: usize)
    ensures
        res == overlap_of(strings_view(members@), strings_view(targets@)),
{
    let ghost ms = strings_view(members@);
    let mut n: usize = 0;
    let mut i: usize = 0;
    while i < members.len()
        invariant
            i <= members.len(),
            ms == strings_view(members@),
            n == overlap_of(ms.take(i as int), strings_view(targets@)),
            n <= i,
        decreases members.len() - i,
    {
        assert(ms.take(i + 1).drop_last() == ms.take(i as int));
        assert(ms.take(i + 1).last() == members@[i as int]@);
        if contains_string(targets, &members[i]) {
            n = n + 1;
        }
        i = i + 1;
    }
    assert(ms.take(members.len() as int) == ms);
    n
}

/// The first `min(k, n)` records in rank order, given their overlaps.
fn select_top(ov: &Vec<usize>, k: usize) -> (res: Vec<usize>)
    ensures
        top_ranked(ov@.map_values(|x: usize| x as nat), res@.map_values(|x: usize| x as int), k as nat),
{
    let ghost o = ov@.map_values(|x: usize| x as nat);
    let n = ov.len();
    let mut sel: Vec<usize> = Vec::new();
    let mut taken: Vec<bool> = Vec::new();
    let mut z: usize = 0;
    while z < n
        invariant
            z <= n,
            taken@.len() == z,
            forall|q: int| 0 <= q < z ==> !taken@[q],
        decreases n - z,
    {
        taken.push(false);
        z = z + 1;
    }
    while sel.len() < k && sel.len() < n
        invariant
            n == ov.len(),
            o == ov@.map_values(|x: usize| x as nat),
            taken@.len() == n,
            sel.len() <= k,
            sel.len() <= n,
            forall|a: int| 0 <= a < sel.len() ==> (#[trigger] sel@[a] as int) < n && taken@[sel@[a] as int],
            forall|q: int| 0 <= q < n && taken@[q] ==> exists|a: int| 0 <= a < sel.len() && sel@[a] == q,
            forall|a: int, b: int| 0 <= a < b < sel.len() ==> ranks_before(o, #[trigger] sel@[a] as int, #[trigger] sel@[b] as int),
            forall|j: int, a: int| 0 <= j < n && !taken@[j] && 0 <= a < sel.len() ==> #[trigger] ranks_before(o, sel@[a] as int, j),
        decreases n - sel.len(),
    {
        let mut best: usize = n;
        let mut j: usize = 0;
        while j < n
            invariant
                n == ov.len(),
                o == ov@.map_values(|x: usize| x as nat),
                taken@.len() == n,
                j <= n,
                best == n || (best < j && !taken@[best as int]),
                forall|q: int| 0 <= q < j && !taken@[q] ==> best < n && (q == best || ranks_before(o, best as int, q)),
            decreases n - j,
        {
            if !taken[j] {
                if best == n || ov[j] > ov[best] {
                    best = j;
                }
            }
            j = j + 1;
        }
        proof {
            crate::text::lemma_some_free(taken@, sel@, n as int);
        }
        let ghost before_sel = sel@;
        taken.set(best, true);
        sel.push(best);
        proof {
            assert forall|q: int| 0 <= q < n && taken@[q] implies exists|a: int| 0 <= a < sel.len() && sel@[a] == q by {
                if q == best as int {
                    assert(sel@[sel.len() - 1] == q);
                } else {
                    let a = choose|a: int| 0 <= a < before_sel.len() && before_sel[a] == q;
                    assert(sel@[a] == q);
                }
            }
        }
    }
    proof {
        let sv = sel@.map_values(|x: usize| x as int);
        assert forall|j: int, a: int| 0 <= j < n && !sv.contains(j) && 0 <= a < sv.len() implies #[trigger] ranks_before(o, sv[a], j) by {
            if taken@[j] {
                let b = choose|b: int| 0 <= b < sel.len() && sel@[b] == j;
                assert(sv[b] == j);
            }
        }
    }
    sel
}

/// A manifest community made of a stored record and its overlap with the targets.
pub open spec fn carries_record(c: ManifestCommunity, r: CommunityRecord, overlap: nat) -> bool {
    &&& c.id@ == r.id@
    &&& c.title@ == r.title@
    &&& c.summary@ == r.summary@
    &&& c.member_count == r.member_count
    &&& c.overlap_with_targets == overlap
    &&& c.confidence_bits == r.confidence_bits
}

/// The three stored communities that hold the most targets (the earlier listed first among
/// equals), with their overlaps.
pub fn rank_communities(records: &Vec<CommunityRecord>, targets: &Vec<String>) -> (res: Vec<ManifestCommunity>)
    ensures
        ({
            let ov = record_overlaps(records@, strings_view(targets@));
            exists|sel: Seq<int>| {
                &&& #[trigger] top_ranked(ov, sel, 3)
                &&& res@.len() == sel.len()
                &&& forall|a: int| 0 <= a < sel.len() ==> carries_record(#[trigger] res@[a], records@[sel[a]], ov[sel[a]])
            }
        }),
{
    let ghost tv = strings_view(targets@);
    let mut ov: Vec<usize> = Vec::new();
    let mut i: usize = 0;
    while i < records.len()
        invariant
            i <= records.len(),
            tv == strings_view(targets@),
            ov@.len() == i,
            forall|q: int| 0 <= q < i ==> #[trigger] ov@[q] as nat == overlap_of(strings_view(records@[q].members@), tv),
        decreases records.len() - i,
    {
        ov.push(count_overlap(&records[i].members, targets));
        i = i + 1;
    }
    let ghost o = ov@.map_values(|x: usize| x as nat);
    assert(o =~= record_overlaps(records@, tv));
    let sel = select_top(&ov, 3);
    let ghost sv = sel@.map_values(|x: usize| x as int);
    let mut out: Vec<ManifestCommunity> = Vec::new();
    let mut a: usize = 0;
    while a < sel.len()
        invariant
            a <= sel.len(),
            sv == sel@.map_values(|x: usize| x as int),
            o == ov@.map_values(|x: usize| x as nat),
            ov@.len() == records@.len(),
            top_ranked(o, sv, 3),
            out@.len() == a,
            forall|b: int| 0 <= b < a ==> carries_record(#[trigger] out@[b], records@[sv[b]], o[sv[b]]),
        decreases sel.len() - a,
    {
        let k = sel[a];
        assert(sv[a as int] == k as int);
        let r = &records[k];
        out.push(ManifestCommunity {
            id: r.id.clone(),
            title: r.title.clone(),
            summary: r.summary.clone(),
            member_count: r.member_count,
            overlap_with_targets: ov[k],
            confidence_bits: r.confidence_bits,
        });
        a = a + 1;
    }
    out
}


// ---------------------------------------------------------------------------------------
// The notes around the targets, level by level.
// ---------------------------------------------------------------------------------------

/// Whether a note is a hub: more links in and out than the threshold.
pub open spec fn hub_at(g: LinkGraph, id: Seq<char>) -> bool {
    members(g.out_links(), id).len() + members(g.in_links(), id).len() > HUB_DEGREE_THRESHOLD
}

/// `acc` with each of `vs` appended, in order, unless it was seen or is in `acc` already.
pub open spec fn add_fresh(acc: Seq<Seq<char>>, vs: Seq<Seq<char>>, seen: Seq<Seq<char>>) -> Seq<Seq<char>>
    decreases vs.len(),
{
    if vs.len() == 0 {
        acc
    } else {
        let a = add_fresh(acc, vs.drop_last(), seen);
        let v = vs.last();
        if seen.contains(v) || a.contains(v) {
            a
        } else {
            a.push(v)
        }
    }
}

/// The notes first reached from a level: the outgoing neighbours of its notes that are not
/// hubs, in order, each once, leaving out those already seen.
pub open spec fn expand(g: LinkGraph, level: Seq<Seq<char>>, seen: Seq<Seq<char>>) -> Seq<Seq<char>>
    decreases level.len(),
{
    if level.len() == 0 {
        Seq::empty()
    } else {
        let acc = expand(g, level.drop_last(), seen);
        let u = level.last();
        if hub_at(g, u) {
            acc
        } else {
            add_fresh(acc, members(g.out_links(), u), seen)
        }
    }
}

/// Level `k` of the notes around the targets, and every note seen up to it: level 0 is the
/// targets, each once; a level below `max_hops` is expanded into the next; later levels are
/// empty.
pub open spec fn bfs_level(g: LinkGraph, targets: Seq<Seq<char>>, max_hops: nat, k: nat) -> (Seq<Seq<char>>, Seq<Seq<char>>)
    decreases k,
{
    if k == 0 {
        let l0 = add_fresh(Seq::empty(), targets, Seq::empty());
        (l0, l0)
    } else {
        let (prev, seen) = bfs_level(g, targets, max_hops, (k - 1) as nat);
        let next = if k - 1 < max_hops {
            expand(g, prev, seen)
        } else {
            Seq::empty()
        };
        (next, seen + next)
    }
}

/// The notes of levels `0..=k`, each with its level.
pub open spec fn reach_upto(g: LinkGraph, targets: Seq<Seq<char>>, max_hops: nat, k: nat) -> Seq<(Seq<char>, nat)>
    decreases k,
{
    let here = bfs_level(g, targets, max_hops, k).0.map_values(|p: Seq<char>| (p, k));
    if k == 0 {
        here
    } else {
        reach_upto(g, targets, max_hops, (k - 1) as nat) + here
    }
}

/// Appends to `acc` each of `vs`, in order, unless it was seen or is there already.
fn push_fresh(acc: &mut Vec<String>, vs: &Vec<String>, seen: &Vec<String>)
    ensures
        strings_view(final(acc)@) == add_fresh(strings_view(old(acc)@), strings_view(vs@), strings_view(seen@)),
{
    let ghost a0 = strings_view(acc@);
    let ghost vv = strings_view(vs@);
    let mut i: usize = 0;
    while i < vs.len()
        invariant
            i <= vs.len(),
            vv == strings_view(vs@),
            strings_view(acc@) == add_fresh(a0, vv.take(i as int), strings_view(seen@)),
        decreases vs.len() - i,
    {
        assert(vv.take(i + 1).drop_last() == vv.take(i as int));
        assert(vv.take(i + 1).last() == vs@[i as int]@);
        if !contains_string(seen, &vs[i]) && !contains_string(acc, &vs[i]) {
            let ghost before = strings_view(acc@);
            acc.push(vs[i].clone());
            assert(strings_view(acc@) =~= before.push(vs@[i as int]@));
        }
        i = i + 1;
    }
    assert(vv.take(vs.len() as int) == vv);
}

/// The notes first reached from a level.
fn expand_level(g: &LinkGraph, level: &Vec<String>, seen: &Vec<String>) -> (res: Vec<String>)
    requires
        g.well_formed(),
    ensures
        strings_view(res@) == expand(*g, strings_view(level@), strings_view(seen@)),
{
    let ghost lv = strings_view(level@);
    let mut acc: Vec<String> = Vec::new();
    let mut i: usize = 0;
    while i < level.len()
        invariant
            i <= level.len(),
            g.well_formed(),
            lv == strings_view(level@),
            strings_view(acc@) == expand(*g, lv.take(i as int), strings_view(seen@)),
        decreases level.len() - i,
    {
        assert(lv.take(i + 1).drop_last() == lv.take(i as int));
        assert(lv.take(i + 1).last() == level@[i as int]@);
        let u = level[i].as_str();
        let o = g.outgoing_count(u);
        let n = g.incoming_count(u);
        let hub = o > HUB_DEGREE_THRESHOLD || n > HUB_DEGREE_THRESHOLD - o;
        if !hub {
            let vs = g.outgoing_neighbors(u);
            push_fresh(&mut acc, &vs, seen);
        }
        i = i + 1;
    }
    assert(lv.take(level.len() as int) == lv);
    acc
}

/// The notes around the targets, each with how many links it lies from them: the targets at
/// zero, then level by level the outgoing neighbours of notes that are not hubs and lie under
/// `max_hops` links out, each note at the first level that reaches it.
pub fn manifest_reach(g: &LinkGraph, targets: &Vec<String>, max_hops: u32) -> (res: Vec<(String, u32)>)
    requires
        g.well_formed(),
    ensures
        res@.map_values(|p: (String, u32)| (p.0@, p.1 as nat)) == reach_upto(*g, strings_view(targets@), max_hops as nat, max_hops as nat),
{
    let ghost tv = strings_view(targets@);
    let ghost m = max_hops as nat;
    let empty: Vec<String> = Vec::new();
    let mut level: Vec<String> = Vec::new();
    push_fresh(&mut level, targets, &empty);
    assert(strings_view(empty@) =~= Seq::<Seq<char>>::empty());
    let mut seen: Vec<String> = crate::text::copy_strings(&level);
    let mut out: Vec<(String, u32)> = Vec::new();
    let mut j: usize = 0;
    while j < level.len()
        invariant
            j <= level.len(),
            out@.map_values(|p: (String, u32)| (p.0@, p.1 as nat)) == strings_view(level@).take(j as int).map_values(|p: Seq<char>| (p, 0nat)),
        decreases level.len() - j,
    {
        let ghost ob = out@.map_values(|p: (String, u32)| (p.0@, p.1 as nat));
        out.push((level[j].clone(), 0));
        assert(out@.map_values(|p: (String, u32)| (p.0@, p.1 as nat)) =~= ob.push((level@[j as int]@, 0nat)));
        assert(strings_view(level@).take(j + 1) == strings_view(level@).take(j as int).push(level@[j as int]@));
        assert(out@.map_values(|p: (String, u32)| (p.0@, p.1 as nat)) =~= strings_view(level@).take(j + 1).map_values(|p: Seq<char>| (p, 0nat)));
        j = j + 1;
    }
    assert(strings_view(level@).take(level.len() as int) == strings_view(level@));
    let mut k: u32 = 0;
    while k < max_hops
        invariant
            k <= max_hops,
            g.well_formed(),
            tv == strings_view(targets@),
            m == max_hops as nat,
            (strings_view(level@), strings_view(seen@)) == bfs_level(*g, tv, m, k as nat),
            out@.map_values(|p: (String, u32)| (p.0@, p.1 as nat)) == reach_upto(*g, tv, m, k as nat),
        decreases max_hops - k,
    {
        let next = expand_level(g, &level, &seen);
        let ghost before_seen = strings_view(seen@);
        let mut q: usize = 0;
        let ghost out0 = out@.map_values(|p: (String, u32)| (p.0@, p.1 as nat));
        while q < next.len()
            invariant
                q <= next.len(),
                k < max_hops,
                strings_view(seen@) == before_seen + strings_view(next@).take(q as int),
                out@.map_values(|p: (String, u32)| (p.0@, p.1 as nat)) == out0 + strings_view(next@).take(q as int).map_values(|p: Seq<char>| (p, (k + 1) as nat)),
            decreases next.len() - q,
        {
            let ghost s0 = strings_view(seen@);
            seen.push(next[q].clone());
            assert(strings_view(seen@) =~= s0.push(next@[q as int]@));
            let ghost ob = out@.map_values(|p: (String, u32)| (p.0@, p.1 as nat));
            out.push((next[q].clone(), k + 1));
            assert(out@.map_values(|p: (String, u32)| (p.0@, p.1 as nat)) =~= ob.push((next@[q as int]@, (k + 1) as nat)));
            assert(strings_view(next@).take(q + 1) == strings_view(next@).take(q as int).push(next@[q as int]@));
            assert(out@.map_values(|p: (String, u32)| (p.0@, p.1 as nat)) =~= out0 + strings_view(next@).take(q + 1).map_values(|p: Seq<char>| (p, (k + 1) as nat)));
            q = q + 1;
        }
        assert(strings_view(next@).take(next.len() as int) == strings_view(next@));
        level = next;
        k = k + 1;
    }
    out
}

proof fn lemma_add_fresh(acc: Seq<Seq<char>>, vs: Seq<Seq<char>>, seen: Seq<Seq<char>>)
    requires
        acc.no_duplicates(),
        forall|x: Seq<char>| #[trigger] acc.contains(x) ==> !seen.contains(x),
    ensures
        add_fresh(acc, vs, seen).no_duplicates(),
        forall|x: Seq<char>| #[trigger] add_fresh(acc, vs, seen).contains(x) ==> !seen.contains(x),
    decreases vs.len(),
{
    if vs.len() > 0 {
        lemma_add_fresh(acc, vs.drop_last(), seen);
        let a = add_fresh(acc, vs.drop_last(), seen);
        let v = vs.last();
        if !(seen.contains(v) || a.contains(v)) {
            crate::link_graph::lemma_push_no_duplicates(a, v);
            assert forall|x: Seq<char>| #[trigger] a.push(v).contains(x) implies !seen.contains(x) by {
                crate::link_graph::lemma_push_contains(a, v, x);
            }
        }
    }
}

proof fn lemma_expand_fresh(g: LinkGraph, level: Seq<Seq<char>>, seen: Seq<Seq<char>>)
    ensures
        expand(g, level, seen).no_duplicates(),
        forall|x: Seq<char>| #[trigger] expand(g, level, seen).contains(x) ==> !seen.contains(x),
    decreases level.len(),
{
    if level.len() > 0 {
        lemma_expand_fresh(g, level.drop_last(), seen);
        let acc = expand(g, level.drop_last(), seen);
        if !hub_at(g, level.last()) {
            lemma_add_fresh(acc, members(g.out_links(), level.last()), seen);
        }
    }
}

/// The paths of the notes around the targets, level by level.
pub open spec fn reach_paths(g: LinkGraph, targets: Seq<Seq<char>>, max_hops: nat, k: nat) -> Seq<Seq<char>> {
    reach_upto(g, targets, max_hops, k).map_values(|p: (Seq<char>, nat)| p.0)
}

proof fn lemma_reach_distinct(g: LinkGraph, targets: Seq<Seq<char>>, max_hops: nat, k: nat)
    ensures
        reach_paths(g, targets, max_hops, k) == bfs_level(g, targets, max_hops, k).1,
        reach_paths(g, targets, max_hops, k).no_duplicates(),
    decreases k,
{
    let e = Seq::<Seq<char>>::empty();
    if k == 0 {
        lemma_add_fresh(e, targets, e);
        let l0 = add_fresh(e, targets, e);
        assert(reach_paths(g, targets, max_hops, 0) =~= l0);
    } else {
        lemma_reach_distinct(g, targets, max_hops, (k - 1) as nat);
        let (prev, seen) = bfs_level(g, targets, max_hops, (k - 1) as nat);
        let next = bfs_level(g, targets, max_hops, k).0;
        if k - 1 < max_hops {
            lemma_expand_fresh(g, prev, seen);
        } else {
            assert(next =~= e);
        }
        let here = next.map_values(|p: Seq<char>| (p, k));
        assert(reach_paths(g, targets, max_hops, k) =~= seen + next) by {
            assert(reach_upto(g, targets, max_hops, k) == reach_upto(g, targets, max_hops, (k - 1) as nat) + here);
        }
        assert forall|p: int, q: int|
            0 <= p < (seen + next).len() && 0 <= q < (seen + next).len() && p != q implies (seen + next)[p] != (seen
                + next)[q] by {
            if p < seen.len() && q >= seen.len() {
                assert(next.contains((seen + next)[q]));
                assert(seen.contains((seen + next)[p]));
            } else if q < seen.len() && p >= seen.len() {
                assert(next.contains((seen + next)[p]));
                assert(seen.contains((seen + next)[q]));
            } else if p >= seen.len() {
                assert((seen + next)[p] == next[p - seen.len()]);
                assert((seen + next)[q] == next[q - seen.len()]);
            }
        }
    }
}

proof fn lemma_kept_fits(ns: Seq<ManifestNode>, header: int, budget: int, i: int)
    requires
        0 <= i <= ns.len(),
    ensures
        i <= kept_from(ns, header, budget, i) <= ns.len(),
        kept_from(ns, header, budget, i) > i ==> header + tokens_before(ns, kept_from(ns, header, budget, i)) <= budget,
    decreases ns.len() - i,
{
    if i < ns.len() && header + tokens_before(ns, i + 1) <= budget {
        lemma_kept_fits(ns, header, budget, i + 1);
    }
}

/// The paths of a list of manifest nodes.
pub open spec fn node_paths(ns: Seq<ManifestNode>) -> Seq<Seq<char>> {
    ns.map_values(|n: ManifestNode| n.path@)
}

/// A manifest is built from the notes around the targets: whatever order their scores put
/// them in, once cut to the budget its node paths are distinct; it is cut exactly when its
/// last node is the `[truncated]` marker; a cut manifest names no communities and its kept
/// nodes and omitted neighbours add up to the notes reached; an uncut one holds every note
/// reached, in the ranked order, and omits none; and where it keeps a note, its tokens stay
/// within the budget.
pub proof fn lemma_manifest_covers_reach(
    g: LinkGraph,
    targets: Seq<Seq<char>>,
    max_hops: nat,
    ranked: Seq<ManifestNode>,
    cs: Seq<ManifestCommunity>,
    budget: usize,
    m: GraphManifest,
)
    requires
        node_paths(ranked).to_multiset() == reach_paths(g, targets, max_hops, max_hops).to_multiset(),
        !reach_paths(g, targets, max_hops, max_hops).contains("[truncated]"@),
        is_budgeted_manifest(m, ranked, cs, budget),
    ensures
        m.total_nodes == m.nodes@.len(),
        node_paths(m.nodes@).no_duplicates(),
        m.truncated <==> (m.nodes@.len() > 0 && m.nodes@.last().path@ == "[truncated]"@),
        m.truncated ==> m.communities@.len() == 0 && (m.nodes@.len() - 1) + m.omitted_neighbors == reach_paths(
            g,
            targets,
            max_hops,
            max_hops,
        ).len(),
        !m.truncated ==> node_paths(m.nodes@) == node_paths(ranked) && m.omitted_neighbors == 0,
        (exists|i: int| 0 <= i < m.nodes@.len() && (#[trigger] m.nodes@[i]).path@ != "[truncated]"@) ==> m.total_tokens
            <= budget,
{
    let r = reach_paths(g, targets, max_hops, max_hops);
    let np = node_paths(ranked);
    lemma_reach_distinct(g, targets, max_hops, max_hops);
    let header = token_estimate(MANIFEST_HEADER@);
    let k = kept_from(ranked, header, budget as int, 0);
    lemma_kept_fits(ranked, header, budget as int, 0);
    // The ranked paths are the reached ones, each once.
    assert(np.len() == r.len()) by {
        np.to_multiset_ensures();
        r.to_multiset_ensures();
    }
    assert forall|x: Seq<char>| #[trigger] np.contains(x) <==> r.contains(x) by {
        np.to_multiset_ensures();
        r.to_multiset_ensures();
        assert(np.to_multiset().count(x) == r.to_multiset().count(x));
    }
    assert(np.no_duplicates()) by {
        r.lemma_multiset_has_no_duplicates();
        np.lemma_multiset_has_no_duplicates_conv();
    }
    let mn = m.nodes@;
    assert(mn.take(k) == ranked.take(k));
    assert(forall|i: int| 0 <= i < k ==> #[trigger] mn[i] == ranked[i]) by {
        assert forall|i: int| 0 <= i < k implies #[trigger] mn[i] == ranked[i] by {
            assert(mn.take(k)[i] == ranked.take(k)[i]);
        }
    }
    reveal_strlit("[truncated]");
    assert forall|i: int| 0 <= i < k implies (#[trigger] mn[i]).path@ != "[truncated]"@ by {
        assert(np[i] == ranked[i].path@);
        assert(np.contains(np[i]));
        assert(r.contains(np[i]));
    }
    assert(node_paths(mn).no_duplicates()) by {
        assert forall|p: int, q: int|
            0 <= p < mn.len() && 0 <= q < mn.len() && p != q implies node_paths(mn)[p] != node_paths(mn)[q] by {
            if p < k && q < k {
                assert(np[p] != np[q]);
            } else if p < k {
                assert(mn[p].path@ != "[truncated]"@);
            } else if q < k {
                assert(mn[q].path@ != "[truncated]"@);
            }
        }
    }
    if !m.truncated {
        assert(k == ranked.len());
        assert(node_paths(mn) =~= np) by {
            assert(ranked.take(k) =~= ranked);
        }
        if mn.len() > 0 {
            assert(mn.last().path@ != "[truncated]"@);
        }
    }
    if exists|i: int| 0 <= i < mn.len() && (#[trigger] mn[i]).path@ != "[truncated]"@ {
        let i = choose|i: int| 0 <= i < mn.len() && (#[trigger] mn[i]).path@ != "[truncated]"@;
        assert(k >= 1);
        assert(header + tokens_before(ranked, k) <= budget);
    }
}

// ---------------------------------------------------------------------------------------
// Folder communities, for a vault without stored communities.
// ---------------------------------------------------------------------------------------

/// The bit pattern of the 32-bit float 0.3, the confidence of a folder community.
pub const FOLDER_CONFIDENCE_BITS: u32 = 0x3e99_999au32;

/// The folder of a note path: what comes before its last `/`, or `root`.
pub open spec fn folder_of(p: Seq<char>) -> Seq<char> {
    let k = crate::link_graph::segment_start(p, p.len() as int);
    if k > 0 {
        p.take(k - 1)
    } else {
        "root"@
    }
}

/// The folders of the paths, each once, in the order they first come.
pub open spec fn folders_of(paths: Seq<Seq<char>>) -> Seq<Seq<char>> {
    crate::context::distinct_keys(paths.map_values(|p: Seq<char>| folder_of(p)))
}

/// How many of the paths lie in the folder, and how many of those are targets.
pub open spec fn folder_counts(paths: Seq<Seq<char>>, targets: Seq<Seq<char>>, f: Seq<char>) -> (nat, nat)
    decreases paths.len(),
{
    if paths.len() == 0 {
        (0, 0)
    } else {
        let (c, o) = folder_counts(paths.drop_last(), targets, f);
        let p = paths.last();
        if folder_of(p) == f {
            (c + 1, if targets.contains(p) { o + 1 } else { o })
        } else {
            (c, o)
        }
    }
}

/// Whether folder group `i` ranks before group `j`: more targets, or as many and its folder
/// comes first.
pub open spec fn folder_before(ov: Seq<nat>, fs: Seq<Seq<char>>, i: int, j: int) -> bool {
    ov[i] > ov[j] || (ov[i] == ov[j] && lex_lt(fs[i], fs[j]))
}

/// `sel` lists the first `min(k, n)` of `n` groups in rank order.
pub open spec fn top_folders(ov: Seq<nat>, fs: Seq<Seq<char>>, sel: Seq<int>, k: nat) -> bool {
    &&& sel.len() == if ov.len() < k { ov.len() } else { k }
    &&& forall|a: int| 0 <= a < sel.len() ==> 0 <= #[trigger] sel[a] < ov.len()
    &&& forall|a: int, b: int| 0 <= a < b < sel.len() ==> folder_before(ov, fs, #[trigger] sel[a], #[trigger] sel[b])
    &&& forall|j: int, a: int| 0 <= j < ov.len() && !sel.contains(j) && 0 <= a < sel.len() ==> #[trigger] folder_before(ov, fs, sel[a], j)
}

/// The folder of a note path.
fn folder_text(p: &String) -> (res: String)
    ensures
        res@ == folder_of(p@),
{
    let cs = chars_of(p.as_str());
    let mut k: usize = cs.len();
    while k > 0 && cs[k - 1] != '/'
        invariant
            k <= cs.len(),
            cs@ == p@,
            crate::link_graph::segment_start(p@, p@.len() as int) == crate::link_graph::segment_start(p@, k as int),
        decreases k,
    {
        k = k - 1;
    }
    if k > 0 {
        let d = take_chars(&cs, k - 1);
        string_of(&d)
    } else {
        crate::text::owned("root")
    }
}

/// The folders of the paths, each once, with how many paths lie in each and how many of
/// those are targets.
fn folder_groups(paths: &Vec<String>, targets: &Vec<String>) -> (res: (Vec<String>, Vec<usize>, Vec<usize>))
    ensures
        strings_view(res.0@) == folders_of(strings_view(paths@)),
        res.1@.len() == res.0@.len(),
        res.2@.len() == res.0@.len(),
        forall|i: int| 0 <= i < res.0@.len() ==> (#[trigger] res.1@[i] as nat, res.2@[i] as nat)
            == folder_counts(strings_view(paths@), strings_view(targets@), res.0@[i]@),
{
    let ghost pv = strings_view(paths@);
    let ghost tv = strings_view(targets@);
    let ghost fv = pv.map_values(|p: Seq<char>| folder_of(p));
    let mut folders: Vec<String> = Vec::new();
    let mut i: usize = 0;
    while i < paths.len()
        invariant
            i <= paths.len(),
            pv == strings_view(paths@),
            fv == pv.map_values(|p: Seq<char>| folder_of(p)),
            strings_view(folders@) == crate::context::distinct_keys(fv.take(i as int)),
        decreases paths.len() - i,
    {
        assert(fv.take(i + 1).drop_last() == fv.take(i as int));
        let f = folder_text(&paths[i]);
        assert(fv.take(i + 1).last() == f@);
        if !contains_string(&folders, &f) {
            let ghost before = strings_view(folders@);
            folders.push(f);
            assert(strings_view(folders@) =~= before.push(fv[i as int]));
        }
        i = i + 1;
    }
    assert(fv.take(paths.len() as int) == fv);
    let mut counts: Vec<usize> = Vec::new();
    let mut overlaps: Vec<usize> = Vec::new();
    let mut g: usize = 0;
    while g < folders.len()
        invariant
            g <= folders.len(),
            pv == strings_view(paths@),
            tv == strings_view(targets@),
            counts@.len() == g,
            overlaps@.len() == g,
            forall|q: int| 0 <= q < g ==> (#[trigger] counts@[q] as nat, overlaps@[q] as nat) == folder_counts(pv, tv, folders@[q]@),
        decreases folders.len() - g,
    {
        let mut c: usize = 0;
        let mut o: usize = 0;
        let mut j: usize = 0;
        while j < paths.len()
            invariant
                j <= paths.len(),
                pv == strings_view(paths@),
                tv == strings_view(targets@),
                g < folders.len(),
                (c as nat, o as nat) == folder_counts(pv.take(j as int), tv, folders@[g as int]@),
                o <= c,
                c <= j,
            decreases paths.len() - j,
        {
            assert(pv.take(j + 1).drop_last() == pv.take(j as int));
            assert(pv.take(j + 1).last() == paths@[j as int]@);
            let f = folder_text(&paths[j]);
            if f == folders[g] {
                c = c + 1;
                if contains_string(targets, &paths[j]) {
                    o = o + 1;
                }
            }
            j = j + 1;
        }
        assert(pv.take(paths.len() as int) == pv);
        counts.push(c);
        overlaps.push(o);
        g = g + 1;
    }
    (folders, counts, overlaps)
}

/// The first `min(k, n)` folder groups in rank order, given their overlaps and distinct folders.
fn select_folders(ov: &Vec<usize>, fs: &Vec<String>, k: usize) -> (res: Vec<usize>)
    requires
        fs@.len() == ov@.len(),
        strings_view(fs@).no_duplicates(),
    ensures
        top_folders(ov@.map_values(|x: usize| x as nat), strings_view(fs@), res@.map_values(|x: usize| x as int), k as nat),
{
    let ghost o = ov@.map_values(|x: usize| x as nat);
    let ghost f = strings_view(fs@);
    let n = ov.len();
    let mut sel: Vec<usize> = Vec::new();
    let mut taken: Vec<bool> = Vec::new();
    let mut z: usize = 0;
    while z < n
        invariant
            z <= n,
            taken@.len() == z,
            forall|q: int| 0 <= q < z ==> !taken@[q],
        decreases n - z,
    {
        taken.push(false);
        z = z + 1;
    }
    while sel.len() < k && sel.len() < n
        invariant
            n == ov.len(),
            n == fs.len(),
            o == ov@.map_values(|x: usize| x as nat),
            f == strings_view(fs@),
            f.no_duplicates(),
            taken@.len() == n,
            sel.len() <= k,
            sel.len() <= n,
            forall|a: int| 0 <= a < sel.len() ==> (#[trigger] sel@[a] as int) < n && taken@[sel@[a] as int],
            forall|q: int| 0 <= q < n && taken@[q] ==> #[trigger] crate::text::picked(sel@, q),
            forall|a: int, b: int| 0 <= a < b < sel.len() ==> folder_before(o, f, #[trigger] sel@[a] as int, #[trigger] sel@[b] as int),
            forall|j: int, a: int| 0 <= j < n && !taken@[j] && 0 <= a < sel.len() ==> #[trigger] folder_before(o, f, sel@[a] as int, j),
        decreases n - sel.len(),
    {
        proof {
            assert forall|q: int| 0 <= q < n && taken@[q] implies exists|a: int| 0 <= a < sel@.len() && sel@[a] == q by {
                assert(crate::text::picked(sel@, q));
            }
            crate::text::lemma_some_free(taken@, sel@, n as int);
        }
        let mut best: usize = n;
        let mut j: usize = 0;
        while j < n
            invariant
                n == ov.len(),
                n == fs.len(),
                o == ov@.map_values(|x: usize| x as nat),
                f == strings_view(fs@),
                f.no_duplicates(),
                taken@.len() == n,
                j <= n,
                best == n || (best < j && !taken@[best as int]),
                forall|q: int| 0 <= q < j && !taken@[q] ==> best < n && (q == best || folder_before(o, f, best as int, q)),
            decreases n - j,
        {
            if !taken[j] {
                let better = best == n || ov[j] > ov[best] || (ov[j] == ov[best] && crate::text::text_lt(fs[j].as_str(), fs[best].as_str()));
                if better {
                    proof {
                        if best < n {
                            assert forall|q: int| 0 <= q < j && !taken@[q] implies (q == j || folder_before(o, f, j as int, q)) by {
                                if q != best as int && o[j as int] == o[best as int] && o[best as int] == o[q] {
                                    crate::text::lemma_lex_transitive(f[j as int], f[best as int], f[q]);
                                }
                            }
                        }
                    }
                    best = j;
                } else {
                    proof {
                        assert(f[j as int] != f[best as int]);
                        crate::text::lemma_lex_total(f[j as int], f[best as int]);
                    }
                }
            }
            j = j + 1;
        }
        let ghost before_sel = sel@;
        taken.set(best, true);
        sel.push(best);
        proof {
            assert forall|q: int| 0 <= q < n && taken@[q] implies #[trigger] crate::text::picked(sel@, q) by {
                if q == best as int {
                    assert(sel@[sel.len() - 1] == q);
                } else {
                    assert(crate::text::picked(before_sel, q));
                    let a = choose|a: int| 0 <= a < before_sel.len() && before_sel[a] == q;
                    assert(sel@[a] == q);
                }
            }
        }
    }
    proof {
        let sv = sel@.map_values(|x: usize| x as int);
        assert forall|j: int, a: int| 0 <= j < n && !sv.contains(j) && 0 <= a < sv.len() implies #[trigger] folder_before(o, f, sv[a], j) by {
            if taken@[j] {
                assert(crate::text::picked(sel@, j));
                let b = choose|b: int| 0 <= b < sel.len() && sel@[b] == j;
                assert(sv[b] == j);
            }
        }
    }
    sel
}

/// A folder's text with its slashes turned into underscores.
pub open spec fn underscored(f: Seq<char>) -> Seq<char> {
    f.map_values(|c: char| if c == '/' { '_' } else { c })
}

/// A community made of a folder: named after it, with its size, its targets and the folder
/// confidence.
pub open spec fn folder_community(c: ManifestCommunity, f: Seq<char>, count: nat, overlap: nat) -> bool {
    &&& c.id@ == "cold_"@ + underscored(f)
    &&& c.title@ == "Folder: "@ + f
    &&& c.summary@ == decimal(count) + " notes in folder '"@ + f + "'"@
    &&& c.member_count == count
    &&& c.overlap_with_targets == overlap
    &&& c.confidence_bits == FOLDER_CONFIDENCE_BITS
}

/// The folders that hold at least two of the paths, in the order they first come.
pub open spec fn crowded_folders(paths: Seq<Seq<char>>, targets: Seq<Seq<char>>) -> Seq<Seq<char>> {
    folders_of(paths).filter(|f: Seq<char>| folder_counts(paths, targets, f).0 >= 2)
}

/// The three folders holding at least two notes that hold the most targets (by folder name
/// among equals), as communities.
pub fn cold_communities(paths: &Vec<String>, targets: &Vec<String>) -> (res: Vec<ManifestCommunity>)
    ensures
        ({
            let pv = strings_view(paths@);
            let tv = strings_view(targets@);
            let fs = crowded_folders(pv, tv);
            let ov = fs.map_values(|f: Seq<char>| folder_counts(pv, tv, f).1);
            exists|sel: Seq<int>| {
                &&& #[trigger] top_folders(ov, fs, sel, 3)
                &&& res@.len() == sel.len()
                &&& forall|a: int| 0 <= a < sel.len() ==> folder_community(#[trigger] res@[a], fs[sel[a]], folder_counts(pv, tv, fs[sel[a]]).0, ov[sel[a]])
            }
        }),
{
    let ghost pv = strings_view(paths@);
    let ghost tv = strings_view(targets@);
    let ghost pred = |f: Seq<char>| folder_counts(pv, tv, f).0 >= 2;
    let (folders, counts, overlaps) = folder_groups(paths, targets);
    let ghost all = strings_view(folders@);
    proof {
        crate::context::lemma_distinct_keys_distinct(pv.map_values(|p: Seq<char>| folder_of(p)));
    }
    let mut efs: Vec<String> = Vec::new();
    let mut ecs: Vec<usize> = Vec::new();
    let mut eov: Vec<usize> = Vec::new();
    let mut g: usize = 0;
    while g < folders.len()
        invariant
            g <= folders.len(),
            all == strings_view(folders@),
            all.no_duplicates(),
            counts@.len() == folders@.len(),
            overlaps@.len() == folders@.len(),
            pred == (|f: Seq<char>| folder_counts(pv, tv, f).0 >= 2),
            forall|i: int| 0 <= i < folders@.len() ==> (#[trigger] counts@[i] as nat, overlaps@[i] as nat) == folder_counts(pv, tv, all[i]),
            strings_view(efs@) == all.take(g as int).filter(pred),
            strings_view(efs@).no_duplicates(),
            forall|x: Seq<char>| strings_view(efs@).contains(x) ==> all.take(g as int).contains(x),
            ecs@.len() == efs@.len(),
            eov@.len() == efs@.len(),
            forall|i: int| 0 <= i < efs@.len() ==> (#[trigger] ecs@[i] as nat, eov@[i] as nat) == folder_counts(pv, tv, efs@[i]@),
        decreases folders.len() - g,
    {
        proof {
            assert(all.take(g + 1) == all.take(g as int).push(all[g as int]));
            all.take(g as int).lemma_filter_push(all[g as int], pred);
            assert(counts@[g as int] as nat == folder_counts(pv, tv, all[g as int]).0);
        }
        if counts[g] >= 2 {
            proof {
                assert(!all.take(g as int).contains(all[g as int])) by {
                    if all.take(g as int).contains(all[g as int]) {
                        let q = choose|q: int| 0 <= q < g && all.take(g as int)[q] == all[g as int];
                        assert(all[q] == all[g as int]);
                    }
                }
            }
            let ghost before = strings_view(efs@);
            efs.push(folders[g].clone());
            ecs.push(counts[g]);
            eov.push(overlaps[g]);
            proof {
                assert(strings_view(efs@) =~= before.push(all[g as int]));
                assert forall|x: Seq<char>| strings_view(efs@).contains(x) implies all.take(g + 1).contains(x) by {
                    crate::link_graph::lemma_push_contains(before, all[g as int], x);
                    if before.contains(x) {
                        let q = choose|q: int| 0 <= q < g && all.take(g as int)[q] == x;
                        assert(all.take(g + 1)[q] == x);
                    } else {
                        assert(all.take(g + 1)[g as int] == x);
                    }
                }
                assert forall|a: int, b: int| 0 <= a < b < strings_view(efs@).len() implies strings_view(efs@)[a] != strings_view(efs@)[b] by {
                    if b == strings_view(efs@).len() - 1 {
                        assert(before.contains(before[a]));
                    }
                }
            }
        } else {
            proof {
                assert forall|x: Seq<char>| strings_view(efs@).contains(x) implies all.take(g + 1).contains(x) by {
                    let q = choose|q: int| 0 <= q < g && all.take(g as int)[q] == x;
                    assert(all.take(g + 1)[q] == x);
                }
            }
        }
        g = g + 1;
    }
    assert(all.take(folders.len() as int) == all);
    let ghost fs = strings_view(efs@);
    let ghost ov = fs.map_values(|f: Seq<char>| folder_counts(pv, tv, f).1);
    assert forall|i: int| 0 <= i < eov@.len() implies eov@.map_values(|x: usize| x as nat)[i] == ov[i] by {
        assert(fs[i] == efs@[i]@);
        assert((ecs@[i] as nat, eov@[i] as nat) == folder_counts(pv, tv, efs@[i]@));
    }
    assert(eov@.map_values(|x: usize| x as nat) =~= ov);
    let sel = select_folders(&eov, &efs, 3);
    let ghost sv = sel@.map_values(|x: usize| x as int);
    let mut out: Vec<ManifestCommunity> = Vec::new();
    let mut a: usize = 0;
    while a < sel.len()
        invariant
            a <= sel.len(),
            sv == sel@.map_values(|x: usize| x as int),
            fs == strings_view(efs@),
            ov == fs.map_values(|f: Seq<char>| folder_counts(pv, tv, f).1),
            eov@.len() == efs@.len(),
            ecs@.len() == efs@.len(),
            forall|i: int| 0 <= i < efs@.len() ==> (#[trigger] ecs@[i] as nat, eov@[i] as nat) == folder_counts(pv, tv, efs@[i]@),
            top_folders(ov, fs, sv, 3),
            out@.len() == a,
            forall|b: int| 0 <= b < a ==> folder_community(#[trigger] out@[b], fs[sv[b]], folder_counts(pv, tv, fs[sv[b]]).0, ov[sv[b]]),
        decreases sel.len() - a,
    {
        let k = sel[a];
        assert(sv[a as int] == k as int);
        let f = &efs[k];
        let mut id = chars_of("cold_");
        let fc = chars_of(f.as_str());
        let mut q: usize = 0;
        let ghost head = id@;
        while q < fc.len()
            invariant
                q <= fc.len(),
                fc@ == f@,
                id@ == head + underscored(fc@.take(q as int)),
            decreases fc.len() - q,
        {
            let c = fc[q];
            id.push(if c == '/' { '_' } else { c });
            assert(underscored(fc@.take(q + 1)) =~= underscored(fc@.take(q as int)).push(if c == '/' { '_' } else { c }));
            q = q + 1;
        }
        assert(fc@.take(fc.len() as int) == fc@);
        let mut title = chars_of("Folder: ");
        crate::text::push_str(&mut title, f.as_str());
        let mut summary = crate::completion::decimal_text(ecs[k]);
        crate::text::push_str(&mut summary, " notes in folder '");
        crate::text::push_str(&mut summary, f.as_str());
        crate::text::push_str(&mut summary, "'");
        out.push(ManifestCommunity {
            id: string_of(&id),
            title: string_of(&title),
            summary: string_of(&summary),
            member_count: ecs[k],
            overlap_with_targets: eov[k],
            confidence_bits: FOLDER_CONFIDENCE_BITS,
        });
        a = a + 1;
    }
    assert(fs == crowded_folders(pv, tv));
    out
}

} // verus!

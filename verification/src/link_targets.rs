//! Resolution of link targets written in notes (wikilinks and front-matter links) to the
//! paths of the vault's notes, and of front-matter edge types to graph edge types.
//!
//! The known note paths and the front-matter ids are handed in as lists; where several known
//! paths share a stem, the first in the list is the one a link resolves to.

use vstd::prelude::*;
use crate::text::{
    all_ascii, ascii_lower, chars_of, ends_with, has_suffix, lowercase_of, push_str, seq_eq,
    string_of, strings_view, to_ascii_lowercase, to_lowercase, trim, trim_chars, contains_string,
};
use crate::link_graph::{
    add_member, file_stem, file_stem_of, put_edge, EdgeView, GraphEdgeType, LinkGraph,
    FULL_CONFIDENCE_BITS,
};

verus! {

/// The text with every backslash turned into a forward slash.
pub open spec fn forward_slashes(s: Seq<char>) -> Seq<char> {
    s.map_values(|c: char| if c == '\\' { '/' } else { c })
}

/// A link target as written, trimmed and with forward slashes.
pub open spec fn normalized_target(t: Seq<char>) -> Seq<char> {
    forward_slashes(trim(t))
}

/// The path with `.md` appended unless it already ends so.
pub open spec fn with_md(n: Seq<char>) -> Seq<char> {
    if has_suffix(n, ".md"@) {
        n
    } else {
        n + ".md"@
    }
}

/// Whether a path's stem matches `lower`, ignoring the case of ASCII letters.
pub open spec fn stem_matches(path: Seq<char>, lower: Seq<char>) -> bool {
    ascii_lower(file_stem(path)) == ascii_lower(lower)
}

/// The first known path whose stem matches `lower`.
pub open spec fn first_stem_match(known: Seq<Seq<char>>, lower: Seq<char>) -> Option<Seq<char>>
    decreases known.len(),
{
    if known.len() == 0 {
        None
    } else if stem_matches(known[0], lower) {
        Some(known[0])
    } else {
        first_stem_match(known.drop_first(), lower)
    }
}

/// Where a wikilink target resolves to among the known paths: the empty text stays empty; an
/// exact known path (with `.md` added where missing) is taken as it is; otherwise the first
/// known path with the same stem, case aside; otherwise the target with `.md`.
pub open spec fn resolved_wikilink(target: Seq<char>, known: Seq<Seq<char>>) -> Seq<char> {
    let n = normalized_target(target);
    let w = with_md(n);
    if n.len() == 0 {
        n
    } else if known.contains(w) {
        w
    } else {
        match first_stem_match(known, lowercase_of(file_stem(w))) {
            Some(p) => p,
            None => w,
        }
    }
}

/// The first value stored under `key` in an association list.
pub open spec fn lookup_first(pairs: Seq<(Seq<char>, Seq<char>)>, key: Seq<char>) -> Option<Seq<char>>
    decreases pairs.len(),
{
    if pairs.len() == 0 {
        None
    } else if pairs[0].0 == key {
        Some(pairs[0].1)
    } else {
        lookup_first(pairs.drop_first(), key)
    }
}

/// The texts of an association list of strings.
pub open spec fn pairs_view(v: Seq<(String, String)>) -> Seq<(Seq<char>, Seq<char>)> {
    v.map_values(|p: (String, String)| (p.0@, p.1@))
}

/// Where a front-matter link target resolves to: a front-matter id names its note's path; a
/// known path is taken as it is; otherwise it resolves as a wikilink does.
pub open spec fn resolved_mdt_target(
    target: Seq<char>,
    known: Seq<Seq<char>>,
    ids: Seq<(Seq<char>, Seq<char>)>,
) -> Seq<char> {
    let n = normalized_target(target);
    match lookup_first(ids, n) {
        Some(p) => p,
        None => if known.contains(n) {
            n
        } else {
            resolved_wikilink(n, known)
        },
    }
}

/// The graph edge type a front-matter edge type name stands for, once lower-cased; any other
/// name is a reference.
pub open spec fn edge_type_named(name: Seq<char>) -> GraphEdgeType {
    if name == "parent"@ {
        GraphEdgeType::Parent
    } else if name == "reference"@ {
        GraphEdgeType::Reference
    } else if name == "related"@ {
        GraphEdgeType::Related
    } else if name == "source"@ {
        GraphEdgeType::Source
    } else if name == "sequence"@ {
        GraphEdgeType::Sequence
    } else if name == "semantic"@ {
        GraphEdgeType::Semantic
    } else if name == "temporal"@ {
        GraphEdgeType::Temporal
    } else if name == "bridge"@ {
        GraphEdgeType::Bridge
    } else {
        GraphEdgeType::Reference
    }
}

/// Trims a link target and turns its backslashes into forward slashes.
pub fn normalize_target(target: &str) -> (res: Vec<char>)
    ensures
        res@ == normalized_target(target@),
{
    let cs = chars_of(target);
    let t = trim_chars(&cs);
    let mut res: Vec<char> = Vec::new();
    let mut i: usize = 0;
    while i < t.len()
        invariant
            i <= t.len(),
            res@ == forward_slashes(t@.take(i as int)),
        decreases t.len() - i,
    {
        let c = t[i];
        res.push(if c == '\\' { '/' } else { c });
        assert(t@.take(i + 1) == t@.take(i as int).push(c));
        i = i + 1;
    }
    assert(t@.take(t.len() as int) == t@);
    res
}

/// Whether a path's stem matches `lower`, ignoring the case of ASCII letters.
fn stem_matches_exec(path: &String, lower: &[char]) -> (res: bool)
    ensures
        res == stem_matches(path@, lower@),
{
    let stem = file_stem_of(path.as_str());
    let sc = chars_of(stem.as_str());
    let a = to_ascii_lowercase(&sc);
    let b = to_ascii_lowercase(lower);
    seq_eq(&a, &b)
}

/// The first known path whose stem matches `lower`.
fn find_stem_match(known: &Vec<String>, lower: &[char]) -> (res: Option<String>)
    ensures
        match res {
            Some(p) => first_stem_match(strings_view(known@), lower@) == Some(p@),
            None => first_stem_match(strings_view(known@), lower@) is None,
        },
{
    let ghost all = strings_view(known@);
    assert(all.skip(0) == all);
    let mut i: usize = 0;
    while i < known.len()
        invariant
            i <= known.len(),
            all == strings_view(known@),
            first_stem_match(all, lower@) == first_stem_match(all.skip(i as int), lower@),
        decreases known.len() - i,
    {
        assert(all.skip(i as int)[0] == known@[i as int]@);
        assert(all.skip(i as int).drop_first() == all.skip(i + 1));
        if stem_matches_exec(&known[i], lower) {
            return Some(known[i].clone());
        }
        i = i + 1;
    }
    assert(all.skip(i as int).len() == 0);
    None
}

/// Resolves a wikilink target to a note path: an exact known path (with `.md` added where
/// missing) first, then the first known path with the same stem regardless of case, and
/// otherwise the target with `.md`. An empty target stays empty.
pub fn resolve_wikilink_target(target: &str, known_paths: &Vec<String>) -> (res: String)
    ensures
        res@ == resolved_wikilink(target@, strings_view(known_paths@)),
{
    let n = normalize_target(target);
    if n.len() == 0 {
        return string_of(&n);
    }
    let md = chars_of(".md");
    let mut w = n.clone();
    if !ends_with(&n, &md) {
        push_str(&mut w, ".md");
    }
    proof {
        reveal_strlit(".md");
    }
    assert(w@ == with_md(n@));
    let with_ext = string_of(&w);
    if contains_string(known_paths, &with_ext) {
        return with_ext;
    }
    let stem = file_stem_of(with_ext.as_str());
    let lower = to_lowercase(stem.as_str());
    let lc = chars_of(lower.as_str());
    match find_stem_match(known_paths, &lc) {
        Some(p) => p,
        None => with_ext,
    }
}

/// The first value stored under `key`.
fn lookup_pair(pairs: &Vec<(String, String)>, key: &[char]) -> (res: Option<String>)
    ensures
        match res {
            Some(p) => lookup_first(pairs_view(pairs@), key@) == Some(p@),
            None => lookup_first(pairs_view(pairs@), key@) is None,
        },
{
    let ghost all = pairs_view(pairs@);
    assert(all.skip(0) == all);
    let mut i: usize = 0;
    while i < pairs.len()
        invariant
            i <= pairs.len(),
            all == pairs_view(pairs@),
            lookup_first(all, key@) == lookup_first(all.skip(i as int), key@),
        decreases pairs.len() - i,
    {
        assert(all.skip(i as int)[0] == (pairs@[i as int].0@, pairs@[i as int].1@));
        assert(all.skip(i as int).drop_first() == all.skip(i + 1));
        let kc = chars_of(pairs[i].0.as_str());
        if seq_eq(&kc, key) {
            return Some(pairs[i].1.clone());
        }
        i = i + 1;
    }
    assert(all.skip(i as int).len() == 0);
    None
}

/// Resolves a front-matter link target: by front-matter id first, then as a known path, and
/// otherwise as a wikilink.
pub fn resolve_mdt_link_target(
    target: &str,
    known_paths: &Vec<String>,
    id_to_path: &Vec<(String, String)>,
) -> (res: String)
    ensures
        res@ == resolved_mdt_target(target@, strings_view(known_paths@), pairs_view(id_to_path@)),
{
    let n = normalize_target(target);
    match lookup_pair(id_to_path, &n) {
        Some(p) => p,
        None => {
            let normalized = string_of(&n);
            if contains_string(known_paths, &normalized) {
                normalized
            } else {
                proof {
                    assert(normalized_target(normalized@) == normalized@) by {
                        lemma_normalized_is_stable(target@);
                    }
                }
                resolve_wikilink_target(normalized.as_str(), known_paths)
            }
        },
    }
}

/// Normalizing a normalized target changes nothing: it has no white space at either end, and
/// no backslash left.
proof fn lemma_normalized_is_stable(t: Seq<char>)
    ensures
        normalized_target(normalized_target(t)) == normalized_target(t),
{
    let s = trim(t);
    let f = forward_slashes(s);
    crate::text::lemma_skip_ws_bounds(t, 0);
    crate::text::lemma_trim_end_bounds(t, t.len() as int);
    crate::text::lemma_skip_ws_bounds(f, 0);
    crate::text::lemma_trim_end_bounds(f, f.len() as int);
    assert(trim(f) == f);
    assert(forward_slashes(f) == f);
}

/// A link written as the exact path of a known note (already trimmed, with forward slashes
/// and `.md`) resolves to that note.
pub proof fn lemma_known_path_resolves_to_itself(p: Seq<char>, known: Seq<Seq<char>>)
    requires
        known.contains(p),
        normalized_target(p) == p,
        has_suffix(p, ".md"@),
    ensures
        resolved_wikilink(p, known) == p,
        resolved_mdt_target(p, known, Seq::empty()) == p,
{
    reveal_strlit(".md");
}

/// The stem match found among the known paths is one of them, and its stem does match.
proof fn lemma_first_stem_match_is_known(known: Seq<Seq<char>>, lower: Seq<char>)
    ensures
        first_stem_match(known, lower) matches Some(p) ==> known.contains(p) && stem_matches(p, lower),
    decreases known.len(),
{
    if known.len() > 0 && !stem_matches(known[0], lower) {
        lemma_first_stem_match_is_known(known.drop_first(), lower);
        if let Some(p) = first_stem_match(known, lower) {
            let k = choose|k: int| 0 <= k < known.drop_first().len() && known.drop_first()[k] == p;
            assert(known[k + 1] == p);
        }
    } else if known.len() > 0 {
        assert(known[0] == known[0]);
    }
}

/// A non-empty wikilink resolves to a known path whenever some known path has its stem, case
/// aside; that path's stem matches the link's.
pub proof fn lemma_stem_links_land_on_known_paths(t: Seq<char>, known: Seq<Seq<char>>, q: Seq<char>)
    requires
        normalized_target(t).len() > 0,
        known.contains(q),
        stem_matches(q, lowercase_of(file_stem(with_md(normalized_target(t))))),
    ensures
        known.contains(resolved_wikilink(t, known)),
{
    let lower = lowercase_of(file_stem(with_md(normalized_target(t))));
    lemma_first_stem_match_is_known(known, lower);
    lemma_stem_match_exists(known, lower, q);
}

/// Where some known path matches, the search finds one.
proof fn lemma_stem_match_exists(known: Seq<Seq<char>>, lower: Seq<char>, q: Seq<char>)
    requires
        known.contains(q),
        stem_matches(q, lower),
    ensures
        first_stem_match(known, lower) is Some,
    decreases known.len(),
{
    if !stem_matches(known[0], lower) {
        let k = choose|k: int| 0 <= k < known.len() && known[k] == q;
        assert(k != 0);
        assert(known.drop_first()[k - 1] == q);
        lemma_stem_match_exists(known.drop_first(), lower, q);
    }
}

/// Maps a front-matter edge type name, trimmed and lower-cased, to a graph edge type; any name
/// it does not know is a reference.
pub fn graph_edge_type_from_mdt(edge_type: &str) -> (res: GraphEdgeType)
    ensures
        res == edge_type_named(lowercase_of(trim(edge_type@))),
{
    let cs = chars_of(edge_type);
    let t = trim_chars(&cs);
    let ts = string_of(&t);
    let lower = to_lowercase(ts.as_str());
    let l = chars_of(lower.as_str());
    if crate::text::chars_are(&l, "parent") {
        GraphEdgeType::Parent
    } else if crate::text::chars_are(&l, "reference") {
        GraphEdgeType::Reference
    } else if crate::text::chars_are(&l, "related") {
        GraphEdgeType::Related
    } else if crate::text::chars_are(&l, "source") {
        GraphEdgeType::Source
    } else if crate::text::chars_are(&l, "sequence") {
        GraphEdgeType::Sequence
    } else if crate::text::chars_are(&l, "semantic") {
        GraphEdgeType::Semantic
    } else if crate::text::chars_are(&l, "temporal") {
        GraphEdgeType::Temporal
    } else if crate::text::chars_are(&l, "bridge") {
        GraphEdgeType::Bridge
    } else {
        GraphEdgeType::Reference
    }
}

/// A link declared in a note's front matter: its target, its edge type name, and its
/// confidence as the bit pattern of a 32-bit float, where one was given.
#[derive(Debug, Clone)]
pub struct MdtLink {
    pub target: String,
    pub edge_type: String,
    pub confidence_bits: Option<u32>,
}

/// The edge a front-matter link of `source` adds to the graph.
pub open spec fn mdt_edge(
    source: Seq<char>,
    link: MdtLink,
    known: Seq<Seq<char>>,
    ids: Seq<(Seq<char>, Seq<char>)>,
) -> EdgeView {
    EdgeView {
        from: source,
        to: resolved_mdt_target(link.target@, known, ids),
        edge_type: edge_type_named(lowercase_of(trim(link.edge_type@))),
        origin: "frontmatter"@,
        confidence_bits: match link.confidence_bits {
            Some(b) => b,
            None => FULL_CONFIDENCE_BITS,
        },
        weight_bits: None,
        memory_region: None,
    }
}

/// The edge list after the front-matter links of `source` are added, in order.
pub open spec fn edges_with_mdt_links(
    edges: Seq<EdgeView>,
    source: Seq<char>,
    links: Seq<MdtLink>,
    known: Seq<Seq<char>>,
    ids: Seq<(Seq<char>, Seq<char>)>,
) -> Seq<EdgeView>
    decreases links.len(),
{
    if links.len() == 0 {
        edges
    } else {
        put_edge(
            edges_with_mdt_links(edges, source, links.drop_last(), known, ids),
            mdt_edge(source, links.last(), known, ids),
        )
    }
}

/// The outgoing links after the front-matter links of `source` are added, in order.
pub open spec fn out_with_mdt_links(
    out: Seq<(Seq<char>, Seq<Seq<char>>)>,
    source: Seq<char>,
    links: Seq<MdtLink>,
    known: Seq<Seq<char>>,
    ids: Seq<(Seq<char>, Seq<char>)>,
) -> Seq<(Seq<char>, Seq<Seq<char>>)>
    decreases links.len(),
{
    if links.len() == 0 {
        out
    } else {
        add_member(
            out_with_mdt_links(out, source, links.drop_last(), known, ids),
            source,
            resolved_mdt_target(links.last().target@, known, ids),
        )
    }
}

/// The incoming links after the front-matter links of `source` are added, in order.
pub open spec fn in_with_mdt_links(
    inc: Seq<(Seq<char>, Seq<Seq<char>>)>,
    source: Seq<char>,
    links: Seq<MdtLink>,
    known: Seq<Seq<char>>,
    ids: Seq<(Seq<char>, Seq<char>)>,
) -> Seq<(Seq<char>, Seq<Seq<char>>)>
    decreases links.len(),
{
    if links.len() == 0 {
        inc
    } else {
        add_member(
            in_with_mdt_links(inc, source, links.drop_last(), known, ids),
            resolved_mdt_target(links.last().target@, known, ids),
            source,
        )
    }
}

/// Adds the front-matter links of the note at `source_path` to the graph as typed edges with
/// origin `frontmatter`: each target resolved by id, known path or wikilink, each edge type
/// mapped by name, and a missing confidence taken as full.
pub fn add_mdt_frontmatter_links(
    graph: &mut LinkGraph,
    source_path: &str,
    links: &Vec<MdtLink>,
    known_paths: &Vec<String>,
    id_to_path: &Vec<(String, String)>,
)
    requires
        old(graph).well_formed(),
    ensures
        final(graph).well_formed(),
        final(graph).edge_list() == edges_with_mdt_links(
            old(graph).edge_list(),
            source_path@,
            links@,
            strings_view(known_paths@),
            pairs_view(id_to_path@),
        ),
        final(graph).out_links() == out_with_mdt_links(
            old(graph).out_links(),
            source_path@,
            links@,
            strings_view(known_paths@),
            pairs_view(id_to_path@),
        ),
        final(graph).in_links() == in_with_mdt_links(
            old(graph).in_links(),
            source_path@,
            links@,
            strings_view(known_paths@),
            pairs_view(id_to_path@),
        ),
        final(graph).title_list() == old(graph).title_list(),
        old(graph).consistent() ==> final(graph).consistent(),
{
    let ghost known = strings_view(known_paths@);
    let ghost ids = pairs_view(id_to_path@);
    let mut i: usize = 0;
    assert(links@.take(0).len() == 0);
    while i < links.len()
        invariant
            i <= links.len(),
            graph.well_formed(),
            known == strings_view(known_paths@),
            ids == pairs_view(id_to_path@),
            graph.edge_list() == edges_with_mdt_links(
                old(graph).edge_list(),
                source_path@,
                links@.take(i as int),
                known,
                ids,
            ),
            graph.out_links() == out_with_mdt_links(
                old(graph).out_links(),
                source_path@,
                links@.take(i as int),
                known,
                ids,
            ),
            graph.in_links() == in_with_mdt_links(
                old(graph).in_links(),
                source_path@,
                links@.take(i as int),
                known,
                ids,
            ),
            graph.title_list() == old(graph).title_list(),
            old(graph).consistent() ==> graph.consistent(),
        decreases links.len() - i,
    {
        let link = &links[i];
        let target = resolve_mdt_link_target(link.target.as_str(), known_paths, id_to_path);
        let edge_type = graph_edge_type_from_mdt(link.edge_type.as_str());
        let confidence_bits = match link.confidence_bits {
            Some(b) => b,
            None => FULL_CONFIDENCE_BITS,
        };
        graph.add_typed_link(source_path, target.as_str(), edge_type, "frontmatter", confidence_bits);
        proof {
            reveal_strlit("frontmatter");
            assert(links@.take(i + 1).drop_last() == links@.take(i as int));
            assert(links@.take(i + 1).last() == links@[i as int]);
        }
        i = i + 1;
    }
    assert(links@.take(links.len() as int) == links@);
}

} // verus!

use feroha::link_graph::LinkGraph;
use feroha::manifest::{
    assemble_manifest, cold_communities, estimate_tokens, FOLDER_CONFIDENCE_BITS, manifest_reach, rank_communities, CommunityRecord,
    ManifestCommunity, ManifestNode, HUB_DEGREE_THRESHOLD, MANIFEST_HEADER,
};

fn make_test_graph() -> LinkGraph {
    let mut g = LinkGraph::new();
    g.add_link("target.md", "a.md");
    g.add_link("target.md", "b.md");
    g.add_link("a.md", "c.md");
    g.add_link("b.md", "d.md");
    g.set_title("target.md", "Target Note");
    g.set_title("a.md", "Note A");
    g.set_title("b.md", "Note B");
    g.set_title("c.md", "Note C");
    g.set_title("d.md", "Note D");
    g
}

fn node(path: &str, title: &str, hop: u32) -> ManifestNode {
    ManifestNode {
        path: path.to_string(),
        title: title.to_string(),
        description: String::new(),
        relevance_bits: 1.0f32.to_bits(),
        hop,
        is_hub: false,
        degree: 1,
    }
}

fn reach(g: &LinkGraph, targets: &[&str], max_hops: u32) -> Vec<(String, u32)> {
    let targets: Vec<String> = targets.iter().map(|s| s.to_string()).collect();
    manifest_reach(g, &targets, max_hops)
}

#[test]
fn reach_of_no_targets_is_empty() {
    let graph = LinkGraph::new();
    assert!(reach(&graph, &[], 2).is_empty());
    let manifest = assemble_manifest(&vec![], 500, vec![]);
    assert_eq!(manifest.nodes.len(), 0);
    assert_eq!(manifest.total_nodes, 0);
    assert!(!manifest.truncated);
}

#[test]
fn reach_lists_targets_then_each_level() {
    let graph = make_test_graph();
    assert_eq!(
        reach(&graph, &["target.md"], 2),
        vec![
            ("target.md".to_string(), 0),
            ("a.md".to_string(), 1),
            ("b.md".to_string(), 1),
            ("c.md".to_string(), 2),
            ("d.md".to_string(), 2),
        ]
    );
    assert_eq!(
        reach(&graph, &["target.md"], 1),
        vec![("target.md".to_string(), 0), ("a.md".to_string(), 1), ("b.md".to_string(), 1)]
    );
    assert_eq!(reach(&graph, &["target.md", "target.md"], 0), vec![("target.md".to_string(), 0)]);
    assert_eq!(
        reach(&graph, &["a.md", "target.md"], 1),
        vec![
            ("a.md".to_string(), 0),
            ("target.md".to_string(), 0),
            ("c.md".to_string(), 1),
            ("b.md".to_string(), 1),
        ]
    );
}

#[test]
fn hubs_are_reached_but_not_expanded() {
    let mut graph = LinkGraph::new();
    graph.add_link("hub.md", "leaf1.md");
    graph.add_link("hub.md", "leaf2.md");
    graph.add_link("hub.md", "leaf3.md");
    graph.add_link("leaf1.md", "hub.md");
    graph.add_link("leaf2.md", "hub.md");
    graph.add_link("leaf3.md", "hub.md");
    for i in 0..20 {
        graph.add_link("hub.md", &format!("extra_{}.md", i));
    }
    assert!(graph.degree("hub.md") > HUB_DEGREE_THRESHOLD);
    assert_eq!(reach(&graph, &["hub.md"], 2), vec![("hub.md".to_string(), 0)]);
}

#[test]
fn budget_cut_leaves_a_truncation_marker() {
    let candidates = vec![
        node("root.md", "Root", 0),
        node("child1.md", "Child 1 with a longish title text here", 1),
        node("child2.md", "Child 2", 1),
        node("child3.md", "Child 3", 1),
    ];
    let community = ManifestCommunity {
        id: "c1".to_string(),
        title: "C".to_string(),
        summary: "S".to_string(),
        member_count: 2,
        overlap_with_targets: 1,
        confidence_bits: 0.3f32.to_bits(),
    };
    let manifest = assemble_manifest(&candidates, 30, vec![community]);
    assert!(manifest.truncated);
    assert!(manifest.nodes.len() >= 1);
    assert!(manifest.nodes.iter().any(|n| n.path == "[truncated]"));
    assert_eq!(manifest.nodes.len(), 1);
    assert_eq!(manifest.nodes[0].description, "4 neighbors + communities omitted due to token budget");
    assert_eq!(manifest.omitted_neighbors, 4);
    assert_eq!(manifest.omitted_communities, 1);
    assert!(manifest.communities.is_empty());
    assert_eq!(manifest.total_tokens, estimate_tokens(MANIFEST_HEADER));
}

#[test]
fn budget_keeps_candidates_in_order_while_they_fit() {
    let candidates = vec![node("a.md", "A", 0), node("b.md", "B", 1), node("c.md", "C", 1)];
    // Header 24 tokens, each of these nodes 11: 24 + 11 + 11 = 46 fits, the third does not.
    assert_eq!(estimate_tokens(MANIFEST_HEADER), 24);
    let manifest = assemble_manifest(&candidates, 50, vec![]);
    assert!(manifest.truncated);
    let paths: Vec<&str> = manifest.nodes.iter().map(|n| n.path.as_str()).collect();
    assert_eq!(paths, vec!["a.md", "b.md", "[truncated]"]);
    assert_eq!(manifest.total_tokens, 46);
    assert_eq!(manifest.total_nodes, 3);
    assert_eq!(manifest.omitted_neighbors, 1);

    let all = assemble_manifest(&candidates, 57, vec![]);
    assert!(!all.truncated);
    assert_eq!(all.nodes.len(), 3);
    assert_eq!(all.total_tokens, 57);
    assert_eq!(all.omitted_neighbors, 0);
    assert_eq!(all.builder_version, 2);
    assert_eq!(all.token_budget, 57);
}

#[test]
fn communities_rank_by_target_overlap_earliest_first() {
    let record = |id: &str, members: &[&str]| CommunityRecord {
        id: id.to_string(),
        title: format!("T{}", id),
        summary: format!("S{}", id),
        member_count: members.len(),
        confidence_bits: 0.8f32.to_bits(),
        members: members.iter().map(|m| m.to_string()).collect(),
    };
    let records = vec![
        record("one", &["x.md"]),
        record("two", &["a.md", "b.md"]),
        record("three", &["a.md"]),
        record("four", &["b.md", "z.md"]),
        record("five", &["a.md", "b.md", "c.md"]),
    ];
    let targets = vec!["a.md".to_string(), "b.md".to_string(), "c.md".to_string()];
    let ranked = rank_communities(&records, &targets);
    let ids: Vec<(String, usize)> = ranked.iter().map(|c| (c.id.clone(), c.overlap_with_targets)).collect();
    assert_eq!(
        ids,
        vec![("five".to_string(), 3), ("two".to_string(), 2), ("three".to_string(), 1)]
    );
    assert_eq!(ranked[0].title, "Tfive");
    assert_eq!(ranked[0].member_count, 3);
    assert!(rank_communities(&vec![], &targets).is_empty());
}

#[test]
fn folder_communities_rank_crowded_folders_by_targets_then_name() {
    let paths: Vec<String> = [
        "top.md", "alone/one.md", "b/x.md", "b/y.md", "a/p.md", "a/q.md", "a/r.md",
        "deep/er/s.md", "deep/er/t.md", "c/u.md", "c/v.md", "root2.md",
    ]
    .iter()
    .map(|s| s.to_string())
    .collect();
    let targets = vec!["b/x.md".to_string(), "a/p.md".to_string(), "deep/er/s.md".to_string(), "top.md".to_string()];
    let found = cold_communities(&paths, &targets);
    let seen: Vec<(String, String, usize, usize)> = found
        .iter()
        .map(|c| (c.id.clone(), c.title.clone(), c.member_count, c.overlap_with_targets))
        .collect();
    assert_eq!(
        seen,
        vec![
            ("cold_a".to_string(), "Folder: a".to_string(), 3, 1),
            ("cold_b".to_string(), "Folder: b".to_string(), 2, 1),
            ("cold_deep_er".to_string(), "Folder: deep/er".to_string(), 2, 1),
        ]
    );
    assert_eq!(found[0].summary, "3 notes in folder 'a'");
    assert_eq!(found[0].confidence_bits, FOLDER_CONFIDENCE_BITS);
    assert_eq!(f32::from_bits(FOLDER_CONFIDENCE_BITS), 0.3);

    let roots: Vec<String> = vec!["x.md".to_string(), "y.md".to_string()];
    let found = cold_communities(&roots, &vec![]);
    assert_eq!(found.len(), 1);
    assert_eq!(found[0].id, "cold_root");
    assert_eq!(found[0].summary, "2 notes in folder 'root'");
}

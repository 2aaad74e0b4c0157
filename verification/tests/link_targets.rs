use feroha::link_graph::{GraphEdgeType, LinkGraph};
use feroha::link_targets::{
    add_mdt_frontmatter_links, graph_edge_type_from_mdt, normalize_target,
    resolve_mdt_link_target, resolve_wikilink_target, MdtLink,
};

fn paths(items: &[&str]) -> Vec<String> {
    items.iter().map(|s| s.to_string()).collect()
}

#[test]
fn frontmatter_links_are_added_as_typed_edges() {
    // The front matter declares one link: target `child`, type `related`, confidence 0.7.
    let links = vec![MdtLink {
        target: "child".to_string(),
        edge_type: "related".to_string(),
        confidence_bits: Some(0.7f32.to_bits()),
    }];
    let known_paths = paths(&["root.md", "child.md"]);
    let id_to_path = vec![("child".to_string(), "child.md".to_string())];
    let mut graph = LinkGraph::new();

    add_mdt_frontmatter_links(&mut graph, "root.md", &links, &known_paths, &id_to_path);

    let graph_data = graph.to_frontend_json();
    assert_eq!(graph_data.edges.len(), 1);
    assert_eq!(graph_data.edges[0].from, "root.md");
    assert_eq!(graph_data.edges[0].to, "child.md");
    assert_eq!(graph_data.edges[0].edge_type, GraphEdgeType::Related);
    assert_eq!(graph_data.edges[0].origin, "frontmatter");
    assert_eq!(f32::from_bits(graph_data.edges[0].confidence_bits), 0.7);
}

#[test]
fn wikilink_resolves_to_exact_known_path_with_extension_added() {
    let known = paths(&["notes/idea.md", "other.md"]);
    assert_eq!(resolve_wikilink_target("notes/idea", &known), "notes/idea.md");
    assert_eq!(resolve_wikilink_target("  notes\\idea.md ", &known), "notes/idea.md");
    assert_eq!(resolve_wikilink_target("other.md", &known), "other.md");
    assert_eq!(resolve_mdt_link_target("other.md", &known, &Vec::new()), "other.md");
}

#[test]
fn wikilink_resolves_by_stem_ignoring_case() {
    let known = paths(&["deep/folder/Idea.md", "other.md"]);
    assert_eq!(resolve_wikilink_target("idea", &known), "deep/folder/Idea.md");
    assert_eq!(resolve_wikilink_target("IDEA", &known), "deep/folder/Idea.md");
}

#[test]
fn wikilink_stem_match_takes_first_known_path() {
    let known = paths(&["a/x.md", "b/X.md"]);
    assert_eq!(resolve_wikilink_target("x", &known), "a/x.md");
}

#[test]
fn wikilink_unknown_target_gets_extension() {
    let known = paths(&["other.md"]);
    assert_eq!(resolve_wikilink_target("missing", &known), "missing.md");
    assert_eq!(resolve_wikilink_target("missing.md", &known), "missing.md");
}

#[test]
fn wikilink_empty_target_stays_empty() {
    let known = paths(&["other.md"]);
    assert_eq!(resolve_wikilink_target("   ", &known), "");
}

#[test]
fn mdt_target_prefers_id_then_known_path_then_wikilink() {
    let known = paths(&["notes/child.md", "raw"]);
    let ids = vec![("child".to_string(), "notes/child.md".to_string())];
    assert_eq!(resolve_mdt_link_target(" child ", &known, &ids), "notes/child.md");
    assert_eq!(resolve_mdt_link_target("raw", &known, &ids), "raw");
    assert_eq!(resolve_mdt_link_target("Child", &known, &ids), "notes/child.md");
    assert_eq!(resolve_mdt_link_target("absent", &known, &ids), "absent.md");
}

#[test]
fn mdt_edge_types_map_by_lowercased_name() {
    assert_eq!(graph_edge_type_from_mdt("Parent"), GraphEdgeType::Parent);
    assert_eq!(graph_edge_type_from_mdt(" related "), GraphEdgeType::Related);
    assert_eq!(graph_edge_type_from_mdt("SOURCE"), GraphEdgeType::Source);
    assert_eq!(graph_edge_type_from_mdt("sequence"), GraphEdgeType::Sequence);
    assert_eq!(graph_edge_type_from_mdt("semantic"), GraphEdgeType::Semantic);
    assert_eq!(graph_edge_type_from_mdt("temporal"), GraphEdgeType::Temporal);
    assert_eq!(graph_edge_type_from_mdt("bridge"), GraphEdgeType::Bridge);
    assert_eq!(graph_edge_type_from_mdt("reference"), GraphEdgeType::Reference);
    assert_eq!(graph_edge_type_from_mdt("cites"), GraphEdgeType::Reference);
}

#[test]
fn mdt_links_without_confidence_get_full_confidence() {
    let links = vec![MdtLink {
        target: "b".to_string(),
        edge_type: "parent".to_string(),
        confidence_bits: None,
    }];
    let known = paths(&["a.md", "b.md"]);
    let mut graph = LinkGraph::new();
    add_mdt_frontmatter_links(&mut graph, "a.md", &links, &known, &Vec::new());
    let data = graph.to_frontend_json();
    assert_eq!(data.edges.len(), 1);
    assert_eq!(data.edges[0].to, "b.md");
    assert_eq!(data.edges[0].edge_type, GraphEdgeType::Parent);
    assert_eq!(f32::from_bits(data.edges[0].confidence_bits), 1.0);
    assert_eq!(graph.get_backlinks("b.md"), vec!["a.md".to_string()]);
}

#[test]
fn normalize_target_trims_and_turns_backslashes() {
    let n: String = normalize_target("  a\\b\\c.md\n").into_iter().collect();
    assert_eq!(n, "a/b/c.md");
}

use feroha::link_graph::{file_stem_of, GraphEdge, GraphEdgeType, LinkGraph};
use std::collections::HashSet;

#[test]
fn test_add_and_get_backlinks() {
    let mut graph = LinkGraph::new();
    graph.add_link("a.md", "b.md");
    graph.add_link("c.md", "b.md");

    let backlinks = graph.get_backlinks("b.md");
    assert_eq!(backlinks.len(), 2);
    assert!(backlinks.contains(&"a.md".to_string()));
    assert!(backlinks.contains(&"c.md".to_string()));
}

#[test]
fn test_rename_note() {
    let mut graph = LinkGraph::new();
    graph.add_link("old.md", "target.md");
    graph.add_link("other.md", "old.md");

    graph.rename_note("old.md", "new.md");

    assert!(graph
        .get_backlinks("target.md")
        .contains(&"new.md".to_string()));
    assert!(graph
        .get_backlinks("new.md")
        .contains(&"other.md".to_string()));
}

#[test]
fn test_remove_note() {
    let mut graph = LinkGraph::new();
    graph.add_link("a.md", "b.md");
    graph.remove_note("a.md");
    assert!(graph.get_backlinks("b.md").is_empty());
}

#[test]
fn test_typed_edges_are_exported() {
    let mut graph = LinkGraph::new();
    graph.add_typed_link("a.md", "b.md", GraphEdgeType::Reference, "wikilink", 1.0f32.to_bits());
    let data = graph.to_frontend_json();
    assert_eq!(data.edges[0].edge_type, GraphEdgeType::Reference);
    assert_eq!(data.edges[0].origin, "wikilink");
    assert_eq!(f32::from_bits(data.edges[0].confidence_bits), 1.0);
}

#[test]
fn test_multiple_edge_types_between_same_nodes_are_preserved() {
    let mut graph = LinkGraph::new();
    graph.add_typed_link("a.md", "b.md", GraphEdgeType::Reference, "wikilink", 1.0f32.to_bits());
    graph.add_typed_link("a.md", "b.md", GraphEdgeType::Bridge, "dream", 0.7f32.to_bits());

    let data = graph.to_frontend_json();
    let types: HashSet<GraphEdgeType> = data
        .edges
        .iter()
        .map(|edge| edge.edge_type)
        .collect();

    assert_eq!(data.edges.len(), 2);
    assert!(types.contains(&GraphEdgeType::Reference));
    assert!(types.contains(&GraphEdgeType::Bridge));
    assert_eq!(f32::from_bits(data.edges[1].confidence_bits), 0.7);
}

#[test]
fn same_typed_edge_is_replaced_not_duplicated() {
    let mut graph = LinkGraph::new();
    graph.add_typed_link("a.md", "b.md", GraphEdgeType::Reference, "wikilink", 1.0f32.to_bits());
    graph.add_typed_link("a.md", "b.md", GraphEdgeType::Reference, "frontmatter", 0.5f32.to_bits());
    let data = graph.to_frontend_json();
    assert_eq!(data.edges.len(), 1);
    assert_eq!(data.edges[0].origin, "frontmatter");
    assert_eq!(graph.get_backlinks("b.md"), vec!["a.md".to_string()]);
}

#[test]
fn remove_link_keeps_notes_and_drops_every_edge_type() {
    let mut graph = LinkGraph::new();
    graph.add_typed_link("a.md", "b.md", GraphEdgeType::Reference, "wikilink", 1.0f32.to_bits());
    graph.add_typed_link("a.md", "b.md", GraphEdgeType::Bridge, "dream", 0.7f32.to_bits());
    graph.add_link("c.md", "b.md");
    graph.remove_link("a.md", "b.md");
    assert_eq!(graph.get_backlinks("b.md"), vec!["c.md".to_string()]);
    assert!(graph.outgoing_neighbors("a.md").is_empty());
    let data = graph.to_frontend_json();
    assert_eq!(data.edges.len(), 1);
    assert_eq!(data.edges[0].from, "c.md");
    let ids: Vec<String> = graph.all_ids();
    assert_eq!(ids, vec!["a.md".to_string(), "c.md".to_string(), "b.md".to_string()]);
}

#[test]
fn remove_note_unlinks_both_directions_and_forgets_title() {
    let mut graph = LinkGraph::new();
    graph.add_link("a.md", "b.md");
    graph.add_link("b.md", "a.md");
    graph.add_link("c.md", "a.md");
    graph.set_title("a.md", "Alpha");
    graph.remove_note("a.md");
    assert!(graph.get_backlinks("b.md").is_empty());
    assert!(graph.outgoing_neighbors("b.md").is_empty());
    assert!(graph.outgoing_neighbors("c.md").is_empty());
    assert_eq!(graph.title_of("a.md"), None);
    assert!(graph.to_frontend_json().edges.is_empty());
}

#[test]
fn counts_and_degree() {
    let mut graph = LinkGraph::new();
    graph.add_link("a.md", "b.md");
    graph.add_link("a.md", "c.md");
    graph.add_link("c.md", "a.md");
    assert_eq!(graph.outgoing_count("a.md"), 2);
    assert_eq!(graph.incoming_count("a.md"), 1);
    assert_eq!(graph.degree("a.md"), 3);
    assert_eq!(graph.degree("missing.md"), 0);
}

#[test]
fn frontend_nodes_use_titles_or_file_stems() {
    let mut graph = LinkGraph::new();
    graph.add_link("notes/alpha.md", "notes/beta.md.md");
    graph.set_title("notes/alpha.md", "Alpha");
    graph.set_title("lonely.md", "Lonely");
    let data = graph.to_frontend_json();
    let ids: Vec<&str> = data.nodes.iter().map(|n| n.id.as_str()).collect();
    assert_eq!(ids, vec!["notes/alpha.md", "notes/beta.md.md", "lonely.md"]);
    assert_eq!(data.nodes[0].title, "Alpha");
    assert_eq!(data.nodes[0].outgoing, 1);
    assert_eq!(data.nodes[1].title, "beta");
    assert_eq!(data.nodes[1].incoming, 1);
    assert_eq!(data.nodes[2].title, "Lonely");
    assert!(data.nodes.iter().all(|n| n.hops.is_none()));
}

#[test]
fn file_stem_takes_last_segment_without_markdown_suffixes() {
    assert_eq!(file_stem_of("a/b/c.md"), "c");
    assert_eq!(file_stem_of("plain"), "plain");
    assert_eq!(file_stem_of("dir/"), "");
    assert_eq!(file_stem_of("x.md.md"), "x");
}

#[test]
fn rename_moves_title_and_edges() {
    let mut graph = LinkGraph::new();
    graph.add_link("old.md", "t.md");
    graph.set_title("old.md", "Old");
    graph.rename_note("old.md", "new.md");
    assert_eq!(graph.title_of("new.md"), Some("Old".to_string()));
    assert_eq!(graph.title_of("old.md"), None);
    assert_eq!(graph.outgoing_neighbors("new.md"), vec!["t.md".to_string()]);
    let data = graph.to_frontend_json();
    assert_eq!(data.edges[0].from, "new.md");
}

#[test]
fn added_graph_edge_keeps_weight_and_region() {
    let mut graph = LinkGraph::new();
    graph.add_graph_edge(GraphEdge {
        from: "a.md".to_string(),
        to: "b.md".to_string(),
        edge_type: GraphEdgeType::Semantic,
        origin: "jsonld".to_string(),
        confidence_bits: 0.9f32.to_bits(),
        weight_bits: Some(2.5f32.to_bits()),
        memory_region: Some("semantic".to_string()),
    });
    let data = graph.to_frontend_json();
    assert_eq!(data.edges[0].weight_bits.map(f32::from_bits), Some(2.5));
    assert_eq!(data.edges[0].memory_region.as_deref(), Some("semantic"));
    assert_eq!(graph.get_backlinks("b.md"), vec!["a.md".to_string()]);
}

#[test]
fn focus_distances_follow_links_both_ways() {
    let mut graph = LinkGraph::new();
    graph.add_link("a.md", "b.md");
    graph.add_link("c.md", "b.md");
    graph.add_link("c.md", "d.md");
    graph.add_link("x.md", "y.md");
    graph.set_title("lonely.md", "Lonely");
    let data = graph.get_graph_with_focus("a.md");
    let hop = |id: &str| data.nodes.iter().find(|n| n.id == id).unwrap().hops;
    assert_eq!(hop("a.md"), Some(0));
    assert_eq!(hop("b.md"), Some(1));
    assert_eq!(hop("c.md"), Some(2));
    assert_eq!(hop("d.md"), Some(3));
    assert_eq!(hop("x.md"), None);
    assert_eq!(hop("y.md"), None);
    assert_eq!(hop("lonely.md"), None);
    assert_eq!(data.nodes.len(), 7);
    assert_eq!(data.edges.len(), 4);
}

#[test]
fn focus_on_unknown_note_reaches_nothing() {
    let mut graph = LinkGraph::new();
    graph.add_link("a.md", "b.md");
    let data = graph.get_graph_with_focus("missing.md");
    assert!(data.nodes.iter().all(|n| n.hops.is_none()));
    assert_eq!(data.nodes.len(), 2);
}

#[test]
fn focus_takes_the_shortest_route() {
    let mut graph = LinkGraph::new();
    graph.add_link("a.md", "b.md");
    graph.add_link("b.md", "c.md");
    graph.add_link("c.md", "d.md");
    graph.add_link("d.md", "a.md");
    let data = graph.get_graph_with_focus("a.md");
    let hop = |id: &str| data.nodes.iter().find(|n| n.id == id).unwrap().hops;
    assert_eq!(hop("c.md"), Some(2));
    assert_eq!(hop("d.md"), Some(1));
}

#[test]
fn rename_leaves_no_reference_to_the_old_name() {
    let mut graph = LinkGraph::new();
    graph.add_link("old.md", "target.md");
    graph.add_link("other.md", "old.md");
    graph.rename_note("old.md", "new.md");
    assert_eq!(graph.get_backlinks("target.md"), vec!["new.md".to_string()]);
    assert_eq!(graph.get_backlinks("new.md"), vec!["other.md".to_string()]);
    assert_eq!(graph.outgoing_neighbors("other.md"), vec!["new.md".to_string()]);
    assert_eq!(graph.outgoing_neighbors("new.md"), vec!["target.md".to_string()]);
    assert!(graph.get_backlinks("old.md").is_empty());
    assert!(graph.outgoing_neighbors("old.md").is_empty());
}

#[test]
fn rename_turns_a_self_link_into_one_of_the_new_name() {
    let mut graph = LinkGraph::new();
    graph.add_link("old.md", "old.md");
    graph.rename_note("old.md", "new.md");
    assert_eq!(graph.outgoing_neighbors("new.md"), vec!["new.md".to_string()]);
    assert_eq!(graph.get_backlinks("new.md"), vec!["new.md".to_string()]);
    assert!(graph.all_ids().iter().all(|id| id != "old.md"));
}

use feroha::backlinks::{backlink_context_of, get_contextual_backlinks};
use feroha::link_graph::LinkGraph;

#[test]
fn test_empty_graph() {
    let graph = LinkGraph::new();
    let backlinks = get_contextual_backlinks(&graph, "nonexistent.md", &vec![]);
    assert!(backlinks.is_empty());
}

#[test]
fn backlink_context_is_the_trimmed_paragraph_around_the_link() {
    let content = "Intro line\n\n  First para mentions [[b]] here.  \nstill first\n\nSecond para";
    let ctx = backlink_context_of("notes/a.md", "notes/b.md", content);
    assert_eq!(ctx.from, "notes/a.md");
    assert_eq!(ctx.from_title, "a");
    assert_eq!(ctx.text, "First para mentions [[b]] here.  \nstill first");
    assert_eq!(ctx.position, content.find("[[b]]").unwrap());
}

#[test]
fn backlink_position_is_a_byte_offset() {
    let content = "Über café → [[target|alias]]";
    let ctx = backlink_context_of("x.md", "target", content);
    assert_eq!(ctx.position, content.find("[[target|").unwrap());
    assert_eq!(ctx.text, content);
}

#[test]
fn id_forms_are_tried_before_stem_forms() {
    let content = "[[b]] and later [[dir/b.md#head]]";
    let ctx = backlink_context_of("a.md", "dir/b.md", content);
    assert_eq!(ctx.position, content.find("[[dir/b.md#").unwrap());
}

#[test]
fn missing_link_text_names_the_link() {
    let ctx = backlink_context_of("a.md", "b.md", "no links here");
    assert_eq!(ctx.text, "Links to [[b.md]]");
    assert_eq!(ctx.position, 0);
}

#[test]
fn contextual_backlinks_follow_backlinks_and_skip_unreadable_sources() {
    let mut graph = LinkGraph::new();
    graph.add_link("a.md", "b.md");
    graph.add_link("c.md", "b.md");
    graph.add_link("d.md", "b.md");
    let contents = vec![
        ("d.md".to_string(), "D links [[b]]".to_string()),
        ("a.md".to_string(), "A links [[b.md]]".to_string()),
    ];
    let result = get_contextual_backlinks(&graph, "b.md", &contents);
    assert_eq!(result.len(), 2);
    assert_eq!(result[0].from, "a.md");
    assert_eq!(result[0].text, "A links [[b.md]]");
    assert_eq!(result[0].position, 8);
    assert_eq!(result[1].from, "d.md");
    assert_eq!(result[1].from_title, "d");
}

use feroha::context::{context_change_counts, ChangeOp, ContextDiff, ContextFragment, ContextLayer, ContextSource};

fn json(text: &str) -> serde_json::Value {
    serde_json::from_str(text).unwrap()
}

fn fragment(id: &str, key: &str, value: &str) -> ContextFragment {
    let v = json(value);
    ContextFragment {
        id: id.to_string(),
        key: key.to_string(),
        hash: ContextFragment::compute_hash(key, &v),
        value: v,
        source: ContextSource::Note,
        layer: ContextLayer::Note,
        created_at: 1,
        ttl: None,
    }
}

#[test]
fn test_context_fragment_hash_consistent() {
    let h1 = ContextFragment::compute_hash("key1", &json("\"value1\""));
    let h2 = ContextFragment::compute_hash("key1", &json("\"value1\""));
    assert_eq!(h1, h2);
    assert_eq!(h1, "89dd70372803b840553f0da7f3cf1c7abe0b71d93f5f8ee61e375963a14a4b0b");
}

/// The drift of a diff: the share of keys that changed.
fn drift(diff: &ContextDiff) -> f32 {
    if diff.key_count == 0 {
        0.0
    } else {
        diff.changed.len() as f32 / diff.key_count as f32
    }
}

#[test]
fn test_context_diff_no_changes() {
    let f1 = fragment("1", "a", "\"v\"");
    let f2 = fragment("1", "a", "\"v\"");
    let diff = ContextDiff::compute(vec![f1], vec![f2]);
    assert_eq!(diff.changed.len(), 0);
    assert_eq!(drift(&diff), 0.0);
}

#[test]
fn test_context_diff_with_changes() {
    let diff = ContextDiff::compute(vec![fragment("1", "a", "\"old\"")], vec![fragment("2", "a", "\"new\"")]);
    assert_eq!(diff.changed.len(), 1);
    assert_eq!(diff.changed[0].op, ChangeOp::Modified);
    assert_eq!(drift(&diff), 1.0);
}

#[test]
fn test_context_diff_added_removed() {
    let diff = ContextDiff::compute(vec![fragment("1", "a", "\"v\"")], vec![fragment("2", "b", "\"v\"")]);
    assert_eq!(diff.changed.len(), 2);
    assert_eq!(drift(&diff), 1.0);
}

#[test]
fn test_context_diff_partial_drift() {
    let prev = vec![fragment("1", "a", "\"v1\""), fragment("2", "b", "\"v2\"")];
    let curr = vec![fragment("3", "a", "\"v1\""), fragment("4", "b", "\"changed\"")];
    let diff = ContextDiff::compute(prev, curr);
    assert_eq!(diff.changed.len(), 1);
    assert_eq!(drift(&diff), 0.5);
}

#[test]
fn diff_lists_changes_in_key_order_with_values_and_last_fragment_wins() {
    let prev = vec![
        fragment("1", "z", "1"),
        fragment("2", "m", "\"old\""),
        fragment("3", "b", "true"),
    ];
    let curr = vec![
        fragment("4", "m", "\"old\""),
        fragment("5", "m", "\"new\""),
        fragment("6", "a", "null"),
        fragment("7", "b", "true"),
    ];
    let diff = ContextDiff::compute(prev, curr);
    let seen: Vec<(String, ChangeOp)> = diff.changed.iter().map(|c| (c.key.clone(), c.op)).collect();
    assert_eq!(
        seen,
        vec![
            ("a".to_string(), ChangeOp::Added),
            ("m".to_string(), ChangeOp::Modified),
            ("z".to_string(), ChangeOp::Removed),
        ]
    );
    assert_eq!(diff.changed[1].old_value, Some(json("\"old\"")));
    assert_eq!(diff.changed[1].new_value, Some(json("\"new\"")));
    assert_eq!(diff.changed[2].old_value, Some(json("1")));
    assert_eq!(diff.changed[2].new_value, None);
    assert_eq!(diff.key_count, 4);
    assert_eq!(context_change_counts(&diff.prev, &diff.curr), (3, 4));
}

#[test]
fn layer_names() {
    assert_eq!(fragment("1", "a", "1").layer_name(), "Note");
}

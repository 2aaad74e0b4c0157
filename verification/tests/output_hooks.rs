use feroha::output_hook::{
    HookTarget, HookTrigger, OutputHook, OutputManager, RAGFilter, DEFAULT_MIN_CONFIDENCE_BITS,
};

fn hook(id: &str, trigger: HookTrigger, enabled: bool) -> OutputHook {
    OutputHook {
        id: id.to_string(),
        name: format!("Hook {}", id),
        trigger,
        target: HookTarget::HttpWebhook { url: "https://example.test/hook".to_string() },
        filter: RAGFilter { min_confidence_bits: 0.5f32.to_bits(), max_chunks: 3, topic_keywords: vec![] },
        enabled,
    }
}

#[test]
fn default_hooks_write_refinements_below_the_output_folder() {
    let manager = OutputManager::load_defaults("/vault/.dualtrack");
    let hooks = manager.list_hooks();
    assert_eq!(hooks.len(), 1);
    assert_eq!(hooks[0].id, "default-file-sink");
    assert_eq!(hooks[0].name, "Default File Output");
    assert!(matches!(hooks[0].trigger, HookTrigger::OnRefineComplete));
    assert!(matches!(&hooks[0].target, HookTarget::FileSink { path } if path == "/vault/.dualtrack/output"));
    assert_eq!(f32::from_bits(hooks[0].filter.min_confidence_bits), 0.7);
    assert_eq!(hooks[0].filter.min_confidence_bits, DEFAULT_MIN_CONFIDENCE_BITS);
    assert_eq!(hooks[0].filter.max_chunks, 10);
    assert!(hooks[0].enabled);
}

#[test]
fn hooks_are_added_in_order_and_removed_by_id() {
    let mut manager = OutputManager::new();
    assert!(manager.list_hooks().is_empty());
    manager.add_hook(hook("a", HookTrigger::OnInsight, true));
    manager.add_hook(hook("b", HookTrigger::OnDreamCycle, true));
    manager.add_hook(hook("a", HookTrigger::OnRefineComplete, true));
    assert!(manager.remove_hook("a"));
    let ids: Vec<String> = manager.list_hooks().into_iter().map(|h| h.id).collect();
    assert_eq!(ids, vec!["b".to_string(), "a".to_string()]);
    assert!(matches!(manager.list_hooks()[1].trigger, HookTrigger::OnRefineComplete));
    assert!(!manager.remove_hook("missing"));
    assert_eq!(manager.list_hooks().len(), 2);
}

#[test]
fn an_event_fires_the_enabled_hooks_with_its_trigger() {
    let mut manager = OutputManager::new();
    manager.add_hook(hook("a", HookTrigger::OnInsight, true));
    manager.add_hook(hook("b", HookTrigger::OnInsight, false));
    manager.add_hook(hook("c", HookTrigger::OnDreamCycle, true));
    manager.add_hook(hook("d", HookTrigger::OnInsight, true));
    assert_eq!(manager.hooks_for(HookTrigger::OnInsight), vec!["a".to_string(), "d".to_string()]);
    assert_eq!(manager.hooks_for(HookTrigger::OnDreamCycle), vec!["c".to_string()]);
    assert!(manager.hooks_for(HookTrigger::OnRefineComplete).is_empty());
}

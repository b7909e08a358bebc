use any_ls::{merge, merge_all, AllHandlers, AnyHandler, CapabilitySet, Just, PropsHandler};

fn set(hover: Option<&str>, completion: Option<&str>) -> CapabilitySet {
    CapabilitySet {
        position_encoding: None,
        text_document_sync: None,
        hover_provider: hover.map(|s| s.to_string()),
        completion_provider: completion.map(|s| s.to_string()),
        diagnostic_provider: None,
    }
}

#[test]
fn first_registered_provider_wins_conflicts() {
    let a = set(Some("simple"), None);
    let b = set(Some("rich"), Some("basic"));
    let merged = merge_all(&vec![a, b]);
    assert_eq!(merged.hover_provider.as_deref(), Some("simple"));
    assert_eq!(merged.completion_provider.as_deref(), Some("basic"));
}

#[test]
fn merge_fills_empty_slots_only() {
    let a = set(Some("simple"), None);
    let b = set(Some("rich"), Some("basic"));
    let m = merge(&a, &b);
    assert_eq!(m.hover_provider.as_deref(), Some("simple"));
    assert_eq!(m.completion_provider.as_deref(), Some("basic"));
    let m2 = merge(&b, &a);
    assert_eq!(m2.hover_provider.as_deref(), Some("rich"));
    assert_eq!(m2.completion_provider.as_deref(), Some("basic"));
}

#[test]
fn merge_of_nothing_is_empty() {
    let merged = merge_all(&vec![]);
    assert_eq!(merged.hover_provider, None);
    assert_eq!(merged.completion_provider, None);
    assert_eq!(merged.diagnostic_provider, None);
    assert_eq!(merged.position_encoding, None);
    assert_eq!(merged.text_document_sync, None);
}

#[test]
fn session_forces_encoding_and_sync_mode() {
    let mut h = AnyHandler::new();
    let caps = h.get_capabilities();
    assert_eq!(caps.position_encoding.as_deref(), Some("utf-16"));
    assert_eq!(caps.text_document_sync.as_deref(), Some("full"));

    h.register(AllHandlers::Just(Just::new(String::new())));
    h.register(AllHandlers::Props(PropsHandler::default()));
    let caps = h.get_capabilities();
    assert_eq!(caps.position_encoding.as_deref(), Some("utf-16"));
    assert_eq!(caps.text_document_sync.as_deref(), Some("full"));
    assert_eq!(caps.hover_provider.as_deref(), Some("simple"));
    assert_eq!(caps.completion_provider.as_deref(), Some("label-details"));
    assert_eq!(caps.diagnostic_provider.as_deref(), Some("options"));
}

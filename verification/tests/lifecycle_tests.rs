use any_ls::{
    aggregate_diagnostics, AllHandlers, AnyHandler, Diagnostic, DocumentStore, HandlerError, Just,
    Position, PropFile, PropsHandler, ProviderKind, ProviderOutcome, Severity,
};

fn server_with_both() -> AnyHandler {
    let mut h = AnyHandler::new();
    h.register(AllHandlers::Just(Just::new(String::new())));
    h.register(AllHandlers::Props(PropsHandler::new(vec![PropFile {
        path: "f".to_string(),
        contents: "FOO=1".to_string(),
    }])));
    h
}

fn one_diag(message: &str) -> Diagnostic {
    Diagnostic {
        start: Position { line: 0, character: 0 },
        end: Position { line: 0, character: 1 },
        severity: Severity::Error,
        message: message.to_string(),
        source: None,
    }
}

#[test]
fn open_with_unknown_filetype_creates_no_entry() {
    let mut h = AnyHandler::new();
    h.register(AllHandlers::Just(Just::new(String::new())));
    let opened = h.open_document(
        "file:///a".to_string(),
        "unknown-filetype".to_string(),
        1,
        "x".to_string(),
    );
    assert!(!opened);
    match h.update_diagnostics("file:///a", vec![]) {
        Err(HandlerError::NoSuchDocument { uri }) => assert_eq!(uri, "file:///a"),
        other => panic!("expected NoSuchDocument, got {:?}", other),
    }
    match h.diagnostics_snapshot("file:///a") {
        Err(HandlerError::NoSuchDocument { .. }) => {},
        other => panic!("expected NoSuchDocument, got {:?}", other),
    }
}

#[test]
fn open_then_close_reports_last_version_for_empty_publish() {
    let mut h = server_with_both();
    assert!(h.open_document("file:///a".to_string(), "just".to_string(), 7, "x".to_string()));
    // Close must direct an empty-diagnostics publish for the last version,
    // even though no diagnostics were ever computed.
    assert_eq!(h.close_document("file:///a"), Some(7));
    // Closing an untracked document still owes the publish, with no version.
    assert_eq!(h.close_document("file:///a"), None);
}

#[test]
fn change_replaces_contents_and_version_wholesale() {
    let mut h = server_with_both();
    assert!(h.open_document("file:///a".to_string(), "just".to_string(), 1, "one".to_string()));
    assert!(h.change_document("file:///a", 2, "two".to_string()));
    let job = h.diagnostics_snapshot("file:///a").unwrap();
    assert_eq!(job.version, 2);
    assert_eq!(job.contents, "two");
    assert!(!h.change_document("file:///missing", 3, "x".to_string()));
}

#[test]
fn assigned_providers_are_resolved_at_open() {
    let mut h = server_with_both();
    assert!(h.open_document("file:///a".to_string(), "just".to_string(), 1, String::new()));
    let job = h.diagnostics_snapshot("file:///a").unwrap();
    assert_eq!(job.providers, vec![ProviderKind::Just, ProviderKind::Props]);

    assert!(h.open_document("file:///b".to_string(), "python".to_string(), 1, String::new()));
    let job = h.diagnostics_snapshot("file:///b").unwrap();
    assert_eq!(job.providers, vec![ProviderKind::Props]);
}

#[test]
fn stale_results_are_not_published() {
    let mut h = server_with_both();
    assert!(h.open_document("file:///a".to_string(), "just".to_string(), 1, String::new()));
    assert!(h.should_publish("file:///a", 1));
    assert!(h.change_document("file:///a", 2, String::new()));
    assert!(!h.should_publish("file:///a", 1));
    assert!(h.should_publish("file:///a", 2));
    h.close_document("file:///a");
    assert!(!h.should_publish("file:///a", 2));
}

#[test]
fn aggregation_concatenates_successes_in_provider_order() {
    let outcomes = vec![
        ProviderOutcome::Produced(vec![one_diag("first")]),
        ProviderOutcome::Failed(HandlerError::Log("ignored".to_string())),
        ProviderOutcome::Produced(vec![one_diag("second")]),
    ];
    let ds = aggregate_diagnostics(outcomes).unwrap();
    assert_eq!(ds.len(), 2);
    assert_eq!(ds[0].message, "first");
    assert_eq!(ds[1].message, "second");
}

#[test]
fn aggregation_keeps_empty_success_over_failures() {
    // One provider succeeding with an empty list means success, not the
    // other provider's failure.
    let outcomes = vec![
        ProviderOutcome::Failed(HandlerError::Log("boom".to_string())),
        ProviderOutcome::Produced(vec![]),
    ];
    assert_eq!(aggregate_diagnostics(outcomes).unwrap(), vec![]);
}

#[test]
fn aggregation_surfaces_last_failure_when_all_fail() {
    let outcomes = vec![
        ProviderOutcome::Failed(HandlerError::Log("first".to_string())),
        ProviderOutcome::Failed(HandlerError::Log("last".to_string())),
    ];
    match aggregate_diagnostics(outcomes) {
        Err(HandlerError::Log(msg)) => assert_eq!(msg, "last"),
        other => panic!("expected the last failure, got {:?}", other),
    }
}

#[test]
fn aggregation_of_no_outcomes_is_empty() {
    assert_eq!(aggregate_diagnostics(vec![]).unwrap(), vec![]);
}

#[test]
fn hover_routes_to_definition_provider() {
    let mut h = server_with_both();
    assert!(h.open_document("file:///a".to_string(), "just".to_string(), 1, "FOO=1".to_string()));
    let out = h.hover("file:///a", Position { line: 0, character: 1 }).unwrap();
    assert_eq!(out.unwrap(), "f\nFOO = 1");
    let out = h.hover("file:///a", Position { line: 0, character: 3 }).unwrap();
    assert!(out.is_none());
}

#[test]
fn hover_on_unknown_document_is_an_error() {
    let h = server_with_both();
    match h.hover("file:///nope", Position { line: 0, character: 0 }) {
        Err(HandlerError::NoSuchDocument { uri }) => assert_eq!(uri, "file:///nope"),
        other => panic!("expected NoSuchDocument, got {:?}", other),
    }
}

#[test]
fn error_messages_render() {
    let e = HandlerError::NoSuchDocument { uri: "file:///x".to_string() };
    assert_eq!(e.message(), "No such document: file:///x");
    let e = HandlerError::Log("plain".to_string());
    assert_eq!(e.message(), "plain");
}

#[test]
fn document_store_tracks_entries() {
    let mut store = DocumentStore::new();
    assert!(!store.contains("file:///a"));
    assert!(store.get("file:///a").is_none());
    // Opening with no providers creates no entry.
    assert!(!store.open("file:///a".to_string(), "x".to_string(), 1, "t".to_string(), vec![]));
    assert!(!store.contains("file:///a"));
    assert!(store.open(
        "file:///a".to_string(),
        "just".to_string(),
        1,
        "t".to_string(),
        vec![ProviderKind::Just],
    ));
    let doc = store.get("file:///a").unwrap();
    assert_eq!(doc.version, 1);
    assert_eq!(doc.contents, "t");
    assert_eq!(doc.language_id, "just");
    assert!(store.change("file:///a", 2, "u".to_string()));
    assert_eq!(store.get("file:///a").unwrap().contents, "u");
    assert_eq!(store.close("file:///a"), Some(2));
    assert!(!store.contains("file:///a"));
}

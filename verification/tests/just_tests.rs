use any_ls::{Diagnostic, Handler, Just, Position, Severity};

fn diag(
    start: (u32, u32),
    end: (u32, u32),
    severity: Severity,
    message: &str,
) -> Diagnostic {
    Diagnostic {
        start: Position { line: start.0, character: start.1 },
        end: Position { line: end.0, character: end.1 },
        severity,
        message: message.to_string(),
        source: None,
    }
}

#[test]
fn test_parse() {
    let e1 = [
        "error: Unknown start of token '1'",
        "——▶ justfile:7:1",
        "│",
        "7 │ 123",
        "  │ ^",
    ]
    .join("\n");
    let r1 = diag((6, 0), (6, 1), Severity::Error, "Unknown start of token '1'");

    assert_eq!(Just::parse_stderr(&e1), vec![r1]);

    let e2 = [
        "error: Expected '&&', comment, end of file, end of line, identifier, or '(', but found ':'",
        "——▶ .tmpu9xSRk:3:4",
        "  │",
        "3 │ a:::b",
        "  │    ^",
    ].join("\n");
    let r2 = diag(
        (2, 3),
        (2, 4),
        Severity::Error,
        "Expected '&&', comment, end of file, end of line, identifier, or '(', but found ':'",
    );

    assert_eq!(Just::parse_stderr(&e2), vec![r2]);
}

#[test]
fn parse_stderr_single_column_span() {
    let text = "error: Unknown start of token:\n ——▶ justfile:7:13\n  │\n7 │   just something here\n  │             ^";
    let ds = Just::parse_stderr(text);
    assert_eq!(ds.len(), 1);
    assert_eq!(ds[0].severity, Severity::Error);
    assert_eq!(ds[0].start, Position { line: 6, character: 12 });
    assert_eq!(ds[0].end, Position { line: 6, character: 13 });
    assert_eq!(ds[0].message, "Unknown start of token:");
}

#[test]
fn parse_stdout_always_empty() {
    assert_eq!(Just::parse_stdout(""), vec![]);
    assert_eq!(Just::parse_stdout("echo hello"), vec![]);
    assert_eq!(
        Just::parse_stdout("error: this looks like an error but is stdout\n——▶ justfile:1:1"),
        vec![]
    );
}

#[test]
fn success_output_yields_no_diagnostics() {
    let ds = Just::diagnostics_from_output(true, "anything at all", "error: x\n——▶ f:1:1");
    assert_eq!(ds, vec![]);
}

#[test]
fn failure_output_is_parsed() {
    let ds = Just::diagnostics_from_output(false, "", "error: bad\n——▶ justfile:2:5");
    assert_eq!(ds, vec![diag((1, 4), (1, 5), Severity::Error, "bad")]);
}

#[test]
fn parse_stderr_no_marker_is_empty() {
    assert_eq!(Just::parse_stderr("error: something went wrong\nbut no location given"), vec![]);
    assert_eq!(Just::parse_stderr(""), vec![]);
    assert_eq!(Just::parse_stderr("complete garbage"), vec![]);
}

#[test]
fn parse_stderr_marker_without_location_is_empty() {
    assert_eq!(Just::parse_stderr("error: x\n——▶ justfile"), vec![]);
    assert_eq!(Just::parse_stderr("error: x\n——▶ justfile:7"), vec![]);
    assert_eq!(Just::parse_stderr("error: x\n——▶ justfile:a:b"), vec![]);
}

#[test]
fn parse_stderr_bad_header_is_empty() {
    // The location line alone is not enough: the first line must carry
    // `word: message`.
    assert_eq!(Just::parse_stderr("no colon here\n——▶ justfile:7:1"), vec![]);
    assert_eq!(Just::parse_stderr(": empty severity\n——▶ justfile:7:1"), vec![]);
    assert_eq!(Just::parse_stderr("error:\n——▶ justfile:7:1"), vec![]);
}

#[test]
fn parse_stderr_unknown_severity_falls_back() {
    let ds = Just::parse_stderr("mystery: odd words\n——▶ justfile:3:2");
    assert_eq!(ds.len(), 1);
    assert_eq!(ds[0].severity, Severity::Unknown);
}

#[test]
fn parse_stderr_warning_word_is_unknown_severity() {
    let ds = Just::parse_stderr("warning: some warning\n——▶ justfile:1:1");
    assert_eq!(ds.len(), 1);
    assert_eq!(ds[0].severity, Severity::Unknown);
}

#[test]
fn parse_stderr_number_overflow_reads_zero() {
    // A line number too large for the position type reads as zero, and the
    // one-based shift saturates.
    let ds = Just::parse_stderr("error: big\n——▶ f:99999999999999:2");
    assert_eq!(ds, vec![diag((0, 1), (0, 2), Severity::Error, "big")]);
}

#[test]
fn parse_stderr_column_zero_saturates() {
    let ds = Just::parse_stderr("error: x\n——▶ f:1:0");
    assert_eq!(ds, vec![diag((0, 0), (0, 0), Severity::Error, "x")]);
}

#[test]
fn parse_stderr_marker_on_later_line() {
    let ds = Just::parse_stderr("error: m\nsome context\nmore context\n ——▶ path:4:7\ntail");
    assert_eq!(ds.len(), 1);
    assert_eq!(ds[0].start, Position { line: 3, character: 6 });
    assert_eq!(ds[0].end, Position { line: 3, character: 7 });
}

#[test]
fn just_supports_its_filetypes() {
    let j = Just::new("1.0".to_string());
    assert!(j.filetype_supported("just"));
    assert!(j.filetype_supported("justfile"));
    assert!(!j.filetype_supported("python"));
    assert_eq!(j.version(), "1.0");
}

#[test]
fn just_advertises_diagnostics_only() {
    let j = Just::new(String::new());
    let caps = j.get_capabilities();
    assert!(caps.diagnostic_provider.is_some());
    assert!(caps.hover_provider.is_none());
    assert!(caps.completion_provider.is_none());
}

use any_ls::{Handler, PropFile, Position, PropsHandler};

fn file(path: &str, contents: &str) -> PropFile {
    PropFile { path: path.to_string(), contents: contents.to_string() }
}

fn hover_text(h: &PropsHandler, contents: &str, line: u32, character: u32) -> Option<String> {
    h.hover(contents, Position { line, character }).unwrap()
}

#[test]
fn duplicate_definitions_are_retained_in_file_order() {
    let h = PropsHandler::new(vec![file("f", "FOO=bar\nFOO = baz  ")]);
    let defs = h.lookup("FOO");
    assert_eq!(defs.len(), 2);
    assert_eq!(defs[0].value, "bar");
    assert_eq!(defs[1].value, "baz");
    assert_eq!(defs[0].name, "FOO");
    assert_eq!(defs[1].name, "FOO");
    assert_eq!(defs[0].from_path, "f");
}

#[test]
fn lines_without_separator_define_nothing() {
    let h = PropsHandler::new(vec![file("f", "no separator\n\n# comment\nKEY=value")]);
    assert_eq!(h.lookup("no separator").len(), 0);
    assert_eq!(h.lookup("KEY").len(), 1);
}

#[test]
fn split_happens_at_first_separator() {
    let h = PropsHandler::new(vec![file("f", "A=B=C")]);
    let defs = h.lookup("A");
    assert_eq!(defs.len(), 1);
    assert_eq!(defs[0].value, "B=C");
}

#[test]
fn names_and_values_are_trimmed() {
    let h = PropsHandler::new(vec![file("f", "   KEY\t =  some value \t")]);
    let defs = h.lookup("KEY");
    assert_eq!(defs.len(), 1);
    assert_eq!(defs[0].value, "some value");
}

#[test]
fn definitions_keep_file_order_across_files() {
    let h = PropsHandler::new(vec![file("one", "X=1"), file("two", "X=2")]);
    let defs = h.lookup("X");
    assert_eq!(defs.len(), 2);
    assert_eq!(defs[0].from_path, "one");
    assert_eq!(defs[1].from_path, "two");
}

#[test]
fn hover_inside_token_finds_definition() {
    let h = PropsHandler::new(vec![file("f", "FOO=1")]);
    let out = hover_text(&h, "FOO=1", 0, 1).unwrap();
    assert!(out.contains("f"));
    assert!(out.contains("FOO = 1"));
    assert_eq!(out, "f\nFOO = 1");
}

#[test]
fn hover_on_separator_is_none() {
    let h = PropsHandler::new(vec![file("f", "FOO=1")]);
    assert_eq!(hover_text(&h, "FOO=1", 0, 3), None);
}

#[test]
fn hover_unknown_name_is_none() {
    let h = PropsHandler::new(vec![file("f", "FOO=1")]);
    assert_eq!(hover_text(&h, "BAR=2", 0, 1), None);
}

#[test]
fn hover_joins_multiple_definitions_with_blank_line() {
    let h = PropsHandler::new(vec![file("a", "K=1"), file("b", "K=2")]);
    let out = hover_text(&h, "K=x", 0, 0).unwrap();
    assert_eq!(out, "a\nK = 1\n\nb\nK = 2");
}

#[test]
fn hover_respects_target_line() {
    let h = PropsHandler::new(vec![file("f", "B=2")]);
    let text = "A=1\nB=2";
    assert_eq!(hover_text(&h, text, 0, 0), None);
    assert_eq!(hover_text(&h, text, 1, 0).unwrap(), "f\nB = 2");
}

#[test]
fn hover_past_line_end_is_none() {
    let h = PropsHandler::new(vec![file("f", "FOO=1")]);
    // Column past everything on the last line: the target column is never
    // reached, so there is no hover.
    assert_eq!(hover_text(&h, "FOO", 0, 7), None);
    assert_eq!(hover_text(&h, "", 0, 0), None);
    assert_eq!(hover_text(&h, "FOO=1", 5, 0), None);
}

#[test]
fn hover_counts_utf16_units() {
    let h = PropsHandler::new(vec![file("f", "FOO=1")]);
    // The leading emoji takes two UTF-16 units, so "FOO" covers columns 3-5.
    let text = "\u{1F600} FOO=1";
    assert_eq!(hover_text(&h, text, 0, 4).unwrap(), "f\nFOO = 1");
    assert_eq!(hover_text(&h, text, 0, 0), None);
}

#[test]
fn hover_token_spanning_target_column() {
    let h = PropsHandler::new(vec![file("f", "LONGNAME=v")]);
    // Hovering anywhere inside the token resolves the whole token.
    let out = hover_text(&h, "LONGNAME=v", 0, 6).unwrap();
    assert_eq!(out, "f\nLONGNAME = v");
}

#[test]
fn props_serves_every_filetype() {
    let h = PropsHandler::default();
    assert!(h.filetype_supported("just"));
    assert!(h.filetype_supported("anything"));
    let caps = h.get_capabilities();
    assert_eq!(caps.hover_provider.as_deref(), Some("simple"));
    assert!(caps.completion_provider.is_some());
    assert!(caps.diagnostic_provider.is_none());
}

use any_ls::{AnyError, Cli};

#[test]
fn cli_carries_parsed_options() {
    let c = Cli::new(true, 2);
    assert!(c.lsp);
    assert_eq!(c.verbosity, 2);
    let d = Cli::new(false, 0);
    assert!(!d.lsp);
}

#[test]
fn any_error_renders() {
    let e = AnyError::NotYetImplemented("Only LSP Mode is supported");
    assert_eq!(e.message(), "Not yet implemented: Only LSP Mode is supported");
}

//! Command-line options of the server binary. The argument parsing itself
//! is owned by the binary around this crate; the library only carries the
//! parsed values.

use vstd::prelude::*;

verus! {

/// The parsed command line: whether to run the editor-protocol loop, and
/// how verbose to log.
#[derive(Debug, Clone, Copy, PartialEq, Eq, Structural)]
pub struct Cli {
    /// Serve the editor protocol on standard input and output.
    pub lsp: bool,
    /// Logging verbosity: each step above zero raises it.
    pub verbosity: u8,
}

impl Cli {
    pub fn new(lsp: bool, verbosity: u8) -> (r: Cli)
        ensures
            r == (Cli { lsp, verbosity }),
    {
        Cli { lsp, verbosity }
    }
}

} // verus!

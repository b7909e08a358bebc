//! A language-intelligence backend core: provider dispatch and aggregation
//! for editor diagnostics and hover requests.
//!
//! The crate holds the verified logic of the server: the capability merge,
//! the document lifecycle state machine, the diagnostics aggregation policy,
//! the build-tool stderr grammar, the property-file definition index, and the
//! UTF-16-aware hover token resolver. The process boundary (transport,
//! subprocess invocation, filesystem reads) lives outside this crate and
//! hands these functions plain values.

mod any_error;
mod caps;
mod cli;
mod diag;
mod handlers;
mod store;
mod text;
mod walk;

pub use any_error::AnyError;
pub use caps::{merge, merge_all, CapabilitySet};
pub use cli::Cli;
pub use diag::{Diagnostic, Position, Severity};
pub use handlers::props::{Definition, PropFile};
pub use handlers::{
    aggregate_diagnostics, AllHandlers, AnyHandler, DiagnosticsJob, Handler, HandlerError, Just,
    PropsHandler, ProviderOutcome,
};
pub use store::{Document, DocumentStore, ProviderKind};
pub use text::is_word_char;
pub use walk::{prop_file_names, stop_marker_names, traverse_parents, DirEntryInfo, DirLevel};

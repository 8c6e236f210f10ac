//! Engine for LID (Linked-Intent Development) tooling: typed identifiers,
//! parsers for spec files and `@spec` citations, and the coherence checks.

pub mod text;
pub mod error;
pub mod ids;
pub mod model;
pub mod repo;
pub mod checks;
pub mod parse;
pub mod paths;
pub mod order;
pub mod store;
pub mod report;
pub mod dashboard;
pub mod scaffold;
pub mod lsp;

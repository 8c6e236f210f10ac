//! Domain error type.

use vstd::prelude::*;

verus! {

/// Top-level error returned by the library's parsers and loaders.
#[derive(Debug)]
pub enum LidError {
    /// Filesystem error encountered while reading a LID artifact.
    Io { path: String, message: String },
    /// YAML deserialization error.
    Yaml { path: String, message: String },
    /// A markdown artifact carried an invalid item at `line` (1-based);
    /// `source` is the validation error for that item.
    Markdown { path: String, line: usize, source: Box<LidError> },
    /// A `SpecId` failed validation against the `^[A-Z][A-Z0-9-]+$` shape.
    InvalidSpecId { value: String, reason: &'static str },
    /// A `GitSha` failed validation against the 7..=40 hex-digit shape.
    InvalidGitSha { value: String, reason: &'static str },
    /// A `SegmentId` failed validation against the kebab-case shape.
    InvalidSegmentId { value: String, reason: &'static str },
    /// No `docs/arrows/index.yaml` was found at or above `start`.
    NotALidRepo { start: String },
    /// The project's `schema_version` is not supported.
    UnsupportedSchemaVersion { found: u32, supported: Vec<u32> },
}

} // verus!

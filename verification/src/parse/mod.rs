//! Parsers for LID artifact formats.

pub mod cmark;
pub mod markdown;
pub mod source;

//! Verified ingestion core for a legacy delimiter-separated forum-post format:
//! splitting a post dump into lines and fields, extracting per-post identity
//! tokens, counting token occurrences across a thread in two passes, and
//! normalizing remote thread descriptors into display-ready summaries.

pub mod analytics;
pub mod decimal;
pub mod entities;
pub mod image;
pub mod parser;
pub mod scan;
pub mod settings;
pub mod threads;
pub mod timefmt;

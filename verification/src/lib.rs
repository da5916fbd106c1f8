//! Strips volatile fields from a computational notebook held as a JSON tree:
//! cell outputs, execution counters, and configurable metadata paths, so that
//! the serialized document is deterministic and diff-friendly.

pub mod error;
pub mod json;
pub mod laws;
pub mod pattern;
pub mod prune;
pub mod retain;
pub mod strip;

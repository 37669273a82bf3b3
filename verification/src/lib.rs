//! A batch filename-transformation engine.
//!
//! Given a set of filenames, each split into a stem and an extension, the
//! library computes a proposed new name for each, preserving the extension,
//! and records which byte span of the original name is removed and which
//! byte span of the new name is inserted, so that a caller can render a
//! highlighted before/after view before committing any rename.

pub mod date;
pub mod filename;
pub mod pattern;
pub mod rename_proc;
pub mod util;

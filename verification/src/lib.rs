//! A small library for watching a single file's content evolve: it keeps a
//! snapshot of the file's bytes and, given each freshly read content, computes
//! a positional byte diff (additions, deletions, modifications) between the
//! snapshot and the new content.
//!
//! The library itself performs no I/O: callers hand it the bytes they read and
//! receive a structured diff report back.

pub mod diff;
pub mod engine;
pub mod pairing;

pub use diff::{DiffEntry, DiffReport};
pub use engine::Engine;
pub use pairing::OptionZip;

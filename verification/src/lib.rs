//! Repository-hygiene lints and changelog aggregation for a multi-crate
//! source tree.
//!
//! Two cores: a lint framework — every concrete lint offers a read-only
//! *check* and, where possible, a *fix* with a dry-run mode, and a runner
//! that selects lints, aggregates their violations and decides overall
//! success — and a changelog engine that parses a queue of pending
//! release-note entries and merges them, transactionally, into two versioned
//! changelog documents.  All state the logic touches is carried in plain
//! values (byte strings, vectors), so every function here is verified; the
//! surrounding process — argument parsing, git subprocesses, file I/O —
//! stays outside the library and hands values in.

pub mod bytes;
pub mod changelog;
pub mod lint;
pub mod repo;

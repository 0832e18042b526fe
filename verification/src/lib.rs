//! A verified filesystem operation engine.
//!
//! The engine enumerates, mutates, and observes a hierarchical file tree.
//! All decision logic lives here and is verified: path arithmetic, entry
//! construction, list ordering, bounded recursive search, copy/move planning
//! with a retry policy, collision-safe duplicate naming, and a single-slot
//! change watcher.  The surrounding binary performs the actual I/O and feeds
//! plain values (paths, metadata probes, directory listings) into this crate.

pub mod clipboard;
pub mod content;
pub mod dirsize;
pub mod dupname;
pub mod entry;
pub mod errors;
pub mod listing;
pub mod path;
pub mod rename;
pub mod retry;
pub mod search;
pub mod text;
pub mod transfer;
pub mod treecopy;
pub mod watch;

//! Read-only data-access layer for a conversation-history viewer.
//!
//! Sessions are recorded as append-only newline-delimited JSON transcript
//! files under a per-project directory tree, discovered through a registry
//! file.  This crate holds the verified core: the session index, the
//! history-registry cache, session resolution, full and incremental
//! transcript readers, and the decisions of the filesystem-change watcher.
//! All file and directory I/O is done by the caller, which hands the
//! contents in as plain values.

pub mod framing;
pub mod history;
pub mod index;
pub mod parse;
pub mod reader;
pub mod sessions;
pub mod storage;
pub mod text;
pub mod types;
pub mod watcher;

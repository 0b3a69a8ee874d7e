//! An incremental indexing pipeline: change detection, file discovery, a
//! document index with a single writer and a bounded job queue, and
//! searchers over committed snapshots.
//!
//! The library decides and keeps the books; it runs no threads, reads no
//! clock and touches no file. Its callers hand it what they observed
//! (directory entries, file contents, the time, whether a write reached
//! the disk) and do what it tells them.
//!
//! - [`change_cache`], [`cache_format`]: the last-seen modification time of
//!   every file, and its persisted form.
//! - [`rules`], [`file_collector`]: which files are wanted, and the lazy
//!   sequence of those that changed.
//! - [`document`], [`text`]: what is indexed for a file, and how a term
//!   matches it.
//! - [`index`], [`index_format`], [`searcher`]: the documents with their
//!   commit boundary, their journal, and the read side.
//! - [`once_every`], [`indexer`]: the commit cadence, the job queue and the
//!   accounting of every request.
//! - [`running`], [`tally`], [`pipeline`]: the running flag, the counters,
//!   and all of the above as one state machine.
//!
//! Everything is verified against the contracts stated on it, but for two
//! calls into the standard library whose contracts are taken on trust:
//! `String::from_utf8` and `Arc::clone`.

pub mod cache_format;
pub mod change_cache;
pub mod document;
pub mod file_collector;
pub mod index;
pub mod index_format;
pub mod indexer;
pub mod once_every;
pub mod pipeline;
pub mod rules;
pub mod running;
pub mod searcher;
mod sharing;
mod strings;
pub mod tally;
pub mod text;

//! Chunked, resumable, bounded-concurrency transfer engine.
//!
//! The library holds the decisions of a large-artifact transfer: how a file
//! is cut into byte ranges, how the total size is read from a probe response,
//! when a failed chunk is retried and after how long, how many chunks may be
//! in flight, which chunks a resumed transfer still has to fetch, how the
//! parts are put back together and checked, and the lifecycle of the tasks
//! that a user interface registers. Network and file I/O stay with the caller,
//! which performs the actions that the engine hands out and reports back.

pub mod error;
pub mod plan;
pub mod size;
pub mod retry;
pub mod count;
pub mod progress;
pub mod engine;
pub mod merge;
pub mod registry;
pub mod downloader;

//! The verified core of a background job queue.
//!
//! Tasks live in an append-only log; the queue decides which of them run, when they are tried
//! again and when they are given up. Everything here works on plain values: files, sockets and
//! handlers are driven from outside, and each step of theirs is decided by a function of this
//! crate.

pub mod timestamp;
pub mod text;
pub mod text_map;
pub mod double;
pub mod task;
pub mod table;
pub mod file_store;
pub mod path;
pub mod rate_limiter;
pub mod webhook;
pub mod workers;
pub mod queue;
pub mod protocol;
pub mod daemon;
pub mod task_laws;
pub mod life_laws;
pub mod limit_laws;
pub mod start_laws;
pub mod store_laws;
pub mod message_laws;
pub mod laws;

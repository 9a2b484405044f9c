//! A point-in-time watcher for open work items on a code-hosting platform.
//!
//! The library resolves human-readable repository and project-board
//! references into structured values, paginates through resource
//! collections, joins boards with their columns and cards, and assembles
//! one timestamped snapshot per invocation.  Network transport and JSON
//! decoding live outside the library; every function here is verified.

pub mod boards;
pub mod client;
pub mod config;
pub mod error;
pub mod issues;
pub mod paging;
pub mod refs;

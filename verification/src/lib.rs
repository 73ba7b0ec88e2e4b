//! Associates filename extensions with a handler that runs the matching
//! script inside a Linux subsystem environment.
//!
//! The crate holds the two engines behind that association: the command
//! composition / path translation pipeline, which turns a batch of host
//! paths into a correctly quoted, length-bounded foreign-shell command
//! line, and the registration engine, which manages the multi-key handler
//! records in a hierarchical key-value store.

pub mod error;
pub mod quote;
pub mod compose;
pub mod config;
pub mod digits;
pub mod distro;
pub mod options;
pub mod registry;
pub mod store;
pub mod translate;
pub mod icon;
mod strutil;
pub mod winpath;

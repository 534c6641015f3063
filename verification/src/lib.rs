//! A provisioning and recovery engine for a Lightning node's plugins.
//!
//! The crate tracks remote plugin source repositories, indexes the plugins
//! they contain, and drives install / remove / upgrade / enable / disable as
//! stateful operations over an in-memory catalogue.  A recovery subsystem
//! (the "nurse") restores consistency between the catalogue and what exists
//! on disk.  All decisions are made here over plain values; the surrounding
//! binary performs the file, git and RPC work and reports the outcomes back.

pub mod cln_conf;
pub mod cmd;
pub mod coffee;
pub mod config;
pub mod errors;
pub mod github;
pub mod nurse;
pub mod plugin;
pub mod plugin_conf;
pub mod storage;
pub mod text;
pub mod types;
pub mod url;
pub mod utils;

pub use errors::CoffeeError;

//! Workspace lifecycle: configuration, events, scans, and the actor that serialises them.
//!
//! Every change of workspace-level state (root, source paths, ignore patterns, scans) is
//! decided here, one event at a time; running the scans and touching files is left to the
//! caller.
pub mod actor;
pub mod config;
pub mod contract;
pub mod file_changes;
pub mod laws;
pub mod phase;
pub mod scan_handler;
pub mod scan_queue;

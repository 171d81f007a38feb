//! Workspace-wide symbol search with ripgrep: what to search for, and what the output says.
pub mod find;
pub mod find_laws;
pub mod hits;
pub mod ignore;
pub mod ignore_laws;
pub mod laws;
pub mod pattern;
pub mod reference_laws;
pub mod references;
pub mod root;
pub mod search;
pub mod search_laws;

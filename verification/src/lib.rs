//! The core of a language server for Kotlin, Java and Swift: searching a workspace with
//! ripgrep, completions of the Kotlin standard library, semantic tokens, workspace lifecycle,
//! and text-level symbol resolution.
//!
//! Everything here computes on plain values. Running processes, reading files, scheduling
//! tasks and speaking the protocol is left to the server around it.
pub mod chars;
pub mod path;
pub mod path_laws;
pub mod raw_path;
pub mod resolver;
pub mod rg;
pub mod semantic_tokens;
pub mod stdlib;
pub mod stdlib_laws;
pub mod str_ext;
pub mod str_ext_laws;
pub mod text;
pub mod text_laws;
pub mod types;
pub mod uri;
pub mod util;
pub mod workspace;
pub mod workspace_json;
pub mod workspace_json_laws;

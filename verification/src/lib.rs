//! Repository indexing engine: parses source files into per-file signature
//! records, keeps them in an in-memory index with reverse lookups and a call
//! graph, and answers a small set of structured queries over that index.

use vstd::prelude::*;

pub mod types;
pub mod text;
pub mod matching;
pub mod repo_map;
pub mod laws;
pub mod json;
pub mod tools;
pub mod analyzer;
pub mod scanner;
pub mod engine;
mod clock;

pub use engine::{LoreGrep, LoreGrepBuilder, LoreGrepError, LoreResult, ScanResult};
pub use tools::{ToolSchema, ToolResult, ToolStep, resume_analyze_file};
pub use json::JsonValue;

verus! {

/// Current library version.
pub const VERSION: &'static str = "0.1.0";

} // verus!

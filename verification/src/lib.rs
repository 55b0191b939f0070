//! Discovers the local source files that an entry file depends on: it reads
//! import statements, resolves them to paths, and follows them through the
//! repository, skipping what the ignore rules exclude.

pub mod aliases;
pub mod bundle;
pub mod context;
pub mod error;
pub mod extract;
pub mod path;
pub mod resolve;
pub mod snapshot;
pub mod text;
pub mod walker;

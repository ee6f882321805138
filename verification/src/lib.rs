//! Resolution of TypeScript/JSX import specifiers to concrete files.
//!
//! The core is a pure algorithm: alias matching with wildcard substitution,
//! lexical path normalization, and an ordered search for an existing file
//! (exact path, directory index, appended extension). Filesystem facts are
//! supplied as an explicit [`fs_model::FileSystem`] value, so every part of
//! the algorithm is verified; callers that work against a real disk gather
//! the probe results themselves and hand them in.

pub mod entry;
pub mod fs_model;
pub mod laws;
pub mod path;
pub mod resolve;
pub mod ts_config;

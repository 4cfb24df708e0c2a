//! Session memory and compaction engine for conversational applications.
//!
//! The library keeps a bounded, newest-first window of chat turns per
//! session, plans token-budgeted incremental summarization of the overflow,
//! guarantees single-flight compaction per session, encodes embedding
//! vectors for a vector index, and maintains a score-ordered session
//! registry.  Everything that decides or computes lives here, verified;
//! the surrounding process wires these functions to its store and its
//! language-model provider.

pub mod flight;
pub mod keys;
pub mod long_term;
pub mod models;
pub mod registry;
pub mod reducer;
pub mod session;
pub mod text;
pub mod tokens;
pub mod vector;

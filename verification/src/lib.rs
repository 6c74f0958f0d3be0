//! Crash recovery for text buffers: full snapshots in separate files.
//!
//! A file holds a magic string, the big-endian length of a header, a bounded versioned header and
//! an exact-length UTF-8 text. Paths are those of Unix and stored without loss. Callers serialize
//! access to a [`Swap`]; dropping it leaves its files available for recovery.
//!
//! The library does no input or output. Writes, closes, resolutions and polls ask for one action
//! at a time and take what came of it.

pub mod bytes;
pub mod call_laws;
pub mod claim;
pub mod config;
pub mod contents;
pub mod directories;
pub mod discovery;
pub mod files;
pub mod format;
pub mod laws;
pub mod model;
pub mod names;
pub mod paths;
pub mod resolve;
pub mod resolve_laws;
pub mod schedule_laws;
pub mod search_laws;
pub mod snapshot;
pub mod state;
pub mod swap;
pub mod text;
pub mod work;
pub mod write_laws;

pub use claim::{claim, Recovery};
pub use config::Config;
pub use discovery::{discover, Discovery};
pub use format::{read, RecoveryMetadata};
pub use paths::NativePath;
pub use snapshot::Snapshot;
pub use state::State;
pub use swap::Swap;

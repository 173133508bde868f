//! Incremental semantic indexing of a source tree: file classification,
//! deterministic line-window chunking, and the decisions that keep a vector
//! store in step with a branch's current revision.

pub mod hashing;
pub mod text;
pub mod paths;
pub mod classify;
pub mod window;
pub mod chunker;
pub mod indexed;
pub mod batches;
pub mod sync;
pub mod scan;
pub mod audit;

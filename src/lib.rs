//! A disk-backed least-recently-used cache for immutable remote objects.
//!
//! The modules hold the decisions of the cache engine: where entries live,
//! which of them eviction removes, how recency is refreshed and in which
//! order an object is admitted. The file system work around them is done by
//! the caller, which hands the results of that work to these functions.

pub mod cache;
pub mod configuration;
pub mod lookup;
pub mod s3;

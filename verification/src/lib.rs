//! A library for a daemon that keeps a live, queryable index over
//! filesystem trees: an inverted token index with buffered mutations and
//! atomic commits, a pipeline that turns filesystem change events into
//! index mutations under a batched commit policy, and a stateless query
//! service that reads committed snapshots only.

pub mod engine;
pub mod index;
pub mod indexer;
pub mod rpc;
pub mod secret;
pub mod text;
pub mod tokens;
pub mod watcher;

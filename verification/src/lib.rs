//! Verified core of a chain-state query tool.
//!
//! The library contains the decision logic of the tool: cursor-based
//! pagination of storage keys, retrieval of child-trie contents, assembly of
//! per-block state snapshots, and a bisection search that locates the block
//! at which the monitored state last changed.  All network traffic is left to
//! the surrounding (unverified) client layer, which drives the state machines
//! defined here and feeds the responses back in.

pub mod child_trie;
pub mod error;
pub mod hex_fmt;
pub mod keys;
pub mod locator;
pub mod paging;
pub mod probe;
pub mod scale;

pub use error::QueryError;
pub use probe::BlockInfo;

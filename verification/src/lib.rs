//! Reader for a read-only container file that bundles many binary resources,
//! each keyed by a 32-bit id.
//!
//! Storage inside the container is organized as fixed-size sectors chained by
//! forward pointers, and a tree-structured directory — itself stored as one
//! such sector chain — that maps ids to the location and byte length of their
//! data.  This crate holds the container's bytes in memory and verifies the
//! whole reading engine: header decoding, sector-chain reconstruction,
//! directory-node decoding, and the tree search and traversal algorithms.
//! Reading the container file from disk is left to the surrounding program.

pub mod codec;
pub mod container;
pub mod error;
pub mod index;
pub mod node;

//! Recursive directory-size resolution with a persistent binary size cache.
//!
//! The crate models a scanned directory tree as plain data, resolves directory
//! sizes with cycle-safe depth-first traversal, keeps previously computed
//! totals in an in-memory cache store keyed by a digest of each directory's
//! filesystem identity, and reads and writes that store in a compact binary
//! record stream.

pub mod arith;
pub mod codec;
pub mod digest;
pub mod display;
pub mod fileinfo;
pub mod guard;
pub mod options;
pub mod store;
pub mod text;
pub mod traverse;
pub mod tree;
pub mod units;

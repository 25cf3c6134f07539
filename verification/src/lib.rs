//! Keyspace search engine and throughput estimator.
//!
//! The library recovers an elliptic-curve private key whose derived address is
//! known, by scanning a bounded scalar keyspace, and estimates how long such a
//! scan takes on given hardware. Arbitrary-precision arithmetic is carried by
//! `num_bigint` behind trusted wrappers; everything built on top of it is
//! verified.

use vstd::prelude::*;

pub mod big;
pub mod digits;
pub mod derive;
pub mod engine;
pub mod record;
pub mod estimator;
pub mod scheme;

verus! {

/// Keyspace bit width of the full search problem the report describes.
pub const DEFAULT_TOTAL_BITS: u32 = 130;

/// Bit width of one fixed-size block of the keyspace.
pub const DEFAULT_BLOCK_BITS: u32 = 60;

} // verus!

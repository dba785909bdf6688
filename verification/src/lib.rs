//! An oracle for Merkle Mountain Range proofs over numeric ranges.
//!
//! Leaves are numeric ranges, siblings merge by concatenation, and the order
//! in which peaks are bagged into a root is a run-time choice. The accumulator
//! itself is the `ckb-merkle-mountain-range` engine; this crate drives it in
//! batches, enumerates leaf subsets and judges the proofs that come back.
pub mod scope;
pub mod policy;
pub mod position;
pub mod engine;
pub mod driver;
pub mod oracle;

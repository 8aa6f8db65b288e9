//! Reconciles two independently captured file-inventory logs (one record per
//! file: a content digest plus a path) to reveal what changed in a directory
//! tree between two points in time: which files are unchanged, which changed
//! content at the same path, which moved without a content change, and which
//! exist in only one snapshot.
//!
//! The core is the matching engine in [`partitioner`]: a three-tier cascade
//! that classifies every record of both logs into exactly one outcome
//! bucket, puts every bucket into a canonical order, and checks a size
//! invariant. Its contract pins the whole result down, and
//! [`partitioner::laws`] proves the engine's governing properties once and
//! for all: no record is lost or duplicated, a record classified at one tier
//! never reaches the next, and the result depends only on what the logs
//! contain, not on the order of their lines.
//!
//! Around the engine: [`log_entry`] parses and renders single records,
//! [`common`] reads whole logs and renders every output bucket, [`sort`] and
//! [`root`] hold the stand-alone log transforms, and [`partition`] renders
//! the statistics block. File handling stays outside this crate; every
//! function here works on plain values.

pub mod common;
pub mod help;
pub mod log_entry;
pub mod nand;
pub mod partition;
pub mod partitioner;
pub mod root;
pub mod some_vec;
pub mod sort;
pub mod sorting;
pub mod text_order;

//! Format the staged (index) content of files in a version-control working
//! copy by piping each staged blob through an external formatter command.
//!
//! The crate holds the verified core of that pipeline: parsing the raw
//! staged-change records, selecting paths through an ordered list of signed
//! glob patterns, planning the per-file index update, and computing and
//! applying the context patch that carries a formatting change onto a
//! working-tree file without discarding unstaged edits.

pub mod driver;
pub mod patch;
pub mod pattern;
pub mod reconcile;
pub mod record;
pub mod util;

//! Finds the `node_modules` directories of the projects under a root folder,
//! totals the bytes each one holds and lays the result out as a text table.
//!
//! The filesystem walk itself happens outside this crate: callers hand in what
//! they observed (entry depths, names, file lengths, timestamps) as plain
//! values, and every decision and every piece of arithmetic made on them here
//! is verified.

pub mod text;
pub mod size;
pub mod age;
pub mod locate;
pub mod report;

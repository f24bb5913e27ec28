//! Line-composition metrics for Rust source files.
//!
//! Every line of a source file is assigned exactly one category
//! (blank, comment, doc comment, code), and the counts are further
//! split into production and test code using the annotations found
//! on declarations in the parsed syntax tree.  Statistics flow into
//! an accumulator — either an in-memory one or one that spills each
//! record to a private temporary file — and come back out as a
//! summary plus the per-file records.

pub mod accum;
pub mod analyze;
pub mod classify;
pub mod codec;
pub mod coordinator;
pub mod detect;
pub mod render;
pub mod sizes;
pub mod spill;
pub mod stats;
pub mod strutil;

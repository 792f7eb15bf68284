//! Decoding of column-aligned disk-quota reports into typed records, and the
//! decisions of the exporter that publishes them.
//!
//! A report is a block of text whose header row names the columns and fixes,
//! by the position of each name, where every column begins. Each data row is
//! cut at those positions. Everything here is pure and verified: fetching the
//! report, reading the environment and publishing figures are left to the
//! program around this library.
//!
//! - [`text`]: whitespace, trimming, lines.
//! - [`number`]: unsigned integers written in decimal.
//! - [`parser`]: the report decoder.
//! - [`laws`]: what holds of every report.
//! - [`config`]: settings worked out from the environment's values.
//! - [`ssh`]: where the report is fetched from.
//! - [`exporter`]: what a round of fetching amounts to.

pub mod config;
pub mod exporter;
pub mod laws;
pub mod number;
pub mod parser;
pub mod ssh;
pub mod text;

//! A verified core for a page-oriented document pipeline: a source document
//! is partitioned into contiguous page ranges, each range is extracted and
//! recompressed by an external document tool running once per range, and the
//! recompressed chunks are concatenated back into one document in ascending
//! page order.
//!
//! This library holds the logic of that pipeline — planning the ranges,
//! parsing the tool's page-count output, naming the chunk artifacts, building
//! the tool's argument lists, ordering the merge inputs, aggregating
//! per-chunk failures, and driving the stage-by-stage state machine. Running
//! the external tool itself, and all other I/O, is left to the embedding
//! program, which feeds the outcomes back in as plain values.

pub mod artifact;
pub mod capture;
pub mod command;
pub mod count;
pub mod digits;
pub mod order;
pub mod pipeline;
pub mod plan;

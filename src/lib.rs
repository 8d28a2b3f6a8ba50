//! Streaming concatenation of tabular files: the verified core.
//!
//! - `schema`: the closed type lattice, widening, and schema unification.
//! - `value`, `parse`, `coerce`: typed cells, their canonical text, text
//!   recognition and coercion between column types.
//! - `encoding`, `reader`: decoding fields, shaping records, inferring
//!   column types and building batches; the offsets a reader publishes.
//! - `batch`, `align`: batches and their alignment onto the unified schema.
//! - `writer`, `rolling`: output records and shard rolling by rows or bytes.
//! - `queue`, `reorder`: the bounded hand-off between decoders and the
//!   writer, and the writer's input-order buffer.
//! - `state`, `progress`: resumable run state and progress counters.
//! - `discover`, `cli`, `pipeline`: input ordering, options, the run's plan.
//!
//! Reading and writing files, threads and the command line are left to the
//! program around this library.

pub mod align;
pub mod batch;
pub mod cli;
pub mod coerce;
pub mod discover;
pub mod encoding;
pub mod error;
pub mod parse;
pub mod pipeline;
pub mod progress;
pub mod queue;
pub mod reader;
pub mod reorder;
pub mod rolling;
pub mod schema;
pub mod state;
pub mod text;
pub mod value;
pub mod writer;

mod clock;

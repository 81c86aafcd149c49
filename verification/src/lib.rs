//! Codec for Full Time Diagnostic Data Capture (FTDC) metric chunks.
//!
//! A chunk stores one reference document and, for every later sample of the
//! same schema, the column-major deltas of its numeric slots, run-length
//! coded over zeros and written as unsigned LEB128 integers.

pub mod delta;
pub mod document;
pub mod double;
pub mod error;
pub mod le;
pub mod raw;
pub mod reader;
pub mod rle;
pub mod roundtrip;
pub mod util;
pub mod varint;
pub mod writer;
pub mod zlib;

pub use reader::BSONBlockReader;
pub use reader::MetricsDocument;
pub use reader::MetricsReader;
pub use reader::RawBSONBlock;
pub use reader::VectorMetricsDocument;
pub use reader::VectorMetricsReader;
pub use util::extract_metrics;
pub use util::extract_metrics_paths;

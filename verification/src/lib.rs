//! Verified processing core for framed, gzip-compressed vehicle-bus capture
//! files: a four-layer container parser, a signal-dictionary manager with
//! verified bit extraction, partitioned columnar-writer bookkeeping, and the
//! scheduling and retry rules of the surrounding pipeline.

pub mod bits;
pub mod bytes_be;
pub mod data_layer;
pub mod dbc;
pub mod dbc_text;
pub mod executor;
pub mod layer_parser;
pub mod memory;
pub mod parser;
pub mod pipeline;
pub mod storage;
pub mod testdata;

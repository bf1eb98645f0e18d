//! Streaming transport layer for encrypted data: chunks tagged final or not
//! final move from a reader to a writer over a bounded channel. The decisions
//! of each backend are step functions with exact contracts; the proofs of the
//! stream laws sit beside them.

pub mod channel;
pub mod channel_reader;
pub mod channel_writer;
pub mod chunk;
pub mod error;
pub mod memory_writer;
pub mod reader_laws;
pub mod s3_writer;
pub mod stream_writer;
pub mod transport;
pub mod utils;

//! Streaming archive packaging.
//!
//! The library encodes an ordered list of entries into a streamed container
//! archive (local headers with deferred sizes, payload, trailing descriptors,
//! a central directory and a terminator record), computing per-entry CRC-32
//! checksums and sizes incrementally so that the stream is emitted append-only,
//! without seeking and without buffering whole entries. Around the encoder sit
//! the pure decision parts of the packaging pipeline: configuration merging,
//! size-limit accounting, entry preparation, output-name templating, and the
//! producer/consumer steps that drive the byte stream into a destination under
//! backpressure. File, network and clock access stay outside the library and
//! hand it plain values.

pub mod errors;

pub mod crc;

pub mod records;

pub mod deflate;

pub mod encoder;

pub mod laws;

pub mod pipeline;

pub mod sizes;

pub mod config;

pub mod sink;

pub mod paths;

pub mod naming;

pub mod timeutil;

pub mod exclude;

pub mod shell;

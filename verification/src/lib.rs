//! Bit-plane statistics over collections of raster image samples.
//!
//! The library decomposes fixed-width unsigned pixel samples (8-bit or
//! 16-bit) into individual bit observations, accumulates per-file
//! histograms over 16 canonical slots, and merges them, order-independently,
//! into one global histogram of (zero-count, one-count) pairs.
//!
//! Decoding image containers, reading paths, and printing reports are the
//! caller's concern; the library works on already-decoded sample buffers.

pub mod histogram;
pub mod laws;
pub mod pipeline;
pub mod sample;

//! Keyed content-defined chunking.
//!
//! A byte stream is cut into variable-length chunks at positions chosen by a
//! sliding-window polynomial fingerprint over the Goldilocks field, keyed by a
//! secret master key and optionally mixed through one AES-128 block.

pub mod chunk;
pub mod chunker;
pub mod chunkmaker;
pub mod cipher;
pub mod encoding;
pub mod field;
pub mod kdf;
pub mod mixing;
pub mod partition;
pub mod rolling;

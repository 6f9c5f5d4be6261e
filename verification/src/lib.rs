//! Hiding text in PNG files: a codec for the PNG chunk envelope.
//!
//! A PNG file is an eight byte signature followed by chunks. Each chunk
//! carries a big-endian length, a four letter type tag, a payload and a
//! CRC-32 checksum over tag and payload. This crate parses, builds and
//! serializes such files, and every function states what it computes.

pub mod error;
pub mod text;
pub mod wire;
pub mod chunk_type;
pub mod chunk;
pub mod png;
pub mod commands;

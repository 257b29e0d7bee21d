//! A binary codec for bit-addressable sequences.
//!
//! A bit span is a view over packed bits that starts at an arbitrary bit of
//! its first word and covers an arbitrary number of bits. The codec writes
//! such a view as a self-describing record (ordering tag, head index, bit
//! length, word count, words) and rebuilds a validated span or owned buffer
//! from it. Integers go on the wire through `borsh`, little-endian; this is
//! format version 1: no word-width byte, and a 64-bit bit length.

pub mod array;
pub mod boxed;
pub mod domain;
pub mod error;
pub mod format;
pub mod frame;
pub mod index;
pub mod laws;
pub mod order;
mod primitive;
pub mod reader;
pub mod register;
pub mod slice;
pub mod span;
pub mod vec;
pub mod wire;

//! The bit-ordering tag of a record.
//!
//! On the wire an ordering is one byte, a code from a short list: 0 for
//! [`Lsb0`], 1 for [`Msb0`]. An ordering defined elsewhere takes a code of
//! its own; the decoder of one ordering refuses the code of every other.

use vstd::prelude::*;

verus! {

/// A policy that maps the bits of a span to the bits of a word.
///
/// The codec does not interpret the policy. It writes the policy's tag in
/// front of each record and refuses a record with another tag.
pub trait BitOrder: Sized {
    /// The byte that names this ordering on the wire.
    spec fn tag() -> u8;

    /// The byte that names this ordering on the wire.
    fn code() -> (c: u8)
        ensures
            c == Self::tag(),
    ;
}

/// The first bit of a span is the least significant bit of its word.
#[derive(Debug, Clone, Copy, PartialEq, Eq, Structural)]
pub struct Lsb0;

/// The first bit of a span is the most significant bit of its word.
#[derive(Debug, Clone, Copy, PartialEq, Eq, Structural)]
pub struct Msb0;

impl BitOrder for Lsb0 {
    open spec fn tag() -> u8 {
        0
    }

    fn code() -> (c: u8) {
        0
    }
}

impl BitOrder for Msb0 {
    open spec fn tag() -> u8 {
        1
    }

    fn code() -> (c: u8) {
        1
    }
}

} // verus!

//! A cursor over the bytes of a stream.

use vstd::prelude::*;
use vstd::slice::slice_subrange;
use crate::error::DecodeError;
use crate::primitive::read_u64;
use crate::primitive::read_u8;
use crate::register::word_of;
use crate::register::word_size;
use crate::register::BitRegister;
use crate::wire::le_value;

verus! {

/// What a decoder leaves behind: its result and the bytes it did not consume.
pub type Parsed<T> = (Result<T, DecodeError>, Seq<u8>);

/// One byte from the front of `s`.
pub open spec fn parse_u8(s: Seq<u8>) -> Parsed<u8> {
    if s.len() >= 1 {
        (Ok(s[0]), s.skip(1))
    } else {
        (Err(DecodeError::TruncatedStream), s)
    }
}

/// A 64-bit little-endian integer from the front of `s`.
pub open spec fn parse_u64(s: Seq<u8>) -> Parsed<u64> {
    if s.len() >= 8 {
        (Ok(le_value(s.take(8)) as u64), s.skip(8))
    } else {
        (Err(DecodeError::TruncatedStream), s)
    }
}

/// One register from the front of `s`.
pub open spec fn parse_word<R: BitRegister>(s: Seq<u8>) -> Parsed<R> {
    if s.len() >= word_size::<R>() {
        (Ok(word_of::<R>(s.take(word_size::<R>() as int))), s.skip(word_size::<R>() as int))
    } else {
        (Err(DecodeError::TruncatedStream), s)
    }
}

/// A cursor over a byte slice. Its view is the bytes not yet consumed.
///
/// Nothing is ever rewound. A decoder that fails for want of bytes leaves the
/// cursor behind the last field that it read in full; one that refuses what
/// a field holds has consumed that field.
#[derive(Debug)]
pub struct Reader<'a> {
    data: &'a [u8],
    pos: usize,
}

impl<'a> View for Reader<'a> {
    type V = Seq<u8>;

    closed spec fn view(&self) -> Seq<u8> {
        self.data@.skip(self.pos as int)
    }
}

impl<'a> Reader<'a> {
    #[verifier::type_invariant]
    spec fn in_bounds(self) -> bool {
        self.pos <= self.data@.len()
    }

    /// A cursor at the start of `data`.
    pub fn new(data: &'a [u8]) -> (reader: Self)
        ensures
            reader@ == data@,
    {
        Reader { data, pos: 0 }
    }

    /// The number of bytes not yet consumed.
    pub fn remaining(&self) -> (n: usize)
        ensures
            n == self@.len(),
    {
        proof {
            use_type_invariant(self);
        }
        self.data.len() - self.pos
    }

    /// The bytes not yet consumed.
    pub(crate) fn rest(&self) -> (bytes: &'a [u8])
        ensures
            bytes@ == self@,
    {
        proof {
            use_type_invariant(self);
        }
        slice_subrange(self.data, self.pos, self.data.len())
    }

    /// Moves the cursor `n` bytes on.
    pub(crate) fn advance(&mut self, n: usize)
        requires
            n <= old(self)@.len(),
        ensures
            final(self)@ == old(self)@.skip(n as int),
    {
        proof {
            use_type_invariant(&*self);
            assert(self.data@.len() == self.data.len());
        }
        self.pos = self.pos + n;
    }

    /// Reads one byte.
    pub fn take_u8(&mut self) -> (r: Result<u8, DecodeError>)
        ensures
            (r, final(self)@) == parse_u8(old(self)@),
    {
        match read_u8(self.rest()) {
            Some(value) => {
                self.advance(1);
                Ok(value)
            },
            None => Err(DecodeError::TruncatedStream),
        }
    }

    /// Reads a 64-bit little-endian integer.
    pub fn take_u64(&mut self) -> (r: Result<u64, DecodeError>)
        ensures
            (r, final(self)@) == parse_u64(old(self)@),
    {
        match read_u64(self.rest()) {
            Some(value) => {
                self.advance(8);
                Ok(value)
            },
            None => Err(DecodeError::TruncatedStream),
        }
    }

    /// Reads one register, little-endian.
    pub fn take_word<R: BitRegister>(&mut self) -> (r: Result<R, DecodeError>)
        ensures
            (r, final(self)@) == parse_word::<R>(old(self)@),
    {
        match R::decode(self.rest()) {
            Some(word) => {
                let size: u8 = R::width() / 8;
                self.advance(size as usize);
                Ok(word)
            },
            None => Err(DecodeError::TruncatedStream),
        }
    }
}

} // verus!

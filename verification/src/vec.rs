//! The bit vector: a span over words that it owns, decoded into fresh
//! storage.

use std::marker::PhantomData;
use vstd::prelude::*;
use crate::error::BitSpanError;
use crate::error::DecodeError;
use crate::format::encode_record;
use crate::format::parse_owned;
use crate::format::Record;
use crate::index::BitIdx;
use crate::order::BitOrder;
use crate::reader::Reader;
use crate::register::held_words;
use crate::register::BitStore;
use crate::slice::BitSlice;
use crate::slice::RawParts;
use crate::span::BitSpan;

verus! {

/// A span of bits over a vector of words that it owns, under the bit
/// ordering `O`.
///
/// Its view is the record of head index, bit length and the registers held
/// in all of its words. The span always ends inside the words.
#[derive(Debug)]
pub struct BitVec<T: BitStore, O: BitOrder> {
    words: Vec<T>,
    span: BitSpan<T::Mem>,
    _order: PhantomData<O>,
}

impl<T: BitStore, O: BitOrder> View for BitVec<T, O> {
    type V = Record<T::Mem>;

    closed spec fn view(&self) -> Record<T::Mem> {
        Record { head: self.span@.head, bits: self.span@.bits, words: held_words(self.words@) }
    }
}

impl<T: BitStore, O: BitOrder> BitVec<T, O> {
    #[verifier::type_invariant]
    spec fn over_words(self) -> bool {
        self.span.wf() && self.span@.elements == self.words@.len()
    }

    /// The vector that owns `words` and covers `bits` bits from bit `head` of
    /// the first of them, or `TooLong` when that reaches past the last word.
    /// The words are dropped on failure.
    pub fn from_parts(words: Vec<T>, head: BitIdx<T::Mem>, bits: u64) -> (r: Result<
        Self,
        BitSpanError,
    >)
        ensures
            ({
                let record = Record { head: head@, bits, words: held_words(words@) };
                &&& record.fits() ==> r is Ok && r->Ok_0@ == record && record.valid()
                &&& !record.fits() ==> r == Err::<Self, BitSpanError>(BitSpanError::TooLong)
            }),
    {
        match BitSpan::new(words.len(), head, bits) {
            Ok(span) => Ok(BitVec { words, span, _order: PhantomData }),
            Err(e) => Err(e),
        }
    }

    /// The span over the vector's words, borrowed.
    pub fn as_bitslice(&self) -> (slice: BitSlice<'_, T, O>)
        ensures
            slice@ == self@,
            self@.valid(),
    {
        proof {
            use_type_invariant(self);
        }
        BitSlice::from_span(self.words.as_slice(), self.span)
    }

    /// The index of the span's first bit in the first word.
    pub fn head(&self) -> (head: BitIdx<T::Mem>)
        ensures
            head@ == self@.head,
            head.wf(),
    {
        self.span.head()
    }

    /// The number of bits that the span covers.
    pub fn len(&self) -> (bits: u64)
        ensures
            bits == self@.bits,
    {
        self.span.len()
    }

    /// All the words of the vector.
    pub fn as_raw_slice(&self) -> (words: &[T])
        ensures
            held_words(words@) == self@.words,
    {
        self.words.as_slice()
    }

    /// Gives up the span and hands out the words.
    pub fn into_vec(self) -> (words: Vec<T>)
        ensures
            held_words(words@) == self@.words,
    {
        self.words
    }

    /// Writes the record of the vector's span, as [`BitSlice::serialize`]
    /// does.
    pub fn serialize(&self, writer: &mut Vec<u8>)
        ensures
            final(writer)@ == old(writer)@ + encode_record(O::tag(), self@.domain()),
    {
        self.as_bitslice().serialize(writer)
    }

    /// Reads a record into a vector of its own. The words that were read
    /// become the vector's storage; head index and bit length are laid over
    /// them by the one checked constructor. A record whose span reaches past
    /// its words fails with `InvalidData`, and the words read are dropped.
    pub fn deserialize_reader(reader: &mut Reader) -> (r: Result<Self, DecodeError>)
        ensures
            match parse_owned::<T::Mem>(O::tag(), old(reader)@) {
                (Ok(record), rest) => r is Ok && r->Ok_0@ == record && record.valid()
                    && final(reader)@ == rest,
                (Err(e), rest) => r == Err::<Self, DecodeError>(e) && final(reader)@ == rest,
            },
    {
        let parts: RawParts<T> = match BitSlice::<T, O>::deserialize_reader(reader) {
            Ok(parts) => parts,
            Err(e) => {
                return Err(e);
            },
        };
        match Self::from_parts(parts.words, parts.head, parts.bits) {
            Ok(vec) => Ok(vec),
            Err(_) => Err(DecodeError::InvalidData),
        }
    }
}

} // verus!

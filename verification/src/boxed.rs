//! The bit box: a span over a boxed slice of words.

use std::marker::PhantomData;
use vstd::prelude::*;
use crate::error::BitSpanError;
use crate::format::encode_record;
use crate::format::Record;
use crate::index::BitIdx;
use crate::order::BitOrder;
use crate::register::held_words;
use crate::register::BitStore;
use crate::slice::BitSlice;
use crate::span::BitSpan;

verus! {

/// A span of bits over a boxed slice of words that it owns, under the bit
/// ordering `O`: a bit vector that no longer grows.
///
/// Its view is the record of head index, bit length and the registers held
/// in all of its words. The span always ends inside the words.
#[derive(Debug)]
pub struct BitBox<T: BitStore, O: BitOrder> {
    words: Box<[T]>,
    span: BitSpan<T::Mem>,
    _order: PhantomData<O>,
}

impl<T: BitStore, O: BitOrder> View for BitBox<T, O> {
    type V = Record<T::Mem>;

    closed spec fn view(&self) -> Record<T::Mem> {
        Record { head: self.span@.head, bits: self.span@.bits, words: held_words(self.words@) }
    }
}

impl<T: BitStore, O: BitOrder> BitBox<T, O> {
    #[verifier::type_invariant]
    spec fn over_words(self) -> bool {
        self.span.wf() && self.span@.elements == self.words@.len()
    }

    /// The box that owns `words` and covers `bits` bits from bit `head` of
    /// the first of them, or `TooLong` when that reaches past the last word.
    pub fn from_parts(words: Box<[T]>, head: BitIdx<T::Mem>, bits: u64) -> (r: Result<
        Self,
        BitSpanError,
    >)
        ensures
            ({
                let record = Record { head: head@, bits, words: held_words(words@) };
                &&& record.fits() ==> r is Ok && r->Ok_0@ == record && record.valid()
                &&& !record.fits() ==> r == Err::<Self, BitSpanError>(BitSpanError::TooLong)
            }),
    {
        match BitSpan::new(words.len(), head, bits) {
            Ok(span) => Ok(BitBox { words, span, _order: PhantomData }),
            Err(e) => Err(e),
        }
    }

    /// The span over the box's words, borrowed.
    pub fn as_bitslice(&self) -> (slice: BitSlice<'_, T, O>)
        ensures
            slice@ == self@,
            self@.valid(),
    {
        proof {
            use_type_invariant(self);
        }
        BitSlice::from_span(&*self.words, self.span)
    }

    /// Writes the record of the box's span, as [`BitSlice::serialize`] does.
    pub fn serialize(&self, writer: &mut Vec<u8>)
        ensures
            final(writer)@ == old(writer)@ + encode_record(O::tag(), self@.domain()),
    {
        self.as_bitslice().serialize(writer)
    }
}

} // verus!

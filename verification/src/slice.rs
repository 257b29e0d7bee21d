//! The bit slice: a span over borrowed words, and its record on the wire.

use std::marker::PhantomData;
use vstd::prelude::*;
use vstd::slice::slice_subrange;
use crate::domain::Domain;
use crate::error::BitSpanError;
use crate::error::DecodeError;
use crate::format::encode_record;
use crate::format::parse_record;
use crate::format::parse_tag;
use crate::format::Record;
use crate::index::BitIdx;
use crate::order::BitOrder;
use crate::primitive::write_u64;
use crate::primitive::write_u8;
use crate::reader::Reader;
use crate::register::held_words;
use crate::register::BitStore;
use crate::span::BitSpan;
use crate::span::Geometry;

verus! {

/// Reads the ordering tag and refuses any but `O`'s.
pub(crate) fn read_tag<O: BitOrder>(reader: &mut Reader) -> (r: Result<(), DecodeError>)
    ensures
        (r, final(reader)@) == parse_tag(O::tag(), old(reader)@),
{
    match reader.take_u8() {
        Ok(byte) => if byte == O::code() {
            Ok(())
        } else {
            Err(DecodeError::MalformedTag)
        },
        Err(e) => Err(e),
    }
}

/// The fields of a record as they were read: a head index inside its word, a
/// bit length, and the words. Nothing was asked of how they go together: the
/// span may end before the last word, or behind it.
#[derive(Debug)]
pub struct RawParts<T: BitStore> {
    /// The index of the span's first bit in the first word.
    pub head: BitIdx<T::Mem>,
    /// The number of bits that the span covers.
    pub bits: u64,
    /// The words of the record.
    pub words: Vec<T>,
}

impl<T: BitStore> View for RawParts<T> {
    type V = Record<T::Mem>;

    open spec fn view(&self) -> Record<T::Mem> {
        Record { head: self.head@, bits: self.bits, words: held_words(self.words@) }
    }
}

/// A span of bits over borrowed words, under the bit ordering `O`.
///
/// Its view is the record of head index, bit length and the registers held
/// in all of its words. The span always ends inside the words.
#[derive(Debug)]
pub struct BitSlice<'a, T: BitStore, O: BitOrder> {
    words: &'a [T],
    span: BitSpan<T::Mem>,
    _order: PhantomData<O>,
}

impl<'a, T: BitStore, O: BitOrder> View for BitSlice<'a, T, O> {
    type V = Record<T::Mem>;

    closed spec fn view(&self) -> Record<T::Mem> {
        Record { head: self.span@.head, bits: self.span@.bits, words: held_words(self.words@) }
    }
}

impl<'a, T: BitStore, O: BitOrder> BitSlice<'a, T, O> {
    #[verifier::type_invariant]
    spec fn over_words(self) -> bool {
        self.span.wf() && self.span@.elements == self.words@.len()
    }

    /// The span of `bits` bits from bit `head` of the first of `words`, or
    /// `TooLong` when that reaches past the last of them.
    pub fn new(words: &'a [T], head: BitIdx<T::Mem>, bits: u64) -> (r: Result<Self, BitSpanError>)
        ensures
            ({
                let record = Record { head: head@, bits, words: held_words(words@) };
                &&& record.fits() ==> r is Ok && r->Ok_0@ == record && record.valid()
                &&& !record.fits() ==> r == Err::<Self, BitSpanError>(BitSpanError::TooLong)
            }),
    {
        match BitSpan::new(words.len(), head, bits) {
            Ok(span) => Ok(BitSlice { words, span, _order: PhantomData }),
            Err(e) => Err(e),
        }
    }

    /// The slice that lays `span` over `words`, the buffer that it was made
    /// for.
    pub(crate) fn from_span(words: &'a [T], span: BitSpan<T::Mem>) -> (slice: Self)
        requires
            span.wf(),
            span@.elements == words@.len(),
        ensures
            slice@ == (Record {
                head: span@.head,
                bits: span@.bits,
                words: held_words(words@),
            }),
    {
        BitSlice { words, span, _order: PhantomData }
    }

    /// The place of the span in its words.
    pub fn as_bitspan(&self) -> (span: BitSpan<T::Mem>)
        ensures
            span@ == (Geometry {
                head: self@.head,
                bits: self@.bits,
                elements: self@.words.len(),
            }),
            span.wf(),
            self@.valid(),
    {
        proof {
            use_type_invariant(self);
        }
        self.span
    }

    /// The index of the span's first bit in the first word.
    pub fn head(&self) -> (head: BitIdx<T::Mem>)
        ensures
            head@ == self@.head,
            head.wf(),
    {
        self.span.head()
    }

    /// The number of bits that the span covers.
    pub fn len(&self) -> (bits: u64)
        ensures
            bits == self@.bits,
    {
        self.span.len()
    }

    /// The words that the span touches.
    pub fn domain(&self) -> (domain: Domain<'a, wyz::comu::Const, T>)
        ensures
            domain@ == self@.domain().words,
    {
        proof {
            use_type_invariant(self);
        }
        let n: usize = self.span.elements();
        let touched = slice_subrange(self.words, 0, n);
        proof {
            assert(held_words(touched@) =~= held_words(self.words@).take(n as int));
        }
        Domain::new(touched)
    }

    /// Writes the record of the span: `O`'s tag, the head index, the bit
    /// length as a 64-bit integer, and the words that the span touches.
    pub fn serialize(&self, writer: &mut Vec<u8>)
        ensures
            final(writer)@ == old(writer)@ + encode_record(O::tag(), self@.domain()),
    {
        let ghost start = writer@;
        write_u8(O::code(), writer);
        self.span.head().serialize(writer);
        write_u64(self.span.len(), writer);
        self.domain().serialize(writer);
        proof {
            assert(writer@ =~= start + encode_record(O::tag(), self@.domain()));
        }
    }

    /// Reads a record: tag, head index, bit length and words, in that order.
    /// The first field that fails ends the call. Whether the span ends
    /// inside the words is left to whoever lays it over them.
    pub fn deserialize_reader(reader: &mut Reader) -> (r: Result<RawParts<T>, DecodeError>)
        ensures
            match parse_record::<T::Mem>(O::tag(), old(reader)@) {
                (Ok(record), rest) => r is Ok && r->Ok_0@ == record && record.head_in_word()
                    && final(reader)@ == rest,
                (Err(e), rest) => r == Err::<RawParts<T>, DecodeError>(e) && final(reader)@
                    == rest,
            },
    {
        match read_tag::<O>(reader) {
            Ok(_) => {},
            Err(e) => {
                return Err(e);
            },
        }
        let head = match BitIdx::<T::Mem>::deserialize_reader(reader) {
            Ok(head) => head,
            Err(e) => {
                return Err(e);
            },
        };
        let bits: u64 = match reader.take_u64() {
            Ok(bits) => bits,
            Err(e) => {
                return Err(e);
            },
        };
        let words = match Domain::<wyz::comu::Const, T>::deserialize_reader(reader) {
            Ok(words) => words,
            Err(e) => {
                return Err(e);
            },
        };
        Ok(RawParts { head, bits, words })
    }
}

} // verus!

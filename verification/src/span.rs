//! The geometry of a bit span, and the one way to make one.

use vstd::prelude::*;
use crate::error::BitSpanError;
use crate::format::touched;
use crate::index::BitIdx;
use crate::register::BitRegister;

verus! {

/// Where a span lies in its buffer.
pub struct Geometry {
    /// The index of the span's first bit in the first word.
    pub head: u8,
    /// The number of bits that the span covers.
    pub bits: u64,
    /// The number of words in the buffer.
    pub elements: nat,
}

/// A span that fits a buffer of `elements` words ends at or before the
/// buffer's last bit.
pub open spec fn span_fits<R: BitRegister>(elements: nat, head: u8, bits: u64) -> bool {
    head + bits <= elements * R::bits()
}

/// The words that a span touches are inside the buffer that it fits.
pub proof fn lemma_touched_in_buffer<R: BitRegister>(elements: nat, head: u8, bits: u64)
    requires
        span_fits::<R>(elements, head, bits),
    ensures
        touched::<R>(head, bits) <= elements,
{
    R::lemma_register();
    let width = R::bits() as int;
    let total = head + bits;
    assert((total + width - 1) / width <= elements) by (nonlinear_arith)
        requires
            width > 0,
            0 <= total <= elements * width,
    ;
}

/// The words that a span touches hold all of its bits.
pub proof fn lemma_touched_covers<R: BitRegister>(head: u8, bits: u64)
    ensures
        head + bits <= touched::<R>(head, bits) * R::bits(),
        head + bits > (touched::<R>(head, bits) - 1) * R::bits(),
{
    R::lemma_register();
    let width = R::bits() as int;
    let total = head + bits;
    assert(total <= ((total + width - 1) / width) * width && total > ((total + width - 1) / width
        - 1) * width) by (nonlinear_arith)
        requires
            width > 0,
            0 <= total,
    ;
}

/// The place of a span in a buffer of words of register type `R`: the head
/// index, the bit length and the number of words in the buffer.
///
/// A span never reaches past its buffer. [`BitSpan::new`] is the only way to
/// make one, and it refuses what does not fit.
#[derive(Debug)]
pub struct BitSpan<R: BitRegister> {
    head: BitIdx<R>,
    bits: u64,
    elements: usize,
}

impl<R: BitRegister> Clone for BitSpan<R> {
    fn clone(&self) -> (copy: Self)
        ensures
            copy == *self,
    {
        proof {
            use_type_invariant(self);
        }
        BitSpan { head: self.head, bits: self.bits, elements: self.elements }
    }
}

impl<R: BitRegister> Copy for BitSpan<R> {

}

impl<R: BitRegister> View for BitSpan<R> {
    type V = Geometry;

    closed spec fn view(&self) -> Geometry {
        Geometry { head: self.head@, bits: self.bits, elements: self.elements as nat }
    }
}

impl<R: BitRegister> BitSpan<R> {
    #[verifier::type_invariant]
    spec fn in_buffer(self) -> bool {
        self.head.wf() && span_fits::<R>(self.elements as nat, self.head@, self.bits)
    }

    /// A span is well formed when its head index is inside the first word and
    /// it ends inside its buffer. Every span that the library hands out is.
    pub open spec fn wf(self) -> bool {
        self@.head < R::bits() && span_fits::<R>(self@.elements, self@.head, self@.bits)
    }

    /// The span of `bits` bits from bit `head` of the first word of a buffer
    /// of `elements` words, or `TooLong` when that reaches past the buffer.
    pub fn new(elements: usize, head: BitIdx<R>, bits: u64) -> (r: Result<Self, BitSpanError>)
        ensures
            span_fits::<R>(elements as nat, head@, bits) ==> r is Ok && r->Ok_0.wf() && r->Ok_0@
                == (Geometry { head: head@, bits, elements: elements as nat }),
            !span_fits::<R>(elements as nat, head@, bits) ==> r == Err::<Self, BitSpanError>(
                BitSpanError::TooLong,
            ),
    {
        let width: u8 = R::width();
        let index: u8 = head.into_inner();
        assert(elements * width <= 0xffff_ffff_ffff_ffff * 0xff) by (nonlinear_arith)
            requires
                elements <= 0xffff_ffff_ffff_ffff,
                width <= 0xff,
        ;
        let capacity: u128 = (elements as u128) * (width as u128);
        if index as u128 + bits as u128 <= capacity {
            Ok(BitSpan { head, bits, elements })
        } else {
            Err(BitSpanError::TooLong)
        }
    }

    /// The index of the span's first bit in the first word.
    pub fn head(&self) -> (head: BitIdx<R>)
        ensures
            head@ == self@.head,
            head.wf(),
    {
        proof {
            use_type_invariant(self);
        }
        self.head
    }

    /// The number of bits that the span covers.
    pub fn len(&self) -> (bits: u64)
        ensures
            bits == self@.bits,
    {
        self.bits
    }

    /// The number of words in the buffer.
    pub fn capacity(&self) -> (elements: usize)
        ensures
            elements == self@.elements,
            self.wf(),
    {
        proof {
            use_type_invariant(self);
        }
        self.elements
    }

    /// The number of words, from the first, that the span touches.
    pub fn elements(&self) -> (n: usize)
        ensures
            n == touched::<R>(self@.head, self@.bits),
            n <= self@.elements,
    {
        proof {
            use_type_invariant(self);
            R::lemma_register();
            lemma_touched_in_buffer::<R>(self.elements as nat, self.head@, self.bits);
        }
        let width: u128 = R::width() as u128;
        let total: u128 = self.head.into_inner() as u128 + self.bits as u128;
        ((total + width - 1) / width) as usize
    }
}

} // verus!

//! The head index: where in its first word a span begins.

use std::marker::PhantomData;
use vstd::prelude::*;
use crate::error::BitIdxError;
use crate::error::DecodeError;
use crate::primitive::write_u8;
use crate::reader::parse_u8;
use crate::reader::Parsed;
use crate::reader::Reader;
use crate::register::BitRegister;

verus! {

/// A head index from the front of `s`: one byte, which must be below the
/// width of the register `R`. The byte is consumed either way.
pub open spec fn parse_head<R: BitRegister>(s: Seq<u8>) -> Parsed<u8> {
    match parse_u8(s) {
        (Ok(byte), rest) => if byte < R::bits() {
            (Ok(byte), rest)
        } else {
            (Err(DecodeError::InvalidHeadIndex), rest)
        },
        (Err(e), rest) => (Err(e), rest),
    }
}

/// The index of a bit in a register of type `R`: a number below `R`'s width.
#[derive(Debug)]
pub struct BitIdx<R: BitRegister> {
    idx: u8,
    _ty: PhantomData<R>,
}

impl<R: BitRegister> Clone for BitIdx<R> {
    fn clone(&self) -> (copy: Self)
        ensures
            copy == *self,
    {
        proof {
            use_type_invariant(self);
        }
        BitIdx { idx: self.idx, _ty: PhantomData }
    }
}

impl<R: BitRegister> Copy for BitIdx<R> {

}

impl<R: BitRegister> View for BitIdx<R> {
    type V = u8;

    closed spec fn view(&self) -> u8 {
        self.idx
    }
}

impl<R: BitRegister> BitIdx<R> {
    #[verifier::type_invariant]
    spec fn in_register(self) -> bool {
        self.idx < R::bits()
    }

    /// An index is well formed when it is below the width of its register.
    /// Every index that the library hands out is.
    pub open spec fn wf(self) -> bool {
        self@ < R::bits()
    }

    /// The index `idx`, or an error when `idx` is not below the width of `R`.
    pub fn new(idx: u8) -> (r: Result<Self, BitIdxError>)
        ensures
            idx < R::bits() ==> r is Ok && r->Ok_0@ == idx && r->Ok_0.wf(),
            idx >= R::bits() ==> r == Err::<Self, BitIdxError>(BitIdxError { value: idx }),
    {
        if idx < R::width() {
            Ok(BitIdx { idx, _ty: PhantomData })
        } else {
            Err(BitIdxError { value: idx })
        }
    }

    /// The index as a plain number.
    pub fn into_inner(self) -> (idx: u8)
        ensures
            idx == self@,
            idx < R::bits(),
    {
        proof {
            use_type_invariant(&self);
        }
        self.idx
    }

    /// Writes the index as one byte.
    pub fn serialize(&self, writer: &mut Vec<u8>)
        ensures
            final(writer)@ == old(writer)@.push(self@),
    {
        write_u8(self.idx, writer);
    }

    /// Reads an index: one byte, refused with `InvalidHeadIndex` when it is
    /// not below the width of `R`.
    pub fn deserialize_reader(reader: &mut Reader) -> (r: Result<Self, DecodeError>)
        ensures
            match parse_head::<R>(old(reader)@) {
                (Ok(idx), rest) => r is Ok && r->Ok_0@ == idx && r->Ok_0.wf() && final(reader)@
                    == rest,
                (Err(e), rest) => r == Err::<Self, DecodeError>(e) && final(reader)@ == rest,
            },
    {
        let byte: u8 = match reader.take_u8() {
            Ok(byte) => byte,
            Err(e) => {
                return Err(e);
            },
        };
        match Self::new(byte) {
            Ok(idx) => Ok(idx),
            Err(_) => Err(DecodeError::InvalidHeadIndex),
        }
    }
}

} // verus!

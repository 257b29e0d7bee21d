//! The words that back a bit span: registers, and the memory that holds them.

use vstd::prelude::*;
use crate::primitive::read_u16;
use crate::primitive::read_u32;
use crate::primitive::read_u64;
use crate::primitive::read_u8;
use crate::primitive::write_u16;
use crate::primitive::write_u32;
use crate::primitive::write_u64;
use crate::primitive::write_u8;
use crate::wire::byte_limit;
use crate::wire::le_bytes;
use crate::wire::le_value;
use crate::wire::lemma_byte_limits;

verus! {

/// An unsigned register of 8, 16, 32 or 64 bits: the unit of storage and of
/// what goes on the wire.
pub trait BitRegister: Copy + Sized {
    /// The width of the register in bits.
    spec fn bits() -> nat;

    /// The number that the register holds.
    spec fn value(self) -> nat;

    /// The register that holds `value`.
    spec fn from_value(value: nat) -> Self;

    /// The width is one of the four that the codec knows, and a register and
    /// the number it holds determine each other.
    proof fn lemma_register()
        ensures
            Self::bits() == 8 || Self::bits() == 16 || Self::bits() == 32 || Self::bits() == 64,
            forall|r: Self|
                #![trigger r.value()]
                r.value() < byte_limit(Self::bits() / 8) && Self::from_value(r.value()) == r,
            forall|n: nat|
                n < byte_limit(Self::bits() / 8) ==> (#[trigger] Self::from_value(n)).value() == n,
    ;

    /// The width of the register in bits.
    fn width() -> (w: u8)
        ensures
            w == Self::bits(),
    ;

    /// The register with every bit clear.
    fn zero() -> (r: Self)
        ensures
            r.value() == 0,
    ;

    /// Appends the register's little-endian bytes to `writer`.
    fn encode(self, writer: &mut Vec<u8>)
        ensures
            final(writer)@ == old(writer)@ + le_bytes(self.value(), Self::bits() / 8),
    ;

    /// Reads a register from the front of `bytes`; `None` when `bytes` is
    /// shorter than a register.
    fn decode(bytes: &[u8]) -> (r: Option<Self>)
        ensures
            bytes@.len() >= Self::bits() / 8 ==> r == Some(
                Self::from_value(le_value(bytes@.take((Self::bits() / 8) as int))),
            ),
            bytes@.len() < Self::bits() / 8 ==> r is None,
    ;
}

/// The number of bytes that a register takes on the wire.
pub open spec fn word_size<R: BitRegister>() -> nat {
    R::bits() / 8
}

/// The bytes that a register takes on the wire: all of its bits, used by a
/// span or not, least significant byte first.
pub open spec fn word_bytes<R: BitRegister>(word: R) -> Seq<u8> {
    le_bytes(word.value(), word_size::<R>())
}

/// The register that `bytes` stand for.
pub open spec fn word_of<R: BitRegister>(bytes: Seq<u8>) -> R {
    R::from_value(le_value(bytes))
}

impl BitRegister for u8 {
    open spec fn bits() -> nat {
        8
    }

    open spec fn value(self) -> nat {
        self as nat
    }

    open spec fn from_value(value: nat) -> Self {
        value as u8
    }

    proof fn lemma_register() {
        lemma_byte_limits();
    }

    fn width() -> (w: u8) {
        8
    }

    fn zero() -> (r: Self) {
        0
    }

    fn encode(self, writer: &mut Vec<u8>) {
        proof {
            reveal_with_fuel(le_bytes, 2);
            assert(le_bytes(self as nat, 1) =~= seq![self]);
        }
        write_u8(self, writer);
    }

    fn decode(bytes: &[u8]) -> (r: Option<Self>) {
        proof {
            reveal_with_fuel(le_value, 2);
        }
        read_u8(bytes)
    }
}

impl BitRegister for u16 {
    open spec fn bits() -> nat {
        16
    }

    open spec fn value(self) -> nat {
        self as nat
    }

    open spec fn from_value(value: nat) -> Self {
        value as u16
    }

    proof fn lemma_register() {
        lemma_byte_limits();
    }

    fn width() -> (w: u8) {
        16
    }

    fn zero() -> (r: Self) {
        0
    }

    fn encode(self, writer: &mut Vec<u8>) {
        write_u16(self, writer);
    }

    fn decode(bytes: &[u8]) -> (r: Option<Self>) {
        read_u16(bytes)
    }
}

impl BitRegister for u32 {
    open spec fn bits() -> nat {
        32
    }

    open spec fn value(self) -> nat {
        self as nat
    }

    open spec fn from_value(value: nat) -> Self {
        value as u32
    }

    proof fn lemma_register() {
        lemma_byte_limits();
    }

    fn width() -> (w: u8) {
        32
    }

    fn zero() -> (r: Self) {
        0
    }

    fn encode(self, writer: &mut Vec<u8>) {
        write_u32(self, writer);
    }

    fn decode(bytes: &[u8]) -> (r: Option<Self>) {
        read_u32(bytes)
    }
}

impl BitRegister for u64 {
    open spec fn bits() -> nat {
        64
    }

    open spec fn value(self) -> nat {
        self as nat
    }

    open spec fn from_value(value: nat) -> Self {
        value as u64
    }

    proof fn lemma_register() {
        lemma_byte_limits();
    }

    fn width() -> (w: u8) {
        64
    }

    fn zero() -> (r: Self) {
        0
    }

    fn encode(self, writer: &mut Vec<u8>) {
        write_u64(self, writer);
    }

    fn decode(bytes: &[u8]) -> (r: Option<Self>) {
        read_u64(bytes)
    }
}

/// A word of memory that holds a register.
///
/// The codec never looks into memory itself: it loads the register from a
/// word to write it, and makes a word from the register it has read.
pub trait BitStore: Copy + Sized {
    /// The register that a word of this memory holds.
    type Mem: BitRegister;

    /// The register held in the word.
    spec fn held(self) -> Self::Mem;

    /// Loads the register from the word.
    fn load_value(&self) -> (value: Self::Mem)
        ensures
            value == self.held(),
    ;

    /// A word that holds `value`.
    fn new(value: Self::Mem) -> (word: Self)
        ensures
            word.held() == value,
    ;
}

impl BitStore for u8 {
    type Mem = u8;

    open spec fn held(self) -> u8 {
        self
    }

    fn load_value(&self) -> (value: u8) {
        *self
    }

    fn new(value: u8) -> (word: Self) {
        value
    }
}

impl BitStore for u16 {
    type Mem = u16;

    open spec fn held(self) -> u16 {
        self
    }

    fn load_value(&self) -> (value: u16) {
        *self
    }

    fn new(value: u16) -> (word: Self) {
        value
    }
}

impl BitStore for u32 {
    type Mem = u32;

    open spec fn held(self) -> u32 {
        self
    }

    fn load_value(&self) -> (value: u32) {
        *self
    }

    fn new(value: u32) -> (word: Self) {
        value
    }
}

impl BitStore for u64 {
    type Mem = u64;

    open spec fn held(self) -> u64 {
        self
    }

    fn load_value(&self) -> (value: u64) {
        *self
    }

    fn new(value: u64) -> (word: Self) {
        value
    }
}

/// The registers held in a run of words.
pub open spec fn held_words<T: BitStore>(words: Seq<T>) -> Seq<T::Mem> {
    Seq::new(words.len(), |i: int| words[i].held())
}

} // verus!

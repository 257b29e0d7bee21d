//! The integers of the wire, written and read by `borsh`.
//!
//! Nothing in this file is proved: each function makes one call into `borsh`
//! and states what that call does. `borsh` writes an unsigned integer as its
//! little-endian bytes and reads it back from the front of a byte slice.

use vstd::prelude::*;
use crate::wire::le_bytes;
use crate::wire::le_value;

verus! {

/// `<u8 as borsh::BorshSerialize>::serialize` into a `Vec<u8>`: the byte is
/// appended to the vector, which cannot fail.
#[verifier::external_body]
pub(crate) fn write_u8(value: u8, writer: &mut Vec<u8>)
    ensures
        final(writer)@ == old(writer)@.push(value),
{
    borsh::BorshSerialize::serialize(&value, writer).unwrap();
}

/// `<u16 as borsh::BorshSerialize>::serialize` into a `Vec<u8>`: the two
/// little-endian bytes of the value are appended to the vector.
#[verifier::external_body]
pub(crate) fn write_u16(value: u16, writer: &mut Vec<u8>)
    ensures
        final(writer)@ == old(writer)@ + le_bytes(value as nat, 2),
{
    borsh::BorshSerialize::serialize(&value, writer).unwrap();
}

/// `<u32 as borsh::BorshSerialize>::serialize` into a `Vec<u8>`: the four
/// little-endian bytes of the value are appended to the vector.
#[verifier::external_body]
pub(crate) fn write_u32(value: u32, writer: &mut Vec<u8>)
    ensures
        final(writer)@ == old(writer)@ + le_bytes(value as nat, 4),
{
    borsh::BorshSerialize::serialize(&value, writer).unwrap();
}

/// `<u64 as borsh::BorshSerialize>::serialize` into a `Vec<u8>`: the eight
/// little-endian bytes of the value are appended to the vector.
#[verifier::external_body]
pub(crate) fn write_u64(value: u64, writer: &mut Vec<u8>)
    ensures
        final(writer)@ == old(writer)@ + le_bytes(value as nat, 8),
{
    borsh::BorshSerialize::serialize(&value, writer).unwrap();
}

/// `<u8 as borsh::BorshDeserialize>::deserialize` on a byte slice: the first
/// byte, or an error (here `None`) when the slice is empty.
#[verifier::external_body]
pub(crate) fn read_u8(bytes: &[u8]) -> (value: Option<u8>)
    ensures
        bytes@.len() >= 1 ==> value == Some(bytes@[0]),
        bytes@.len() < 1 ==> value is None,
{
    let mut rest = bytes;
    <u8 as borsh::BorshDeserialize>::deserialize(&mut rest).ok()
}

/// `<u16 as borsh::BorshDeserialize>::deserialize` on a byte slice: the
/// number that the first two bytes stand for, little-endian, or an error
/// (here `None`) when the slice is shorter.
#[verifier::external_body]
pub(crate) fn read_u16(bytes: &[u8]) -> (value: Option<u16>)
    ensures
        bytes@.len() >= 2 ==> value == Some(le_value(bytes@.take(2)) as u16),
        bytes@.len() < 2 ==> value is None,
{
    let mut rest = bytes;
    <u16 as borsh::BorshDeserialize>::deserialize(&mut rest).ok()
}

/// `<u32 as borsh::BorshDeserialize>::deserialize` on a byte slice: the
/// number that the first four bytes stand for, little-endian, or an error
/// (here `None`) when the slice is shorter.
#[verifier::external_body]
pub(crate) fn read_u32(bytes: &[u8]) -> (value: Option<u32>)
    ensures
        bytes@.len() >= 4 ==> value == Some(le_value(bytes@.take(4)) as u32),
        bytes@.len() < 4 ==> value is None,
{
    let mut rest = bytes;
    <u32 as borsh::BorshDeserialize>::deserialize(&mut rest).ok()
}

/// `<u64 as borsh::BorshDeserialize>::deserialize` on a byte slice: the
/// number that the first eight bytes stand for, little-endian, or an error
/// (here `None`) when the slice is shorter.
#[verifier::external_body]
pub(crate) fn read_u64(bytes: &[u8]) -> (value: Option<u64>)
    ensures
        bytes@.len() >= 8 ==> value == Some(le_value(bytes@.take(8)) as u64),
        bytes@.len() < 8 ==> value is None,
{
    let mut rest = bytes;
    <u64 as borsh::BorshDeserialize>::deserialize(&mut rest).ok()
}

} // verus!

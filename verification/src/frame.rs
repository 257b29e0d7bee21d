//! Reading a frame from a stream, for a decoder that works on a slice.
//!
//! The decoders take their bytes from a slice. Whoever holds a stream
//! instead asks here, with the bytes read so far, what to do next: read
//! some more, or hand the bytes to the decoder. Where the stream ends
//! before a read is complete, the bytes in hand go to the decoder all the
//! same, and the decoder says what is wrong with them.

use vstd::pervasive::unreached;
use vstd::prelude::*;
use vstd::slice::slice_subrange;
use crate::primitive::read_u64;
use crate::register::word_size;
use crate::register::BitRegister;
use crate::wire::le_value;
use crate::wire::lemma_byte_limits;
use crate::wire::lemma_le_value_bound;

verus! {

/// The most bytes that one step asks for. A count on the wire may announce
/// any length: what it announces is read chunk by chunk, so no more is
/// allocated than the stream holds, plus one chunk.
pub const CHUNK: usize = 4096;

/// The bytes of a record in front of its words: tag, head index, bit length
/// and word count.
pub const RECORD_HEADER: usize = 18;

/// What to do next with a stream.
#[derive(Debug, Clone, Copy, PartialEq, Eq, Structural)]
pub enum Step {
    /// Read this many bytes more, at least one, and ask again.
    Read(usize),
    /// The frame is complete: decode it.
    Decode,
}

/// The step from `len` bytes in hand toward a frame of `total` bytes: the
/// bytes that are missing, a chunk at most.
pub open spec fn step_toward(len: nat, total: nat) -> Step {
    if len >= total {
        Step::Decode
    } else if total - len <= CHUNK {
        Step::Read((total - len) as usize)
    } else {
        Step::Read(CHUNK)
    }
}

/// The length of the record that begins with `s`, as far as `s` tells: the
/// header, and behind a complete header the words that its count announces.
pub open spec fn record_frame<R: BitRegister>(s: Seq<u8>) -> nat {
    if s.len() < RECORD_HEADER {
        RECORD_HEADER as nat
    } else {
        RECORD_HEADER as nat + le_value(s.subrange(10, 18)) * word_size::<R>()
    }
}

/// The length of an array of `n` words.
pub open spec fn array_frame<R: BitRegister>(n: nat) -> nat {
    n * word_size::<R>()
}

/// The step toward a frame of `total` bytes.
fn toward(len: usize, total: u128) -> (step: Step)
    ensures
        step == step_toward(len as nat, total as nat),
{
    if len as u128 >= total {
        Step::Decode
    } else if total - len as u128 <= CHUNK as u128 {
        Step::Read((total - len as u128) as usize)
    } else {
        Step::Read(CHUNK)
    }
}

/// The next step toward a head index, with `buffered` bytes in hand.
pub fn index_step(buffered: usize) -> (step: Step)
    ensures
        step == step_toward(buffered as nat, 1),
{
    toward(buffered, 1)
}

/// The next step toward an array of `n` words of register type `R`, with
/// `buffered` bytes in hand.
pub fn array_step<R: BitRegister>(buffered: usize, n: usize) -> (step: Step)
    ensures
        step == step_toward(buffered as nat, array_frame::<R>(n as nat)),
{
    proof {
        R::lemma_register();
    }
    let size: u128 = (R::width() / 8) as u128;
    assert(n * size <= 0xffff_ffff_ffff_ffff * 8) by (nonlinear_arith)
        requires
            n <= 0xffff_ffff_ffff_ffff,
            size <= 8,
    ;
    toward(buffered, n as u128 * size)
}

/// The next step toward a record with words of register type `R`, with the
/// bytes `buffered` in hand: first the header, then the words that the
/// header's count announces.
pub fn record_step<R: BitRegister>(buffered: &[u8]) -> (step: Step)
    ensures
        step == step_toward(buffered@.len(), record_frame::<R>(buffered@)),
{
    if buffered.len() < RECORD_HEADER {
        return toward(buffered.len(), RECORD_HEADER as u128);
    }
    proof {
        R::lemma_register();
        assert(buffered@.subrange(10, 18).take(8) =~= buffered@.subrange(10, 18));
        lemma_le_value_bound(buffered@.subrange(10, 18));
        lemma_byte_limits();
    }
    let count: u64 = match read_u64(slice_subrange(buffered, 10, 18)) {
        Some(count) => count,
        None => unreached(),
    };
    let size: u128 = (R::width() / 8) as u128;
    assert(count * size <= 0xffff_ffff_ffff_ffff * 8) by (nonlinear_arith)
        requires
            count <= 0xffff_ffff_ffff_ffff,
            size <= 8,
    ;
    toward(buffered.len(), RECORD_HEADER as u128 + count as u128 * size)
}

} // verus!

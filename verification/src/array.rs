//! The bit array: a fixed number of words, written without a count.

use std::marker::PhantomData;
use vstd::prelude::*;
use crate::domain::write_run;
use crate::error::DecodeError;
use crate::format::encode_run;
use crate::format::lemma_run_short;
use crate::format::lemma_word_step;
use crate::format::parse_run;
use crate::format::word_at;
use crate::format::words_at;
use crate::order::BitOrder;
use crate::reader::Reader;
use crate::register::held_words;
use crate::register::word_size;
use crate::register::BitRegister;
use crate::register::BitStore;

verus! {

/// `N` words whose every bit is addressed, under the bit ordering `O`. An
/// array of one word is the single-word shape.
///
/// Its view is the registers held in its words. The number of words is part
/// of the type, so the wire carries the words alone: no tag, no head index,
/// no bit length, no count.
#[derive(Debug)]
pub struct BitArray<T: BitStore, O: BitOrder, const N: usize> {
    data: [T; N],
    _order: PhantomData<O>,
}

impl<T: BitStore, O: BitOrder, const N: usize> View for BitArray<T, O, N> {
    type V = Seq<T::Mem>;

    closed spec fn view(&self) -> Seq<T::Mem> {
        held_words(self.data@)
    }
}

impl<T: BitStore, O: BitOrder, const N: usize> BitArray<T, O, N> {
    /// The array over `data`.
    pub fn new(data: [T; N]) -> (array: Self)
        ensures
            array@ == held_words(data@),
    {
        BitArray { data, _order: PhantomData }
    }

    /// Hands out the words.
    pub fn into_inner(self) -> (data: [T; N])
        ensures
            held_words(data@) == self@,
    {
        self.data
    }

    /// The words of the array.
    pub fn as_raw_slice(&self) -> (words: &[T])
        ensures
            held_words(words@) == self@,
    {
        self.data.as_slice()
    }

    /// Writes the `N` words, each with all of its bits, and nothing else.
    pub fn serialize(&self, writer: &mut Vec<u8>)
        ensures
            final(writer)@ == old(writer)@ + encode_run(self@),
    {
        write_run(self.data.as_slice(), writer);
    }

    /// Reads `N` words. Every slot is written before the array is handed
    /// out: a stream that ends before the `N`-th word fails with
    /// `TruncatedStream`, and the words read so far are dropped.
    pub fn deserialize_reader(reader: &mut Reader) -> (r: Result<Self, DecodeError>)
        ensures
            match parse_run::<T::Mem>(old(reader)@, N as nat) {
                (Ok(words), rest) => r is Ok && r->Ok_0@ == words && final(reader)@ == rest,
                (Err(e), rest) => r == Err::<Self, DecodeError>(e) && final(reader)@ == rest,
            },
    {
        let ghost s = reader@;
        let ghost size = word_size::<T::Mem>();
        proof {
            T::Mem::lemma_register();
            assert(s.skip(0) =~= s);
        }
        let mut data: [T; N] = [T::new(T::Mem::zero()); N];
        let mut i: usize = 0;
        while i < N
            invariant
                s == old(reader)@,
                size == word_size::<T::Mem>(),
                size > 0,
                i <= N,
                i * size <= s.len(),
                reader@ == s.skip((i * size) as int),
                forall|j: int| 0 <= j < i ==> (#[trigger] data@[j]).held() == word_at::<T::Mem>(s, j),
            decreases N - i,
        {
            match reader.take_word::<T::Mem>() {
                Ok(value) => {
                    proof {
                        lemma_word_step(s, i as nat, size);
                    }
                    data[i] = T::new(value);
                },
                Err(e) => {
                    proof {
                        lemma_run_short(s.len(), i as nat, N as nat, size);
                    }
                    return Err(e);
                },
            }
            i = i + 1;
        }
        proof {
            assert(held_words(data@) =~= words_at::<T::Mem>(s, N as nat));
        }
        Ok(BitArray { data, _order: PhantomData })
    }
}

} // verus!

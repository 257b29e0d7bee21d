//! The word domain: the whole words that back a span, as a count-prefixed
//! sequence on the wire.

use std::marker::PhantomData;
use vstd::prelude::*;
use crate::error::DecodeError;
use crate::format::encode_run;
use crate::format::lemma_run_push;
use crate::format::lemma_run_short;
use crate::format::lemma_word_step;
use crate::format::encode_words;
use crate::format::parse_run;
use crate::format::parse_words;
use crate::format::word_at;
use crate::format::words_at;
use crate::primitive::write_u64;
use crate::reader::Reader;
use crate::register::held_words;
use crate::register::word_size;
use crate::register::BitRegister;
use crate::register::BitStore;

verus! {

/// `wyz::comu::Const`, the marker of access that only reads. It has no value
/// that the library looks at: it stands in the type of a domain.
#[verifier::external_type_specification]
#[verifier::external_body]
pub struct ExConst(wyz::comu::Const);

/// Appends the registers held in `words` to `writer`, one after the other.
pub(crate) fn write_run<T: BitStore>(words: &[T], writer: &mut Vec<u8>)
    ensures
        final(writer)@ == old(writer)@ + encode_run(held_words(words@)),
{
    let ghost start = writer@;
    let ghost held = held_words(words@);
    let count: usize = words.len();
    let mut i: usize = 0;
    assert(encode_run(held.take(0)) =~= Seq::<u8>::empty());
    while i < count
        invariant
            count == words@.len(),
            held == held_words(words@),
            i <= count,
            writer@ == start + encode_run(held.take(i as int)),
        decreases count - i,
    {
        let value = words[i].load_value();
        proof {
            lemma_run_push(held, i as int);
        }
        value.encode(writer);
        i = i + 1;
    }
    assert(held.take(count as int) =~= held);
}

/// Reads a run of `count` words. Each word is read on its own, so a count
/// that the stream cannot back fails at the first missing word, before
/// anything of that size is allocated.
pub(crate) fn read_run<T: BitStore>(reader: &mut Reader, count: u64) -> (r: Result<
    Vec<T>,
    DecodeError,
>)
    ensures
        match parse_run::<T::Mem>(old(reader)@, count as nat) {
            (Ok(words), rest) => r is Ok && held_words(r->Ok_0@) == words && final(reader)@
                == rest,
            (Err(e), rest) => r == Err::<Vec<T>, DecodeError>(e) && final(reader)@ == rest,
        },
{
    let ghost s = reader@;
    let ghost size = word_size::<T::Mem>();
    proof {
        T::Mem::lemma_register();
        assert(s.skip(0) =~= s);
    }
    let mut buffer: Vec<T> = Vec::new();
    let mut i: u64 = 0;
    while i < count
        invariant
            s == old(reader)@,
            size == word_size::<T::Mem>(),
            size > 0,
            i <= count,
            i * size <= s.len(),
            reader@ == s.skip((i * size) as int),
            buffer@.len() == i,
            forall|j: int| 0 <= j < i ==> (#[trigger] buffer@[j]).held() == word_at::<T::Mem>(s, j),
        decreases count - i,
    {
        match reader.take_word::<T::Mem>() {
            Ok(value) => {
                proof {
                    lemma_word_step(s, i as nat, size);
                }
                buffer.push(T::new(value));
            },
            Err(e) => {
                proof {
                    lemma_run_short(s.len(), i as nat, count as nat, size);
                }
                return Err(e);
            },
        }
        i = i + 1;
    }
    proof {
        assert(held_words(buffer@) =~= words_at::<T::Mem>(s, count as nat));
        assert(count * size <= s.len());
    }
    Ok(buffer)
}

/// The words that back a span, in order: the first, which the span may use
/// from its head index on, the whole words between, and the last, which it
/// may use in part. `M` marks the access that the domain gives; the codec
/// writes domains that only read.
#[derive(Debug)]
pub struct Domain<'a, M, T: BitStore> {
    words: &'a [T],
    _access: PhantomData<M>,
}

impl<'a, M, T: BitStore> View for Domain<'a, M, T> {
    type V = Seq<T::Mem>;

    closed spec fn view(&self) -> Seq<T::Mem> {
        held_words(self.words@)
    }
}

impl<'a, T: BitStore> Domain<'a, wyz::comu::Const, T> {
    /// The domain made of all of `words`.
    pub fn new(words: &'a [T]) -> (domain: Self)
        ensures
            domain@ == held_words(words@),
    {
        Domain { words, _access: PhantomData }
    }

    /// The number of words in the domain.
    pub fn len(&self) -> (n: usize)
        ensures
            n == self@.len(),
    {
        self.words.len()
    }

    /// The words of the domain.
    pub fn as_raw_slice(&self) -> (words: &'a [T])
        ensures
            held_words(words@) == self@,
    {
        self.words
    }

    /// Writes the domain: the number of words as a 64-bit integer, then each
    /// word with all of its bits. No bit is masked, used by the span or not.
    pub fn serialize(&self, writer: &mut Vec<u8>)
        ensures
            final(writer)@ == old(writer)@ + encode_words(self@),
    {
        write_u64(self.words.len() as u64, writer);
        write_run(self.words, writer);
    }

    /// Reads a word sequence: the count, then that many words. Fails with
    /// `TruncatedStream` where the stream ends before the last of them.
    pub fn deserialize_reader(reader: &mut Reader) -> (r: Result<Vec<T>, DecodeError>)
        ensures
            match parse_words::<T::Mem>(old(reader)@) {
                (Ok(words), rest) => r is Ok && held_words(r->Ok_0@) == words && final(reader)@
                    == rest,
                (Err(e), rest) => r == Err::<Vec<T>, DecodeError>(e) && final(reader)@ == rest,
            },
    {
        let count: u64 = match reader.take_u64() {
            Ok(count) => count,
            Err(e) => {
                return Err(e);
            },
        };
        read_run::<T>(reader, count)
    }
}

} // verus!

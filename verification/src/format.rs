//! The wire format of a record, as functions on byte sequences.
//!
//! A record is, in this order: the tag of the bit ordering (one byte), the
//! head index (one byte), the bit length (64 bits, little-endian), the
//! number of words (64 bits, little-endian), and the words themselves, each
//! with all of its bits, least significant byte first. An array of fixed
//! length is its words alone.

use vstd::prelude::*;
use crate::error::DecodeError;
use crate::index::parse_head;
use crate::reader::parse_u64;
use crate::reader::parse_u8;
use crate::reader::Parsed;
use crate::register::word_bytes;
use crate::register::word_of;
use crate::register::word_size;
use crate::register::BitRegister;
use crate::wire::le_bytes;

verus! {

/// The version of the wire format that this library writes and reads.
/// Version 1 has no word-width byte and a 64-bit bit length. Nothing on the
/// wire names the version: both ends agree on it beforehand.
pub const FORMAT_VERSION: u32 = 1;

/// What a record says: where the span begins in its first word, how many
/// bits it covers, and the words that back it.
pub struct Record<R> {
    /// The index of the span's first bit in the first word.
    pub head: u8,
    /// The number of bits that the span covers.
    pub bits: u64,
    /// The registers of the backing words, in order.
    pub words: Seq<R>,
}

/// The number of words that a span touches: `(head + bits) / width`, rounded
/// up.
pub open spec fn touched<R: BitRegister>(head: u8, bits: u64) -> nat {
    ((head + bits + R::bits() - 1) / (R::bits() as int)) as nat
}

impl<R: BitRegister> Record<R> {
    /// The head index is inside the first word.
    pub open spec fn head_in_word(self) -> bool {
        self.head < R::bits()
    }

    /// The span ends inside the words: `head + bits <= words * width`.
    pub open spec fn fits(self) -> bool {
        self.head + self.bits <= self.words.len() * R::bits()
    }

    /// A record that describes a span: the head index is inside the first
    /// word and the span ends inside the words.
    pub open spec fn valid(self) -> bool {
        self.head_in_word() && self.fits()
    }

    /// The same span over the words it touches, without the words behind its
    /// last bit.
    pub open spec fn domain(self) -> Record<R> {
        Record {
            head: self.head,
            bits: self.bits,
            words: self.words.take(touched::<R>(self.head, self.bits) as int),
        }
    }
}

/// The bytes of a run of words, one after the other, nothing in between.
pub open spec fn encode_run<R: BitRegister>(words: Seq<R>) -> Seq<u8>
    decreases words.len(),
{
    if words.len() == 0 {
        Seq::empty()
    } else {
        encode_run(words.drop_last()) + word_bytes(words.last())
    }
}

/// A run grows by one word at its end.
pub proof fn lemma_run_push<R: BitRegister>(words: Seq<R>, i: int)
    requires
        0 <= i < words.len(),
    ensures
        encode_run(words.take(i + 1)) == encode_run(words.take(i)) + word_bytes(words[i]),
{
    assert(words.take(i + 1).drop_last() =~= words.take(i));
}

/// The bytes behind `i` words of a run are those behind `i + 1` words and the
/// word between them.
pub proof fn lemma_word_step(s: Seq<u8>, i: nat, size: nat)
    requires
        size > 0,
        i * size + size <= s.len(),
    ensures
        i * size + size == (i + 1) * size,
        s.skip((i * size) as int).take(size as int) == s.subrange(
            (i * size) as int,
            ((i + 1) * size) as int,
        ),
        s.skip((i * size) as int).skip(size as int) == s.skip(((i + 1) * size) as int),
{
    assert(i * size + size == (i + 1) * size) by (nonlinear_arith);
    assert(s.skip((i * size) as int).take(size as int) =~= s.subrange(
        (i * size) as int,
        ((i + 1) * size) as int,
    ));
    assert(s.skip((i * size) as int).skip(size as int) =~= s.skip(((i + 1) * size) as int));
}

/// Where a stream ends inside word `i` of a run of `n`, it holds `i` whole
/// words and is too short for the run.
pub proof fn lemma_run_short(len: nat, i: nat, n: nat, size: nat)
    requires
        size > 0,
        i < n,
        i * size <= len < i * size + size,
    ensures
        len / size == i,
        n * size > len,
{
    assert(len / size == i && n * size > len) by (nonlinear_arith)
        requires
            size > 0,
            i < n,
            i * size <= len < i * size + size,
    ;
}

/// The bytes of a word sequence: the count, then the run of words.
pub open spec fn encode_words<R: BitRegister>(words: Seq<R>) -> Seq<u8> {
    le_bytes(words.len(), 8) + encode_run(words)
}

/// The bytes of a record under the ordering tag `tag`.
pub open spec fn encode_record<R: BitRegister>(tag: u8, record: Record<R>) -> Seq<u8> {
    seq![tag, record.head] + le_bytes(record.bits as nat, 8) + encode_words(record.words)
}

/// The `i`-th word of a run that starts at the front of `s`.
pub open spec fn word_at<R: BitRegister>(s: Seq<u8>, i: int) -> R {
    word_of::<R>(s.subrange(i * word_size::<R>(), (i + 1) * word_size::<R>()))
}

/// The first `n` words of a run that starts at the front of `s`.
pub open spec fn words_at<R: BitRegister>(s: Seq<u8>, n: nat) -> Seq<R> {
    Seq::new(n, |i: int| word_at::<R>(s, i))
}

/// A run of `n` words from the front of `s`. Where `s` ends before the
/// `n`-th word is complete, the run is truncated, and the words that `s`
/// does hold in full are consumed.
pub open spec fn parse_run<R: BitRegister>(s: Seq<u8>, n: nat) -> Parsed<Seq<R>> {
    if n * word_size::<R>() <= s.len() {
        (Ok(words_at::<R>(s, n)), s.skip((n * word_size::<R>()) as int))
    } else {
        (
            Err(DecodeError::TruncatedStream),
            s.skip(((s.len() / word_size::<R>()) * word_size::<R>()) as int),
        )
    }
}

/// A word sequence from the front of `s`: the count, then that many words.
pub open spec fn parse_words<R: BitRegister>(s: Seq<u8>) -> Parsed<Seq<R>> {
    match parse_u64(s) {
        (Ok(count), rest) => parse_run::<R>(rest, count as nat),
        (Err(e), rest) => (Err(e), rest),
    }
}

/// The ordering tag from the front of `s`: one byte, which must be `tag`.
/// The byte is consumed either way.
pub open spec fn parse_tag(tag: u8, s: Seq<u8>) -> Parsed<()> {
    match parse_u8(s) {
        (Ok(byte), rest) => if byte == tag {
            (Ok(()), rest)
        } else {
            (Err(DecodeError::MalformedTag), rest)
        },
        (Err(e), rest) => (Err(e), rest),
    }
}

/// A record from the front of `s`, field by field; the first field that
/// fails ends the decoding. Whether the span ends inside the words is not
/// asked here.
pub open spec fn parse_record<R: BitRegister>(tag: u8, s: Seq<u8>) -> Parsed<Record<R>> {
    match parse_tag(tag, s) {
        (Err(e), rest) => (Err(e), rest),
        (Ok(_), after_tag) => match parse_head::<R>(after_tag) {
            (Err(e), rest) => (Err(e), rest),
            (Ok(head), after_head) => match parse_u64(after_head) {
                (Err(e), rest) => (Err(e), rest),
                (Ok(bits), after_bits) => match parse_words::<R>(after_bits) {
                    (Err(e), rest) => (Err(e), rest),
                    (Ok(words), rest) => (Ok(Record { head, bits, words }), rest),
                },
            },
        },
    }
}

/// A record for an owned buffer from the front of `s`: a record whose span
/// ends inside its words. One that does not is refused as `InvalidData`,
/// after all of it has been consumed.
pub open spec fn parse_owned<R: BitRegister>(tag: u8, s: Seq<u8>) -> Parsed<Record<R>> {
    match parse_record::<R>(tag, s) {
        (Ok(record), rest) => if record.fits() {
            (Ok(record), rest)
        } else {
            (Err(DecodeError::InvalidData), rest)
        },
        (Err(e), rest) => (Err(e), rest),
    }
}

} // verus!

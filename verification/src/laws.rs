//! What holds of the format as a whole: decoding undoes encoding, layer by
//! layer, and the records that must be refused are refused.

use vstd::prelude::*;
use crate::error::DecodeError;
use crate::format::encode_record;
use crate::format::encode_run;
use crate::format::encode_words;
use crate::format::parse_owned;
use crate::format::parse_record;
use crate::format::parse_run;
use crate::format::parse_tag;
use crate::format::parse_words;
use crate::format::touched;
use crate::format::words_at;
use crate::format::Record;
use crate::frame::array_frame;
use crate::frame::record_frame;
use crate::index::parse_head;
use crate::reader::parse_u64;
use crate::register::word_bytes;
use crate::register::word_of;
use crate::register::word_size;
use crate::register::BitRegister;
use crate::span::lemma_touched_covers;
use crate::span::lemma_touched_in_buffer;
use crate::wire::le_bytes;
use crate::wire::le_value;
use crate::wire::lemma_byte_limits;
use crate::wire::lemma_le_value_bound;
use crate::wire::lemma_le_bytes_len;
use crate::wire::lemma_le_bytes_of_value;
use crate::wire::lemma_le_value_of_bytes;

verus! {

/// A register read back from its own bytes is the same register, bit for
/// bit.
pub proof fn lemma_word_round_trip<R: BitRegister>(word: R)
    ensures
        word_bytes(word).len() == word_size::<R>(),
        word_of::<R>(word_bytes(word)) == word,
{
    R::lemma_register();
    lemma_le_bytes_len(word.value(), word_size::<R>());
    lemma_le_value_of_bytes(word.value(), word_size::<R>());
}

/// Word `i` of a run begins at `i * size` and ends `size` bytes on.
proof fn lemma_slot(i: int, size: int)
    by (nonlinear_arith)
    requires
        0 <= i,
        0 <= size,
    ensures
        0 <= i * size,
        (i + 1) * size == i * size + size,
{
}

/// A run of `n` words takes `n` times the size of a word.
pub proof fn lemma_run_len<R: BitRegister>(words: Seq<R>)
    ensures
        encode_run(words).len() == words.len() * word_size::<R>(),
    decreases words.len(),
{
    if words.len() > 0 {
        lemma_run_len(words.drop_last());
        lemma_word_round_trip(words.last());
        lemma_slot(words.len() - 1, word_size::<R>() as int);
    }
}

/// The `i`-th word of a run lies at `i` times the size of a word.
pub proof fn lemma_run_word<R: BitRegister>(words: Seq<R>, i: int)
    requires
        0 <= i < words.len(),
    ensures
        (i + 1) * word_size::<R>() <= encode_run(words).len(),
        encode_run(words).subrange(i * word_size::<R>(), (i + 1) * word_size::<R>())
            == word_bytes(words[i]),
    decreases words.len(),
{
    let size = word_size::<R>() as int;
    let n = words.len() as int;
    let front = encode_run(words.drop_last());
    lemma_run_len(words);
    lemma_run_len(words.drop_last());
    lemma_word_round_trip(words.last());
    lemma_slot(n - 1, size);
    lemma_slot(i, size);
    if i == n - 1 {
        assert(encode_run(words).subrange(i * size, (i + 1) * size) =~= word_bytes(words[i]));
    } else {
        lemma_run_word(words.drop_last(), i);
        assert((i + 1) * size <= (n - 1) * size) by (nonlinear_arith)
            requires
                i + 1 <= n - 1,
                size >= 0,
        ;
        assert(encode_run(words).subrange(i * size, (i + 1) * size) =~= front.subrange(
            i * size,
            (i + 1) * size,
        ));
    }
}

/// Decoding a run undoes encoding it: the same words come back, and the
/// bytes behind the run are left.
pub proof fn lemma_run_round_trip<R: BitRegister>(words: Seq<R>, tail: Seq<u8>)
    ensures
        parse_run::<R>(encode_run(words) + tail, words.len()) == (
            Ok::<Seq<R>, DecodeError>(words),
            tail,
        ),
{
    let size = word_size::<R>() as int;
    let s = encode_run(words) + tail;
    lemma_run_len(words);
    let decoded = words_at::<R>(s, words.len());
    assert forall|i: int| 0 <= i < words.len() implies decoded[i] == words[i] by {
        lemma_run_word(words, i);
        lemma_word_round_trip(words[i]);
        lemma_slot(i, size);
        assert(s.subrange(i * size, (i + 1) * size) =~= encode_run(words).subrange(
            i * size,
            (i + 1) * size,
        ));
    }
    assert(decoded =~= words);
    assert(s.skip(words.len() * size) =~= tail);
}

/// A 64-bit integer read back from its own bytes is the same integer.
pub proof fn lemma_u64_round_trip(value: u64, tail: Seq<u8>)
    ensures
        parse_u64(le_bytes(value as nat, 8) + tail) == (Ok::<u64, DecodeError>(value), tail),
{
    let s = le_bytes(value as nat, 8) + tail;
    lemma_byte_limits();
    lemma_le_bytes_len(value as nat, 8);
    lemma_le_value_of_bytes(value as nat, 8);
    assert(s.take(8) =~= le_bytes(value as nat, 8));
    assert(s.skip(8) =~= tail);
}

/// Decoding a word sequence undoes encoding it.
pub proof fn lemma_words_round_trip<R: BitRegister>(words: Seq<R>, tail: Seq<u8>)
    requires
        words.len() <= u64::MAX,
    ensures
        parse_words::<R>(encode_words(words) + tail) == (Ok::<Seq<R>, DecodeError>(words), tail),
{
    let count = words.len() as u64;
    lemma_u64_round_trip(count, encode_run(words) + tail);
    lemma_run_round_trip(words, tail);
    assert(encode_words(words) + tail =~= le_bytes(words.len(), 8) + (encode_run(words) + tail));
}

/// Decoding a record undoes encoding it, whether or not the span ends inside
/// the words.
pub proof fn lemma_record_round_trip<R: BitRegister>(tag: u8, record: Record<R>, tail: Seq<u8>)
    requires
        record.head_in_word(),
        record.words.len() <= u64::MAX,
    ensures
        parse_record::<R>(tag, encode_record(tag, record) + tail) == (
            Ok::<Record<R>, DecodeError>(record),
            tail,
        ),
{
    let s = encode_record(tag, record) + tail;
    let after_tag = seq![record.head] + le_bytes(record.bits as nat, 8) + encode_words(
        record.words,
    ) + tail;
    let after_head = le_bytes(record.bits as nat, 8) + (encode_words(record.words) + tail);
    let after_bits = encode_words(record.words) + tail;
    assert(s.skip(1) =~= after_tag);
    assert(after_tag.skip(1) =~= after_head);
    assert(parse_tag(tag, s) == (Ok::<(), DecodeError>(()), after_tag));
    assert(parse_head::<R>(after_tag) == (Ok::<u8, DecodeError>(record.head), after_head));
    lemma_u64_round_trip(record.bits, after_bits);
    lemma_words_round_trip(record.words, tail);
}

/// Round trip. Take a head index inside its word, a bit length, and words
/// that the span ends inside. Encoding the span over the words it touches and
/// decoding the bytes into an owned buffer gives the same head index, the
/// same bit length and the same words, and leaves the bytes that followed.
/// Where the span touches all of its words, what comes back is the record
/// itself.
pub proof fn lemma_round_trip<R: BitRegister>(tag: u8, record: Record<R>, tail: Seq<u8>)
    requires
        record.valid(),
    ensures
        record.domain().valid(),
        parse_owned::<R>(tag, encode_record(tag, record.domain()) + tail) == (
            Ok::<Record<R>, DecodeError>(record.domain()),
            tail,
        ),
        record.words.len() == touched::<R>(record.head, record.bits) ==> record.domain()
            == record,
{
    R::lemma_register();
    lemma_touched_in_buffer::<R>(record.words.len(), record.head, record.bits);
    lemma_touched_covers::<R>(record.head, record.bits);
    let n = touched::<R>(record.head, record.bits);
    assert(n <= u64::MAX) by {
        let width = R::bits() as int;
        let total = record.head + record.bits;
        assert((total + width - 1) / width <= total) by (nonlinear_arith)
            requires
                width >= 8,
                total >= 0,
        ;
    }
    lemma_record_round_trip(tag, record.domain(), tail);
    if record.words.len() == n {
        assert(record.words.take(n as int) =~= record.words);
    }
}

/// Padding. The words that come back from a round trip are the words that
/// went in, with every bit as it was: the bits of the first word below the
/// head index and the bits of the last word behind the span's end are not
/// cleared.
pub proof fn lemma_padding_preserved<R: BitRegister>(
    tag: u8,
    record: Record<R>,
    tail: Seq<u8>,
    i: int,
)
    requires
        record.valid(),
        0 <= i < touched::<R>(record.head, record.bits),
    ensures
        parse_owned::<R>(tag, encode_record(tag, record.domain()) + tail).0 matches Ok(decoded)
            && decoded.words.len() == touched::<R>(record.head, record.bits) && decoded.words[i]
            == record.words[i] && decoded.words[i].value() == record.words[i].value(),
{
    lemma_round_trip(tag, record, tail);
    lemma_touched_in_buffer::<R>(record.words.len(), record.head, record.bits);
}

/// Head-index boundary. A head-index byte equal to the width of the word is
/// refused as `InvalidHeadIndex`; the width less one is accepted. Either way
/// the byte is consumed.
pub proof fn lemma_head_boundary<R: BitRegister>(tail: Seq<u8>)
    ensures
        parse_head::<R>(seq![R::bits() as u8] + tail) == (
            Err::<u8, DecodeError>(DecodeError::InvalidHeadIndex),
            tail,
        ),
        parse_head::<R>(seq![(R::bits() - 1) as u8] + tail) == (
            Ok::<u8, DecodeError>((R::bits() - 1) as u8),
            tail,
        ),
{
    R::lemma_register();
    assert((seq![R::bits() as u8] + tail).skip(1) =~= tail);
    assert((seq![(R::bits() - 1) as u8] + tail).skip(1) =~= tail);
}

/// Truncation. A word sequence whose count announces more words than the
/// bytes behind it hold fails with `TruncatedStream`, and so does one that
/// ends inside the count. A word sequence that decodes has as many words as
/// its count announced, never fewer.
pub proof fn lemma_truncation<R: BitRegister>(s: Seq<u8>)
    ensures
        s.len() < 8 ==> parse_words::<R>(s).0 == Err::<Seq<R>, DecodeError>(
            DecodeError::TruncatedStream,
        ),
        s.len() >= 8 && (le_value(s.take(8)) as u64) * word_size::<R>() > s.len() - 8
            ==> parse_words::<R>(s).0 == Err::<Seq<R>, DecodeError>(
            DecodeError::TruncatedStream,
        ),
        parse_words::<R>(s).0 matches Ok(words) ==> s.len() >= 8 && words.len() == le_value(
            s.take(8),
        ) as u64 && s.len() - 8 >= words.len() * word_size::<R>(),
{
}

/// Invalid composed span. Decoding into an owned buffer is decoding the
/// record and asking whether its span ends inside its words: a record whose
/// head index and bit length reach past its words fails with `InvalidData`,
/// after the whole record has been consumed, and every other outcome is that
/// of the record.
pub proof fn lemma_span_past_words<R: BitRegister>(tag: u8, s: Seq<u8>)
    ensures
        parse_record::<R>(tag, s) matches (Ok(record), rest) ==> {
            &&& record.head + record.bits > record.words.len() * R::bits() ==> parse_owned::<R>(
                tag,
                s,
            ) == (Err::<Record<R>, DecodeError>(DecodeError::InvalidData), rest)
            &&& record.head + record.bits <= record.words.len() * R::bits() ==> parse_owned::<R>(
                tag,
                s,
            ) == (Ok::<Record<R>, DecodeError>(record), rest)
        },
        parse_record::<R>(tag, s).0 is Err ==> parse_owned::<R>(tag, s) == parse_record::<R>(
            tag,
            s,
        ),
{
}

/// The encoding of a record whose span reaches past its words does not
/// decode into an owned buffer: the call fails with `InvalidData` and leaves
/// the bytes that followed the record.
pub proof fn lemma_unfit_record_refused<R: BitRegister>(tag: u8, record: Record<R>, tail: Seq<u8>)
    requires
        record.head_in_word(),
        record.words.len() <= u64::MAX,
        !record.fits(),
    ensures
        parse_owned::<R>(tag, encode_record(tag, record) + tail) == (
            Err::<Record<R>, DecodeError>(DecodeError::InvalidData),
            tail,
        ),
{
    lemma_record_round_trip(tag, record, tail);
}

/// The bytes of a register that was read are the bytes it was read from.
pub proof fn lemma_word_canonical<R: BitRegister>(bytes: Seq<u8>)
    requires
        bytes.len() == word_size::<R>(),
    ensures
        word_bytes(word_of::<R>(bytes)) == bytes,
{
    R::lemma_register();
    lemma_le_value_bound(bytes);
    lemma_le_bytes_of_value(bytes);
}

/// The bytes of a run that was read are the bytes it was read from.
pub proof fn lemma_run_canonical<R: BitRegister>(s: Seq<u8>, n: nat)
    requires
        n * word_size::<R>() <= s.len(),
    ensures
        encode_run(words_at::<R>(s, n)) == s.take((n * word_size::<R>()) as int),
    decreases n,
{
    R::lemma_register();
    let size = word_size::<R>() as int;
    let words = words_at::<R>(s, n);
    if n == 0 {
        assert(n * size == 0) by (nonlinear_arith)
            requires
                n == 0,
        ;
        assert(s.take(0) =~= Seq::<u8>::empty());
    } else {
        let m = (n - 1) as nat;
        lemma_slot(m as int, size);
        assert(m * size <= s.len());
        lemma_run_canonical::<R>(s, m);
        assert(words.drop_last() =~= words_at::<R>(s, m));
        let chunk = s.subrange(m * size, (m + 1) * size);
        assert(words.last() == word_of::<R>(chunk));
        lemma_word_canonical::<R>(chunk);
        assert(encode_run(words) == s.take(m * size) + chunk);
        assert(s.take(m * size) + chunk =~= s.take(n * size));
    }
}

/// One encoding only. A record decodes from no other bytes than its own
/// encoding: the bytes that a decoder consumed are the encoding of the
/// record that it returned.
pub proof fn lemma_record_canonical<R: BitRegister>(tag: u8, s: Seq<u8>)
    ensures
        parse_record::<R>(tag, s) matches (Ok(record), rest) ==> encode_record(tag, record) + rest
            == s,
        parse_owned::<R>(tag, s) matches (Ok(record), rest) ==> encode_record(tag, record) + rest
            == s,
{
    if let (Ok(record), rest) = parse_record::<R>(tag, s) {
        lemma_record_frame::<R>(tag, s);
        R::lemma_register();
        lemma_byte_limits();
        let size = word_size::<R>();
        let count = le_value(s.subrange(10, 18));
        assert(s.skip(1).skip(1) =~= s.skip(2));
        assert(s.skip(2).take(8) =~= s.subrange(2, 10));
        assert(s.skip(2).skip(8) =~= s.skip(10));
        assert(s.skip(10).take(8) =~= s.subrange(10, 18));
        assert(s.skip(10).skip(8) =~= s.skip(18));
        lemma_le_value_bound(s.subrange(2, 10));
        lemma_le_bytes_of_value(s.subrange(2, 10));
        lemma_le_value_bound(s.subrange(10, 18));
        lemma_le_bytes_of_value(s.subrange(10, 18));
        lemma_run_canonical::<R>(s.skip(18), count);
        assert(record.words.len() == count);
        assert(encode_record(tag, record) + rest =~= s);
    }
}

/// Frames of records. A record whose frame is complete never fails as
/// truncated, and where it decodes, what is left begins where the frame
/// ends. A record whose frame is not complete does not decode. The same
/// holds of the decoding into an owned buffer.
pub proof fn lemma_record_frame<R: BitRegister>(tag: u8, s: Seq<u8>)
    ensures
        s.len() >= record_frame::<R>(s) ==> parse_record::<R>(tag, s).0 != Err::<
            Record<R>,
            DecodeError,
        >(DecodeError::TruncatedStream) && parse_owned::<R>(tag, s).0 != Err::<
            Record<R>,
            DecodeError,
        >(DecodeError::TruncatedStream),
        parse_record::<R>(tag, s).0 is Ok ==> s.len() >= record_frame::<R>(s) && parse_record::<R>(
            tag,
            s,
        ).1 == s.skip(record_frame::<R>(s) as int),
        parse_owned::<R>(tag, s).0 is Ok ==> s.len() >= record_frame::<R>(s) && parse_owned::<R>(
            tag,
            s,
        ).1 == s.skip(record_frame::<R>(s) as int),
{
    R::lemma_register();
    if s.len() >= 18 {
        let size = word_size::<R>();
        let count = le_value(s.subrange(10, 18));
        lemma_le_value_bound(s.subrange(10, 18));
        lemma_byte_limits();
        assert(s.skip(1).skip(1) =~= s.skip(2));
        assert(s.skip(2).skip(8) =~= s.skip(10));
        assert(s.skip(10).take(8) =~= s.subrange(10, 18));
        assert(s.skip(10).skip(8) =~= s.skip(18));
        if count * size <= s.len() - 18 {
            assert(s.skip(18).skip((count * size) as int) =~= s.skip((18 + count * size) as int));
        }
    }
}

/// The frame of an encoded record is the record: its header and its words,
/// whatever follows it in the stream.
pub proof fn lemma_encoded_frame<R: BitRegister>(tag: u8, record: Record<R>, tail: Seq<u8>)
    requires
        record.words.len() <= u64::MAX,
    ensures
        encode_record(tag, record).len() == 18 + record.words.len() * word_size::<R>(),
        record_frame::<R>(encode_record(tag, record) + tail) == encode_record(tag, record).len(),
{
    let s = encode_record(tag, record) + tail;
    let count = le_bytes(record.words.len(), 8);
    lemma_byte_limits();
    lemma_le_bytes_len(record.bits as nat, 8);
    lemma_le_bytes_len(record.words.len(), 8);
    lemma_le_value_of_bytes(record.words.len(), 8);
    lemma_run_len(record.words);
    assert(s.subrange(10, 18) =~= count);
}

/// Frames of arrays. An array of `n` words decodes from `s` exactly when
/// `s` holds its frame, and what is left begins where the frame ends.
pub proof fn lemma_array_frame<R: BitRegister>(s: Seq<u8>, n: nat)
    ensures
        s.len() >= array_frame::<R>(n) <==> parse_run::<R>(s, n).0 is Ok,
        parse_run::<R>(s, n).0 is Ok ==> parse_run::<R>(s, n).1 == s.skip(
            array_frame::<R>(n) as int,
        ),
        parse_run::<R>(s, n).0 is Err ==> parse_run::<R>(s, n).0 == Err::<Seq<R>, DecodeError>(
            DecodeError::TruncatedStream,
        ),
{
}

/// Frames of head indices. A head index is one byte: with a byte in hand,
/// decoding does not fail as truncated.
pub proof fn lemma_index_frame<R: BitRegister>(s: Seq<u8>)
    ensures
        s.len() >= 1 <==> parse_head::<R>(s).0 != Err::<u8, DecodeError>(
            DecodeError::TruncatedStream,
        ),
{
}

} // verus!

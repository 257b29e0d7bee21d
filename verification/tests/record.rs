use bitspan_codec::boxed::BitBox;
use bitspan_codec::error::BitSpanError;
use bitspan_codec::error::DecodeError;
use bitspan_codec::index::BitIdx;
use bitspan_codec::order::Lsb0;
use bitspan_codec::order::Msb0;
use bitspan_codec::reader::Reader;
use bitspan_codec::slice::BitSlice;
use bitspan_codec::vec::BitVec;

fn head8(value: u8) -> BitIdx<u8> {
    BitIdx::<u8>::new(value).unwrap()
}

fn scenario_bytes() -> Vec<u8> {
    vec![
        0, // tag of Lsb0
        3, // head index
        10, 0, 0, 0, 0, 0, 0, 0, // bit length
        2, 0, 0, 0, 0, 0, 0, 0, // word count
        0b1111_1000, 0b0000_0011, // words
    ]
}

#[test]
fn scenario_encode_emits_tag_head_length_count_words() {
    let words: [u8; 2] = [0b1111_1000, 0b0000_0011];
    let slice = BitSlice::<u8, Lsb0>::new(&words, head8(3), 10).unwrap();
    assert_eq!(slice.domain().len(), 2);
    let mut out = Vec::new();
    slice.serialize(&mut out);
    assert_eq!(out, scenario_bytes());
}

#[test]
fn scenario_decode_rebuilds_head_length_words() {
    let bytes = scenario_bytes();
    let mut reader = Reader::new(&bytes);
    let vec = BitVec::<u8, Lsb0>::deserialize_reader(&mut reader).unwrap();
    assert_eq!(vec.head().into_inner(), 3);
    assert_eq!(vec.len(), 10);
    assert_eq!(vec.as_raw_slice(), &[0b1111_1000u8, 0b0000_0011][..]);
    assert_eq!(reader.remaining(), 0);
}

#[test]
fn scenario_decode_as_slice_parts() {
    let bytes = scenario_bytes();
    let mut reader = Reader::new(&bytes);
    let parts = BitSlice::<u8, Lsb0>::deserialize_reader(&mut reader).unwrap();
    assert_eq!(parts.head.into_inner(), 3);
    assert_eq!(parts.bits, 10);
    assert_eq!(parts.words, vec![0b1111_1000u8, 0b0000_0011]);
    let slice = BitSlice::<u8, Lsb0>::new(&parts.words, parts.head, parts.bits)
        .unwrap();
    assert_eq!(slice.len(), 10);
    assert_eq!(slice.head().into_inner(), 3);
    assert_eq!(slice.as_bitspan().elements(), 2);
    assert_eq!(slice.as_bitspan().capacity(), 2);
}

#[test]
fn record_fields_are_the_integers_that_borsh_writes() {
    let vec = BitVec::<u32, Msb0>::from_parts(
        vec![0xdead_beef, 0x0bad_cafe, 7],
        BitIdx::<u32>::new(21).unwrap(),
        40,
    )
    .unwrap();
    let mut out = Vec::new();
    vec.serialize(&mut out);
    let mut expected = vec![1u8];
    expected.extend_from_slice(&borsh::to_vec(&21u8).unwrap());
    expected.extend_from_slice(&borsh::to_vec(&40u64).unwrap());
    expected.extend_from_slice(&borsh::to_vec(&2u64).unwrap());
    expected.extend_from_slice(&borsh::to_vec(&0xdead_beefu32).unwrap());
    expected.extend_from_slice(&borsh::to_vec(&0x0bad_cafeu32).unwrap());
    assert_eq!(out, expected);
}

#[test]
fn round_trip_u8_words() {
    let vec = BitVec::<u8, Lsb0>::from_parts(vec![0xa5, 0x5a, 0xff], head8(7), 17)
        .unwrap();
    let mut out = Vec::new();
    vec.serialize(&mut out);
    let mut reader = Reader::new(&out);
    let back = BitVec::<u8, Lsb0>::deserialize_reader(&mut reader).unwrap();
    assert_eq!(back.head().into_inner(), 7);
    assert_eq!(back.len(), 17);
    assert_eq!(back.as_raw_slice(), vec.as_raw_slice());
    assert_eq!(reader.remaining(), 0);
}

#[test]
fn round_trip_u16_words_msb0() {
    let head = BitIdx::<u16>::new(15).unwrap();
    let vec = BitVec::<u16, Msb0>::from_parts(vec![0x1234, 0xfedc], head, 17)
        .unwrap();
    let mut out = Vec::new();
    vec.serialize(&mut out);
    assert_eq!(
        out,
        vec![1, 15, 17, 0, 0, 0, 0, 0, 0, 0, 2, 0, 0, 0, 0, 0, 0, 0, 0x34, 0x12, 0xdc, 0xfe]
    );
    let mut reader = Reader::new(&out);
    let back = BitVec::<u16, Msb0>::deserialize_reader(&mut reader).unwrap();
    assert_eq!(back.head().into_inner(), 15);
    assert_eq!(back.len(), 17);
    assert_eq!(back.into_vec(), vec![0x1234u16, 0xfedc]);
}

#[test]
fn round_trip_u32_words() {
    let head = BitIdx::<u32>::new(31).unwrap();
    let vec = BitVec::<u32, Lsb0>::from_parts(vec![0xdead_beef, 0x0102_0304], head, 33)
        .unwrap();
    let mut out = Vec::new();
    vec.serialize(&mut out);
    assert_eq!(
        out,
        vec![
            0, 31, 33, 0, 0, 0, 0, 0, 0, 0, 2, 0, 0, 0, 0, 0, 0, 0, 0xef, 0xbe, 0xad, 0xde, 0x04,
            0x03, 0x02, 0x01
        ]
    );
    let mut reader = Reader::new(&out);
    let back = BitVec::<u32, Lsb0>::deserialize_reader(&mut reader).unwrap();
    assert_eq!(back.head().into_inner(), 31);
    assert_eq!(back.len(), 33);
    assert_eq!(back.into_vec(), vec![0xdead_beefu32, 0x0102_0304]);
}

#[test]
fn round_trip_u64_words() {
    let head = BitIdx::<u64>::new(63).unwrap();
    let vec = BitVec::<u64, Lsb0>::from_parts(vec![0x0102_0304_0506_0708, u64::MAX], head, 65)
        .unwrap();
    let mut out = Vec::new();
    vec.serialize(&mut out);
    assert_eq!(out.len(), 18 + 16);
    assert_eq!(&out[18..26], &[8u8, 7, 6, 5, 4, 3, 2, 1][..]);
    assert_eq!(&out[26..34], &[0xffu8; 8][..]);
    let mut reader = Reader::new(&out);
    let back = BitVec::<u64, Lsb0>::deserialize_reader(&mut reader).unwrap();
    assert_eq!(back.head().into_inner(), 63);
    assert_eq!(back.len(), 65);
    assert_eq!(back.into_vec(), vec![0x0102_0304_0506_0708u64, u64::MAX]);
}

#[test]
fn bit_length_and_count_are_written_as_eight_little_endian_bytes() {
    let words = vec![0u8; 0x3000];
    let bits: u64 = 0x01_0203;
    let vec = BitVec::<u8, Lsb0>::from_parts(words, head8(0), bits).unwrap();
    let mut out = Vec::new();
    vec.serialize(&mut out);
    assert_eq!(&out[2..10], &[0x03u8, 0x02, 0x01, 0, 0, 0, 0, 0][..]);
    // (0x010203 + 7) / 8 = 0x2041 words are touched
    assert_eq!(&out[10..18], &[0x41u8, 0x20, 0, 0, 0, 0, 0, 0][..]);
    assert_eq!(out.len(), 18 + 0x2041);
    let mut reader = Reader::new(&out);
    let back = BitVec::<u8, Lsb0>::deserialize_reader(&mut reader).unwrap();
    assert_eq!(back.len(), 0x01_0203);
    assert_eq!(back.as_raw_slice().len(), 0x2041);
}

#[test]
fn padding_bits_survive_the_round_trip() {
    // The span uses bits 3..8 of the first word and bits 0..5 of the second:
    // the other bits are set and must come back set.
    let words: Vec<u8> = vec![0b0000_0111, 0b1110_0000];
    let vec = BitVec::<u8, Lsb0>::from_parts(words, head8(3), 10).unwrap();
    let mut out = Vec::new();
    vec.serialize(&mut out);
    assert_eq!(&out[18..], &[0b0000_0111u8, 0b1110_0000][..]);
    let mut reader = Reader::new(&out);
    let back = BitVec::<u8, Lsb0>::deserialize_reader(&mut reader).unwrap();
    assert_eq!(back.as_raw_slice(), &[0b0000_0111u8, 0b1110_0000][..]);
}

#[test]
fn words_behind_the_span_are_not_written() {
    let vec = BitVec::<u8, Lsb0>::from_parts(vec![1, 2, 3, 4], head8(3), 10)
        .unwrap();
    assert_eq!(vec.as_raw_slice().len(), 4);
    assert_eq!(vec.as_bitslice().domain().as_raw_slice(), &[1u8, 2][..]);
    let mut out = Vec::new();
    vec.serialize(&mut out);
    assert_eq!(out, vec![0, 3, 10, 0, 0, 0, 0, 0, 0, 0, 2, 0, 0, 0, 0, 0, 0, 0, 1, 2]);
    let mut reader = Reader::new(&out);
    let back = BitVec::<u8, Lsb0>::deserialize_reader(&mut reader).unwrap();
    assert_eq!(back.as_raw_slice(), &[1u8, 2][..]);
}

#[test]
fn a_record_with_more_words_than_the_span_touches_decodes() {
    let bytes = vec![0, 3, 10, 0, 0, 0, 0, 0, 0, 0, 3, 0, 0, 0, 0, 0, 0, 0, 1, 2, 3, 99];
    let mut reader = Reader::new(&bytes);
    let vec = BitVec::<u8, Lsb0>::deserialize_reader(&mut reader).unwrap();
    assert_eq!(vec.head().into_inner(), 3);
    assert_eq!(vec.len(), 10);
    assert_eq!(vec.as_raw_slice(), &[1u8, 2, 3][..]);
    assert_eq!(reader.remaining(), 1);
}

#[test]
fn empty_span_has_no_words() {
    let vec = BitVec::<u8, Lsb0>::from_parts(Vec::new(), head8(0), 0).unwrap();
    let mut out = Vec::new();
    vec.serialize(&mut out);
    assert_eq!(out, vec![0u8; 18]);
    let mut reader = Reader::new(&out);
    let back = BitVec::<u8, Lsb0>::deserialize_reader(&mut reader).unwrap();
    assert_eq!(back.len(), 0);
    assert_eq!(back.as_raw_slice().len(), 0);
}

#[test]
fn empty_span_behind_bit_zero_touches_its_first_word() {
    assert_eq!(
        BitVec::<u8, Lsb0>::from_parts(Vec::new(), head8(3), 0).err(),
        Some(BitSpanError::TooLong)
    );
    let vec = BitVec::<u8, Lsb0>::from_parts(vec![0x5a], head8(3), 0).unwrap();
    let mut out = Vec::new();
    vec.serialize(&mut out);
    assert_eq!(out, vec![0, 3, 0, 0, 0, 0, 0, 0, 0, 0, 1, 0, 0, 0, 0, 0, 0, 0, 0x5a]);
}

#[test]
fn owned_decode_refuses_a_span_past_its_words() {
    // head 3 and 10 bits need two words of eight bits; the record holds one
    let bytes = vec![0, 3, 10, 0, 0, 0, 0, 0, 0, 0, 1, 0, 0, 0, 0, 0, 0, 0, 0xf8, 0x03];
    let mut reader = Reader::new(&bytes);
    let r = BitVec::<u8, Lsb0>::deserialize_reader(&mut reader);
    assert_eq!(r.err(), Some(DecodeError::InvalidData));
    // the whole record was consumed, the byte behind it was not
    assert_eq!(reader.remaining(), 1);
}

#[test]
fn owned_decode_accepts_a_span_that_ends_with_its_words() {
    let bytes = vec![0, 3, 13, 0, 0, 0, 0, 0, 0, 0, 2, 0, 0, 0, 0, 0, 0, 0, 0xf8, 0x03];
    let mut reader = Reader::new(&bytes);
    let vec = BitVec::<u8, Lsb0>::deserialize_reader(&mut reader).unwrap();
    assert_eq!(vec.len(), 13);
    let bytes = vec![0, 3, 14, 0, 0, 0, 0, 0, 0, 0, 2, 0, 0, 0, 0, 0, 0, 0, 0xf8, 0x03];
    let mut reader = Reader::new(&bytes);
    let r = BitVec::<u8, Lsb0>::deserialize_reader(&mut reader);
    assert_eq!(r.err(), Some(DecodeError::InvalidData));
}

#[test]
fn owned_decode_refuses_the_longest_bit_length() {
    let mut bytes = vec![0, 7];
    bytes.extend_from_slice(&[0xff; 8]);
    bytes.extend_from_slice(&[1, 0, 0, 0, 0, 0, 0, 0, 0xaa]);
    let mut reader = Reader::new(&bytes);
    let r = BitVec::<u8, Lsb0>::deserialize_reader(&mut reader);
    assert_eq!(r.err(), Some(DecodeError::InvalidData));
}

#[test]
fn slice_decode_does_not_ask_whether_the_span_fits() {
    let bytes = vec![0, 3, 10, 0, 0, 0, 0, 0, 0, 0, 1, 0, 0, 0, 0, 0, 0, 0, 0xf8];
    let mut reader = Reader::new(&bytes);
    let parts = BitSlice::<u8, Lsb0>::deserialize_reader(&mut reader).unwrap();
    assert_eq!(parts.bits, 10);
    assert_eq!(parts.words, vec![0xf8u8]);
    // laying the span over the words is where it fails
    let r = BitSlice::<u8, Lsb0>::new(&parts.words, parts.head, parts.bits);
    assert_eq!(r.err(), Some(BitSpanError::TooLong));
}

#[test]
fn malformed_tag_is_refused() {
    let mut bytes = scenario_bytes();
    let mut reader = Reader::new(&bytes);
    let r = BitVec::<u8, Msb0>::deserialize_reader(&mut reader);
    assert_eq!(r.err(), Some(DecodeError::MalformedTag));
    assert_eq!(reader.remaining(), bytes.len() - 1);
    bytes[0] = 7;
    let mut reader = Reader::new(&bytes);
    assert_eq!(
        BitVec::<u8, Lsb0>::deserialize_reader(&mut reader).err(),
        Some(DecodeError::MalformedTag)
    );
    let mut reader = Reader::new(&bytes);
    assert_eq!(
        BitVec::<u8, Msb0>::deserialize_reader(&mut reader).err(),
        Some(DecodeError::MalformedTag)
    );
    bytes[0] = 1;
    let mut reader = Reader::new(&bytes);
    assert!(BitVec::<u8, Msb0>::deserialize_reader(&mut reader).is_ok());
}

#[test]
fn record_with_invalid_head_is_refused() {
    let mut bytes = scenario_bytes();
    bytes[1] = 8;
    let mut reader = Reader::new(&bytes);
    let r = BitVec::<u8, Lsb0>::deserialize_reader(&mut reader);
    assert_eq!(r.err(), Some(DecodeError::InvalidHeadIndex));
    assert_eq!(reader.remaining(), bytes.len() - 2);
    // the same byte is a head index of a wider word: the two bytes behind
    // the count are then one word of sixteen bits, which eight bits from
    // bit 8 fill to its end
    bytes[2] = 8;
    bytes[10] = 1;
    let mut reader = Reader::new(&bytes);
    let vec = BitVec::<u16, Lsb0>::deserialize_reader(&mut reader).unwrap();
    assert_eq!(vec.head().into_inner(), 8);
    assert_eq!(vec.as_raw_slice(), &[0x03f8u16][..]);
}

#[test]
fn record_cut_anywhere_is_truncated() {
    let bytes = scenario_bytes();
    for cut in 0..bytes.len() {
        let mut reader = Reader::new(&bytes[..cut]);
        let r = BitVec::<u8, Lsb0>::deserialize_reader(&mut reader);
        assert_eq!(r.err(), Some(DecodeError::TruncatedStream));
    }
}

#[test]
fn truncated_record_leaves_the_reader_behind_the_last_whole_field() {
    let bytes = scenario_bytes();
    // cut inside the bit length: tag and head index were read
    let mut reader = Reader::new(&bytes[..6]);
    assert!(BitVec::<u8, Lsb0>::deserialize_reader(&mut reader).is_err());
    assert_eq!(reader.remaining(), 4);
    // cut behind the first word: everything before the second word was read
    let mut reader = Reader::new(&bytes[..19]);
    assert!(BitVec::<u8, Lsb0>::deserialize_reader(&mut reader).is_err());
    assert_eq!(reader.remaining(), 0);
}

#[test]
fn bit_box_writes_what_its_slice_writes() {
    let words: Vec<u8> = vec![0b1111_1000, 0b0000_0011, 0x77];
    let boxed = BitBox::<u8, Lsb0>::from_parts(words.clone().into_boxed_slice(), head8(3), 10)
        .unwrap();
    let mut out = Vec::new();
    boxed.serialize(&mut out);
    assert_eq!(out, scenario_bytes());
    let mut other = Vec::new();
    boxed.as_bitslice().serialize(&mut other);
    assert_eq!(out, other);
    assert_eq!(
        BitBox::<u8, Lsb0>::from_parts(words.into_boxed_slice(), head8(3), 22).err(),
        Some(BitSpanError::TooLong)
    );
}

#[test]
fn serialize_appends_to_the_writer() {
    let words: [u8; 2] = [0b1111_1000, 0b0000_0011];
    let slice = BitSlice::<u8, Lsb0>::new(&words, head8(3), 10).unwrap();
    let mut out = vec![0xee, 0xdd];
    slice.serialize(&mut out);
    slice.serialize(&mut out);
    let mut expected = vec![0xee, 0xdd];
    expected.extend_from_slice(&scenario_bytes());
    expected.extend_from_slice(&scenario_bytes());
    assert_eq!(out, expected);
}

#[test]
fn two_records_decode_one_after_the_other() {
    let mut bytes = scenario_bytes();
    bytes.extend_from_slice(&[0, 0, 8, 0, 0, 0, 0, 0, 0, 0, 1, 0, 0, 0, 0, 0, 0, 0, 0x42]);
    let mut reader = Reader::new(&bytes);
    let first = BitVec::<u8, Lsb0>::deserialize_reader(&mut reader).unwrap();
    let second = BitVec::<u8, Lsb0>::deserialize_reader(&mut reader).unwrap();
    assert_eq!(first.len(), 10);
    assert_eq!(second.len(), 8);
    assert_eq!(second.as_raw_slice(), &[0x42u8][..]);
    assert_eq!(reader.remaining(), 0);
}

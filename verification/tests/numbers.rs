use namada_adapter::error::{DecodeError, Error};
use namada_adapter::ident::Sequence;
use namada_adapter::query::{decode_amount, decode_sequence};
use namada_adapter::strnum::{parse_dec, parse_height_seg, u64_to_dec};
use namada_adapter::wire::{read_u64_be, read_u64_le, u64_be_bytes};

#[test]
fn decimal_rendering() {
    assert_eq!(u64_to_dec(0), "0");
    assert_eq!(u64_to_dec(7), "7");
    assert_eq!(u64_to_dec(10), "10");
    assert_eq!(u64_to_dec(304), "304");
    assert_eq!(u64_to_dec(u64::MAX), "18446744073709551615");
}

#[test]
fn decimal_parsing() {
    assert_eq!(parse_dec("0"), Some(0));
    assert_eq!(parse_dec("304"), Some(304));
    assert_eq!(parse_dec("18446744073709551615"), Some(u64::MAX));
    // one past the largest machine word
    assert_eq!(parse_dec("18446744073709551616"), None);
    assert_eq!(parse_dec(""), None);
    assert_eq!(parse_dec("007"), None);
    assert_eq!(parse_dec("1x2"), None);
}

#[test]
fn height_segment_parsing() {
    assert_eq!(parse_height_seg("2-145"), Some((2, 145)));
    assert_eq!(parse_height_seg("0-1"), Some((0, 1)));
    assert_eq!(parse_height_seg("2145"), None);
    assert_eq!(parse_height_seg("2-"), None);
    assert_eq!(parse_height_seg("-145"), None);
    assert_eq!(parse_height_seg("2-1-4"), None);
}

#[test]
fn next_sequence_value_decodes_big_endian() {
    // the stored value 0x0000000000000007 yields sequence 7
    let value = vec![0, 0, 0, 0, 0, 0, 0, 7];
    assert_eq!(decode_sequence(&value), Ok(Sequence(7)));
}

#[test]
fn short_sequence_value_is_a_length_mismatch() {
    let value = vec![0, 0, 0, 7];
    assert_eq!(
        decode_sequence(&value),
        Err(Error::Decode(DecodeError::LengthMismatch { expected: 8, actual: 4 }))
    );
}

#[test]
fn amount_decodes_little_endian() {
    let value = vec![7, 0, 0, 0, 0, 0, 0, 0];
    assert_eq!(decode_amount(&value), Ok(7));
    let value = vec![0x40, 0x42, 0x0f, 0, 0, 0, 0, 0];
    assert_eq!(decode_amount(&value), Ok(1_000_000));
    assert_eq!(
        decode_amount(&vec![1, 2, 3]),
        Err(Error::Decode(DecodeError::LengthMismatch { expected: 8, actual: 3 }))
    );
}

#[test]
fn word_codecs_agree() {
    let bytes = u64_be_bytes(0x0102030405060708, 8);
    assert_eq!(bytes, vec![1, 2, 3, 4, 5, 6, 7, 8]);
    assert_eq!(read_u64_be(&bytes), Some(0x0102030405060708));
    assert_eq!(read_u64_le(&vec![8, 7, 6, 5, 4, 3, 2, 1]), Some(0x0102030405060708));
    assert_eq!(read_u64_be(&vec![1, 2, 3]), None);
}

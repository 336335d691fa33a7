use dumpling::scale::{decode_bool, decode_compact, decode_u32, decode_u64, decode_u128, encode_compact};
use dumpling::DecodeError;
use parity_scale_codec::{Compact, Decode, Encode};

fn round_trip(v: u128) {
    let enc = encode_compact(v);
    let (dec, consumed) = decode_compact(&enc, 0).expect("round trip must decode");
    assert_eq!(dec, v);
    assert_eq!(consumed, enc.len());
}

#[test]
fn compact_round_trip_boundary_values() {
    let values: Vec<u128> = vec![
        0,
        63,
        64,
        16383,
        16384,
        (1u128 << 30) - 1,
        1u128 << 30,
        1u128 << 32,
        u64::MAX as u128,
    ];
    for v in values {
        round_trip(v);
    }
}

#[test]
fn compact_round_trip_u128_max() {
    round_trip(u128::MAX);
}

#[test]
fn compact_encoding_matches_reference_codec() {
    let values: Vec<u128> = vec![0, 1, 63, 64, 16383, 16384, 1 << 30, 1 << 32, u64::MAX as u128];
    for v in values {
        let ours = encode_compact(v);
        let reference = Compact(v).encode();
        assert_eq!(ours, reference, "encoding of {} differs", v);
        let decoded = Compact::<u128>::decode(&mut &ours[..]).expect("reference decode");
        assert_eq!(decoded.0, v);
    }
}

#[test]
fn compact_encoding_is_minimal() {
    assert_eq!(encode_compact(0).len(), 1);
    assert_eq!(encode_compact(63).len(), 1);
    assert_eq!(encode_compact(64).len(), 2);
    assert_eq!(encode_compact(16383).len(), 2);
    assert_eq!(encode_compact(16384).len(), 4);
    assert_eq!(encode_compact((1 << 30) - 1).len(), 4);
    assert_eq!(encode_compact(1 << 30).len(), 5);
    assert_eq!(encode_compact(u64::MAX as u128).len(), 9);
    assert_eq!(encode_compact(u128::MAX).len(), 17);
}

#[test]
fn compact_accepts_non_minimal_encoding() {
    // the value 10 packed in the 4-byte mode: raw = 10 * 4 + 2
    let bytes = vec![42u8, 0, 0, 0];
    let (v, consumed) = decode_compact(&bytes, 0).expect("lenient decode");
    assert_eq!(v, 10);
    assert_eq!(consumed, 4);
}

#[test]
fn compact_rejects_too_wide_group() {
    // mode 3 declaring 17 value bytes: more than 128 bits can hold
    let b0 = 13 * 4 + 3;
    let mut bytes = vec![b0];
    bytes.extend(std::iter::repeat(0xffu8).take(17));
    assert_eq!(decode_compact(&bytes, 0), Err(DecodeError::InvalidDiscriminant));
}

#[test]
fn compact_truncated_group_fails() {
    // two-byte mode with only one byte present
    let bytes = vec![1u8];
    assert_eq!(decode_compact(&bytes, 0), Err(DecodeError::TruncatedInput));
}

#[test]
fn fixed_width_little_endian() {
    let bytes = 0xdeadbeefu32.encode();
    let (v, p) = decode_u32(&bytes, 0).expect("u32");
    assert_eq!(v, 0xdeadbeef);
    assert_eq!(p, 4);

    let bytes = 0x0123456789abcdefu64.encode();
    let (v, p) = decode_u64(&bytes, 0).expect("u64");
    assert_eq!(v, 0x0123456789abcdef);
    assert_eq!(p, 8);

    let big: u128 = 0x0102030405060708090a0b0c0d0e0f10;
    let bytes = big.encode();
    let (v, p) = decode_u128(&bytes, 0).expect("u128");
    assert_eq!(v, big);
    assert_eq!(p, 16);
}

#[test]
fn fixed_width_truncated_fails() {
    let bytes = vec![1u8, 2, 3];
    assert_eq!(decode_u32(&bytes, 0), Err(DecodeError::TruncatedInput));
}

#[test]
fn bool_byte_values() {
    assert_eq!(decode_bool(&vec![0u8], 0), Ok((false, 1)));
    assert_eq!(decode_bool(&vec![1u8], 0), Ok((true, 1)));
    assert_eq!(decode_bool(&vec![2u8], 0), Err(DecodeError::InvalidDiscriminant));
    assert_eq!(decode_bool(&vec![], 0), Err(DecodeError::TruncatedInput));
}

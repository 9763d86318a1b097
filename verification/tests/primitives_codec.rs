use afrolink::primitives::codec::{decode_exact, CodecError, Encode};

#[test]
fn integers_round_trip_little_endian() {
    let mut out = Vec::new();
    1u32.encode(&mut out);
    assert_eq!(out, vec![1, 0, 0, 0], "must be little-endian");
    assert_eq!(decode_exact::<u32>(&out), Ok(1));
}

#[test]
fn strings_and_bytes_round_trip() {
    let s = "kesi".to_owned();
    assert_eq!(decode_exact::<String>(&s.to_bytes()), Ok(s));
}

#[test]
fn trailing_bytes_are_rejected() {
    let mut bytes = 7u64.to_bytes();
    bytes.push(0xFF);
    assert_eq!(
        decode_exact::<u64>(&bytes),
        Err(CodecError::TrailingBytes { left: 1 })
    );
}

#[test]
fn bool_encoding_is_injective() {
    assert!(decode_exact::<bool>(&[2]).is_err());
}

#[test]
fn forged_length_prefix_does_not_allocate() {
    let bytes = u32::MAX.to_le_bytes();
    assert_eq!(
        decode_exact::<Vec<u8>>(&bytes),
        Err(CodecError::LengthTooLarge { len: u32::MAX })
    );
}

#[test]
fn truncated_input_errors_cleanly() {
    assert!(matches!(
        decode_exact::<u64>(&[1, 2, 3]),
        Err(CodecError::UnexpectedEof { .. })
    ));
}

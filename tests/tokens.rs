use hoi4save::{read_token, BinaryToken};

#[test]
fn reads_fixed_tokens() {
    assert_eq!(read_token(&[0x01, 0x00], 0, false), Some((BinaryToken::Equal, 2)));
    assert_eq!(read_token(&[0x03, 0x00], 0, false), Some((BinaryToken::Open, 2)));
    assert_eq!(read_token(&[0x04, 0x00], 0, false), Some((BinaryToken::Close, 2)));
    assert_eq!(
        read_token(&[0x0c, 0x00, 0xff, 0xff, 0xff, 0xff], 0, false),
        Some((BinaryToken::I32(-1), 6))
    );
    assert_eq!(
        read_token(&[0x14, 0x00, 0xff, 0xff, 0xff, 0xff], 0, false),
        Some((BinaryToken::U32(u32::MAX), 6))
    );
    assert_eq!(read_token(&[0x0e, 0x00, 0x02], 0, false), Some((BinaryToken::Bool(true), 3)));
    assert_eq!(read_token(&[0x0e, 0x00, 0x00], 0, false), Some((BinaryToken::Bool(false), 3)));
    assert_eq!(
        read_token(&[0x0f, 0x00, 0x02, 0x00, b'h', b'i'], 0, false),
        Some((BinaryToken::Quoted(4, 6), 6))
    );
    assert_eq!(
        read_token(&[0x17, 0x00, 0x00, 0x00], 0, false),
        Some((BinaryToken::Unquoted(4, 4), 4))
    );
    assert_eq!(read_token(&[0x34, 0x12], 0, false), Some((BinaryToken::Id(0x1234), 2)));
}

#[test]
fn reads_wide_tokens() {
    let mut data = vec![0x9c, 0x02];
    data.extend_from_slice(&u64::MAX.to_le_bytes());
    assert_eq!(read_token(&data, 0, false), Some((BinaryToken::U64(u64::MAX), 10)));
    let mut data = vec![0x17, 0x03];
    data.extend_from_slice(&(-7i64).to_le_bytes());
    assert_eq!(read_token(&data, 0, false), Some((BinaryToken::I64(-7), 10)));
    let mut data = vec![0x67, 0x01];
    data.extend_from_slice(&32768i64.to_le_bytes());
    assert_eq!(read_token(&data, 0, false), Some((BinaryToken::F64(32768), 10)));
}

#[test]
fn token_0x000d_depends_on_the_save_format() {
    let mut data = vec![0x0d, 0x00];
    data.extend_from_slice(&1500i32.to_le_bytes());
    assert_eq!(read_token(&data, 0, false), Some((BinaryToken::F32(1500), 6)));
    assert_eq!(read_token(&data, 0, true), None);
    let mut data = vec![0x0d, 0x00];
    data.extend_from_slice(&200000i64.to_le_bytes());
    assert_eq!(read_token(&data, 0, true), Some((BinaryToken::Scaled(200000), 10)));
}

#[test]
fn truncated_tokens_read_as_none() {
    assert_eq!(read_token(&[0x01], 0, false), None);
    assert_eq!(read_token(&[0x0c, 0x00, 0x01], 0, false), None);
    assert_eq!(read_token(&[0x0f, 0x00, 0x05, 0x00, b'a'], 0, false), None);
    assert_eq!(read_token(&[0x01, 0x00], 2, false), None);
}

use rowstore::codec::{decode, encode, DecodeError, LENGTH_BYTES};
use rowstore::row::Row;

#[test]
fn encode_layout() {
    let bytes = encode(&Row::new(0x01020304, "ab", "c"));
    assert_eq!(
        bytes,
        vec![
            0x04, 0x03, 0x02, 0x01, // id, little-endian
            2, 0, 0, 0, 0, 0, 0, 0, b'a', b'b', // user name
            1, 0, 0, 0, 0, 0, 0, 0, b'c', // e-mail address
        ]
    );
    assert_eq!(LENGTH_BYTES, 8);
}

#[test]
fn encode_empty_fields() {
    assert_eq!(encode(&Row::new(0, "", "")), vec![0u8; 4 + 8 + 8]);
}

#[test]
fn encode_agrees_with_bincode_on_the_same_fields() {
    for row in [
        Row::new(1, "alice", "a@x.com"),
        Row::new(u32::MAX, "", "\u{65e5}\u{672c}"),
        Row::new(0, "a b", ""),
    ]
    .iter()
    {
        let fields = (row.id, row.username.clone(), row.email.clone());
        assert_eq!(encode(row), bincode::serialize(&fields).unwrap());
    }
}

#[test]
fn decode_gives_back_what_was_encoded() {
    for row in [
        Row::new(1, "alice", "a@x.com"),
        Row::new(0, "", ""),
        Row::new(u32::MAX, "\u{e9}t\u{e9}", "\u{65e5}\u{672c}@\u{1F600}"),
        Row::new(7, "alicea@x.com", ""),
        Row::new(7, "", "alicea@x.com"),
        Row::new(7, "alice", "a@x.com"),
    ]
    .iter()
    {
        assert_eq!(decode(&encode(row)), Ok(row.clone()));
    }
}

#[test]
fn fields_that_join_to_the_same_text_stay_apart() {
    let one = encode(&Row::new(7, "alicea", "@x.com"));
    let other = encode(&Row::new(7, "alice", "a@x.com"));
    assert_ne!(one, other);
    assert_eq!(decode(&one), Ok(Row::new(7, "alicea", "@x.com")));
    assert_eq!(decode(&other), Ok(Row::new(7, "alice", "a@x.com")));
}

#[test]
fn decode_of_cut_bytes_is_truncated() {
    let bytes = encode(&Row::new(1, "alice", "a@x.com"));
    for cut in 0..bytes.len() {
        assert_eq!(decode(&bytes[..cut]), Err(DecodeError::Truncated), "cut at {}", cut);
    }
}

#[test]
fn decode_of_a_length_beyond_the_end_is_truncated() {
    let mut bytes = vec![1, 0, 0, 0];
    bytes.extend_from_slice(&u64::MAX.to_le_bytes());
    bytes.extend_from_slice(b"alice");
    assert_eq!(decode(&bytes), Err(DecodeError::Truncated));
}

#[test]
fn decode_of_bytes_that_are_not_utf8() {
    let mut bytes = vec![1, 0, 0, 0];
    bytes.extend_from_slice(&2u64.to_le_bytes());
    bytes.extend_from_slice(&[0xc3, 0x28]);
    bytes.extend_from_slice(&0u64.to_le_bytes());
    assert_eq!(decode(&bytes), Err(DecodeError::InvalidUtf8));
    let mut bytes = encode(&Row::new(1, "alice", "ab"));
    let last = bytes.len() - 1;
    bytes[last] = 0xff;
    assert_eq!(decode(&bytes), Err(DecodeError::InvalidUtf8));
}

#[test]
fn decode_of_bytes_with_a_tail() {
    let mut bytes = encode(&Row::new(1, "alice", "a@x.com"));
    bytes.push(0);
    assert_eq!(decode(&bytes), Err(DecodeError::TrailingBytes));
}

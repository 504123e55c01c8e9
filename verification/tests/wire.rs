use wayland_proxy::wire::{
    build_message, decode_text, put_str, put_u32, read_sender_id, read_str, read_u32, take_message,
    write_sender_id, MessageHeader, HEADER_LEN,
};

#[test]
fn parses_header_fields() {
    let msg = build_message(42, 3, &[1, 2, 3, 4]);
    let header = MessageHeader::parse(&msg).expect("should parse");
    assert_eq!(header.sender_id, 42);
    assert_eq!(header.opcode, 3);
    assert_eq!(header.message_len(), HEADER_LEN + 4);
}

#[test]
fn parse_returns_none_on_short_buffer() {
    assert!(MessageHeader::parse(&[0u8; 7]).is_none());
    assert!(MessageHeader::parse(&[]).is_none());
}

#[test]
fn read_and_write_sender_id_round_trip() {
    let mut msg = build_message(1, 0, &[]);
    assert_eq!(read_sender_id(&msg), Some(1));
    write_sender_id(&mut msg, 999).expect("should write");
    assert_eq!(read_sender_id(&msg), Some(999));
    // opcode/length untouched by rewriting sender_id
    let header = MessageHeader::parse(&msg).unwrap();
    assert_eq!(header.opcode, 0);
    assert_eq!(header.message_len(), HEADER_LEN);
}

#[test]
fn write_sender_id_rejects_too_short_buffer() {
    let mut buf = [0u8; 3];
    assert!(write_sender_id(&mut buf, 5).is_err());
}

#[test]
fn take_message_splits_exactly_one_message_from_a_longer_buffer() {
    let mut buf = build_message(1, 0, &[9, 9]);
    buf.extend(build_message(2, 1, &[]));

    let (first, consumed) = take_message(&buf).expect("first message should parse");
    assert_eq!(consumed, HEADER_LEN + 2);
    assert_eq!(read_sender_id(first), Some(1));

    let (second, consumed2) = take_message(&buf[consumed..]).expect("second message");
    assert_eq!(consumed2, HEADER_LEN);
    assert_eq!(read_sender_id(second), Some(2));
}

#[test]
fn take_message_returns_none_when_incomplete() {
    // Header claims a body that hasn't fully arrived yet.
    let full = build_message(1, 0, &[1, 2, 3, 4]);
    assert!(take_message(&full[..HEADER_LEN + 2]).is_none());
    // Not even a full header yet.
    assert!(take_message(&full[..5]).is_none());
}

#[test]
fn numbers_and_strings_are_read_back() {
    let mut payload = Vec::new();
    put_u32(&mut payload, 0x0102_0304);
    put_str(&mut payload, "abc");
    put_str(&mut payload, "h\u{e9}llo");
    assert_eq!(payload.len(), 4 + 8 + 12);
    assert_eq!(read_u32(&payload, 0), Some(0x0102_0304));
    assert_eq!(read_str(&payload, 4), Some(("abc".to_string(), 12)));
    assert_eq!(read_str(&payload, 12), Some(("h\u{e9}llo".to_string(), 24)));
    assert_eq!(read_u32(&payload, 24), None);
    assert_eq!(read_str(&payload, 24), None);
    assert_eq!(read_u32(&payload[..3], 0), None);
}

#[test]
fn a_string_that_is_not_utf8_is_not_read() {
    let mut payload = Vec::new();
    put_u32(&mut payload, 3);
    payload.extend([0xff, 0xfe, 0, 0]);
    assert_eq!(read_str(&payload, 0), None);
    assert_eq!(decode_text(&[0xff]), None);
    assert_eq!(decode_text(b"ok"), Some("ok".to_string()));
}

#[test]
fn a_null_string_is_no_string() {
    let mut payload = Vec::new();
    put_u32(&mut payload, 0);
    assert_eq!(read_str(&payload, 0), None);
}

#[test]
fn messages_are_laid_out_in_the_machines_byte_order() {
    let msg = build_message(7, 2, &[1, 2, 3, 4]);
    let mut expected = 7u32.to_ne_bytes().to_vec();
    expected.extend(((12u32 << 16) | 2).to_ne_bytes());
    expected.extend([1, 2, 3, 4]);
    assert_eq!(msg, expected);
}

#[test]
fn a_length_below_the_header_is_no_message() {
    let mut buf = 1u32.to_ne_bytes().to_vec();
    buf.extend((4u32 << 16).to_ne_bytes());
    assert!(take_message(&buf).is_none());
}

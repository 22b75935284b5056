use zchronod::add;
use zchronod::message::{MessageDecodeError, ZMessage};

#[test]
fn send_message() {
    let mut msg = ZMessage::default();
    msg.data = vec![1];
}

#[test]
fn add_sums() {
    assert_eq!(add(2, 2), 4);
    assert_eq!(add(0, usize::MAX), usize::MAX);
}

fn sample() -> ZMessage {
    ZMessage { id: vec![1, 2, 3], from: vec![], to: vec![0xab], data: vec![1] }
}

#[test]
fn encode_writes_nonempty_fields_in_order() {
    let mut buf = vec![0xff];
    sample().encode(&mut buf);
    assert_eq!(buf, vec![0xff, 0x0a, 0x03, 1, 2, 3, 0x1a, 0x01, 0xab, 0x22, 0x01, 0x01]);
}

#[test]
fn encode_default_is_empty() {
    let mut buf = Vec::new();
    ZMessage::default().encode(&mut buf);
    assert!(buf.is_empty());
    assert_eq!(ZMessage::decode(&[]), Ok(ZMessage::default()));
}

#[test]
fn encode_long_field_uses_multibyte_length() {
    let msg = ZMessage { id: vec![], from: vec![], to: vec![], data: vec![7; 300] };
    let mut buf = Vec::new();
    msg.encode(&mut buf);
    assert_eq!(&buf[..3], &[0x22, 0xac, 0x02]);
    assert_eq!(buf.len(), 303);
    assert_eq!(ZMessage::decode(&buf), Ok(msg));
}

#[test]
fn decode_roundtrips() {
    let msg = ZMessage {
        id: vec![1, 2, 3, 4, 5, 6],
        from: b"alice".to_vec(),
        to: b"00ff".to_vec(),
        data: b"hello".to_vec(),
    };
    let mut buf = Vec::new();
    msg.encode(&mut buf);
    assert_eq!(ZMessage::decode(&buf), Ok(msg));
}

#[test]
fn decode_last_occurrence_wins() {
    let buf = [0x0a, 0x01, 0x05, 0x0a, 0x02, 0x06, 0x07];
    let msg = ZMessage::decode(&buf).unwrap();
    assert_eq!(msg.id, vec![6, 7]);
}

#[test]
fn decode_skips_unknown_fields() {
    // field 5 as a varint, field 6 as a 32-bit value, then field 4
    let buf = [0x28, 0x96, 0x01, 0x35, 1, 2, 3, 4, 0x22, 0x01, 0x09];
    let msg = ZMessage::decode(&buf).unwrap();
    assert_eq!(msg, ZMessage { id: vec![], from: vec![], to: vec![], data: vec![9] });
}

#[test]
fn decode_rejects_malformed_input() {
    // truncated payload
    assert_eq!(ZMessage::decode(&[0x0a, 0x05, 1, 2]), Err(MessageDecodeError));
    // field number 0
    assert_eq!(ZMessage::decode(&[0x02, 0x00]), Err(MessageDecodeError));
    // known field with the varint wire type
    assert_eq!(ZMessage::decode(&[0x08, 0x01]), Err(MessageDecodeError));
    // invalid wire type 7
    assert_eq!(ZMessage::decode(&[0x0f]), Err(MessageDecodeError));
    // unterminated key
    assert_eq!(ZMessage::decode(&[0x80]), Err(MessageDecodeError));
    // stray end-group
    assert_eq!(ZMessage::decode(&[0x2c]), Err(MessageDecodeError));
}

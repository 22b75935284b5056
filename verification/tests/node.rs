use zchronod::message::{MessageDecodeError, ZMessage};
use zchronod::node::{route_target, HexError, RouteError};

fn frame(to: &[u8]) -> Vec<u8> {
    let msg = ZMessage { id: vec![1], from: b"me".to_vec(), to: to.to_vec(), data: b"hi".to_vec() };
    let mut buf = Vec::new();
    msg.encode(&mut buf);
    buf
}

#[test]
fn routes_to_hex_agent() {
    let (msg, agent) = route_target(&frame(b"00fFaB10")).unwrap();
    assert_eq!(agent, vec![0x00, 0xff, 0xab, 0x10]);
    assert_eq!(msg.data, b"hi".to_vec());
}

#[test]
fn route_rejects_odd_length() {
    assert_eq!(route_target(&frame(b"abc")).unwrap_err(), RouteError::Target(HexError::OddLength));
}

#[test]
fn route_rejects_non_hex() {
    assert_eq!(
        route_target(&frame(b"66ag")).unwrap_err(),
        RouteError::Target(HexError::InvalidHexCharacter { c: 'g', index: 3 })
    );
}

#[test]
fn route_rejects_bad_frame() {
    assert_eq!(route_target(&[0xff]).unwrap_err(), RouteError::Message(MessageDecodeError));
}

#[test]
fn route_empty_target() {
    let (_, agent) = route_target(&frame(b"")).unwrap();
    assert!(agent.is_empty());
}

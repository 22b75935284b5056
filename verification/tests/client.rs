use zchronod::client::{frame_stdin_chunk, Message, ReadReply, Reply, Request, VlcClient};
use zchronod::clock::Clock;
use zchronod::message::ZMessage;

fn clock_of(entries: &[(u128, u128)]) -> Clock {
    Clock::from_entries(&entries.to_vec())
}

fn sorted(c: &Clock) -> Vec<(u128, u128)> {
    let mut e = c.entries();
    e.sort();
    e
}

#[test]
fn stdin_chunk_drops_line_end() {
    let frame = frame_stdin_chunk(b"hello\n", "alice", "0a0b").unwrap();
    let msg = ZMessage::decode(&frame).unwrap();
    assert_eq!(
        msg,
        ZMessage {
            id: vec![1, 2, 3, 4, 5, 6],
            from: b"alice".to_vec(),
            to: b"0a0b".to_vec(),
            data: b"hello".to_vec(),
        }
    );
}

#[test]
fn stdin_empty_line_sends_nothing() {
    assert_eq!(frame_stdin_chunk(b"\n", "alice", "bob"), None);
}

#[test]
fn stdin_frame_exact_bytes() {
    let frame = frame_stdin_chunk(b"x\n", "a", "b").unwrap();
    assert_eq!(
        frame,
        vec![0x0a, 6, 1, 2, 3, 4, 5, 6, 0x12, 1, b'a', 0x1a, 1, b'b', 0x22, 1, b'x']
    );
}

#[test]
fn read_request_carries_key_and_clock() {
    let mut client = VlcClient::new();
    match client.read("k") {
        Request::Read(r) => {
            assert_eq!(r.key, "k");
            assert!(r.clock.is_none());
        }
        _ => panic!("expected a read"),
    }
    client.clock = Some(clock_of(&[(1, 2)]));
    match client.read("k") {
        Request::Read(r) => assert_eq!(sorted(&r.clock.unwrap()), vec![(1, 2)]),
        _ => panic!("expected a read"),
    }
}

#[test]
fn write_request_picks_server() {
    let client = VlcClient::new();
    let (req, index) = client.write("key", "value", None);
    assert_eq!(index, 0);
    match req {
        Request::Write(w) => {
            assert_eq!(w.key, "key");
            assert_eq!(w.value, "value");
        }
        _ => panic!("expected a write"),
    }
    let (_, index) = client.write("key", "value", Some(3));
    assert_eq!(index, 3);
}

#[test]
fn reply_with_clock_is_observed() {
    let mut client = VlcClient::new();
    let reply = ReadReply { value: Some("v".to_string()), clock: Some(clock_of(&[(1, 3), (2, 1)])) };
    let res = client.process_message(Message::Reply(Reply::ReadReply(reply)));
    assert_eq!(res, Some((true, Some("v".to_string()))));
    assert_eq!(sorted(client.clock.as_ref().unwrap()), vec![(1, 3), (2, 1)]);

    let reply = ReadReply { value: None, clock: Some(clock_of(&[(1, 2), (3, 7)])) };
    let res = client.process_message(Message::Reply(Reply::WriteReply(reply)));
    assert_eq!(res, Some((true, None)));
    assert_eq!(sorted(client.clock.as_ref().unwrap()), vec![(1, 3), (2, 1), (3, 7)]);
}

#[test]
fn reply_without_clock_fails() {
    let mut client = VlcClient::new();
    client.clock = Some(clock_of(&[(4, 4)]));
    let reply = ReadReply { value: Some("ignored".to_string()), clock: None };
    let res = client.process_message(Message::Reply(Reply::ReadReply(reply)));
    assert_eq!(res, Some((false, None)));
    assert_eq!(sorted(client.clock.as_ref().unwrap()), vec![(4, 4)]);
}

#[test]
fn request_message_is_not_a_reply() {
    let mut client = VlcClient::new();
    let req = client.read("k");
    assert_eq!(client.process_message(Message::Request(req)), None);
    assert!(client.clock.is_none());
}

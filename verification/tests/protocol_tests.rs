use braid_node::protocol::{DispatchError, Message, NodeAddr};

fn addr() -> NodeAddr {
    NodeAddr { o1: 203, o2: 0, o3: 113, o4: 5, port: 9000 }
}

#[test]
fn handshake_encodes_to_fixed_frame() {
    let m = Message::handshake_start(&addr());
    let b = m.as_bytes().unwrap();
    assert_eq!(b, vec![0u8, 203, 0, 113, 5, 35, 40]);
}

#[test]
fn handshake_round_trip() {
    let b = Message::Handshake(addr()).as_bytes().unwrap();
    assert_eq!(Message::from_bytes(&b).unwrap(), Message::Handshake(addr()));
}

#[test]
fn ping_round_trip_exact_frame() {
    let m = Message::Ping(vec![7, 8, 9]);
    let b = m.as_bytes().unwrap();
    assert_eq!(b, vec![1u8, 0, 3, 7, 8, 9]);
    assert_eq!(Message::from_bytes(&b).unwrap(), Message::Ping(vec![7, 8, 9]));
}

#[test]
fn pong_round_trip() {
    let b = Message::Pong(vec![42; 300]).as_bytes().unwrap();
    assert_eq!(b[0], 2u8);
    assert_eq!(b[1], 1u8);
    assert_eq!(b[2], 44u8);
    assert_eq!(Message::from_bytes(&b).unwrap(), Message::Pong(vec![42; 300]));
}

#[test]
fn query_round_trip_exact_frame() {
    let m = Message::Query(5, vec![1, 2]);
    let b = m.as_bytes().unwrap();
    assert_eq!(b, vec![3u8, 5, 0, 2, 1, 2]);
    assert_eq!(Message::from_bytes(&b).unwrap(), Message::Query(5, vec![1, 2]));
}

#[test]
fn decode_rejects_empty_input() {
    assert!(Message::from_bytes(&[]).is_err());
}

#[test]
fn decode_rejects_unknown_tag() {
    assert!(Message::from_bytes(&[9, 1, 2]).is_err());
}

#[test]
fn decode_rejects_length_mismatch() {
    // ping declaring three payload bytes but carrying one
    assert!(Message::from_bytes(&[1, 0, 3, 7]).is_err());
    // handshake frames are exactly seven bytes
    assert!(Message::from_bytes(&[0, 1, 2, 3]).is_err());
    // trailing byte after a complete empty-payload ping
    assert!(Message::from_bytes(&[1, 0, 0, 5]).is_err());
    // query header cut short
    assert!(Message::from_bytes(&[3, 0]).is_err());
}

#[test]
fn oversize_payload_does_not_serialize() {
    let m = Message::Pong(vec![0u8; 70000]);
    assert!(m.as_bytes().is_none());
}

#[test]
fn largest_payload_still_serializes() {
    let m = Message::Ping(vec![1u8; 65535]);
    let b = m.as_bytes().unwrap();
    assert_eq!(b.len(), 3 + 65535);
    assert_eq!(Message::from_bytes(&b).unwrap(), Message::Ping(vec![1u8; 65535]));
}

#[test]
fn dispatch_ping_pongs_the_payload() {
    let r = Message::Ping(vec![1, 2]).response_for_received().unwrap();
    assert_eq!(r, Some(Message::Pong(vec![1, 2])));
}

#[test]
fn dispatch_handshake_and_pong_draw_no_response() {
    assert_eq!(Message::Handshake(addr()).response_for_received().unwrap(), None);
    assert_eq!(Message::Pong(vec![3]).response_for_received().unwrap(), None);
}

#[test]
fn dispatch_echo_query_doubles_the_payload() {
    let r = Message::Query(0, vec![5, 6]).response_for_received().unwrap();
    assert_eq!(r, Some(Message::Pong(vec![5, 6, 5, 6])));
}

#[test]
fn dispatch_unknown_query_kind_fails() {
    assert_eq!(Message::Query(3, vec![]).response_for_received(), Err(DispatchError));
}

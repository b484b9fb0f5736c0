use braid_node::protocol::{Message, NodeAddr};
use braid_node::session::{ReadEvent, Role, Session, SessionError, SessionState};

fn addr() -> NodeAddr {
    NodeAddr { o1: 203, o2: 0, o3: 113, o4: 5, port: 9000 }
}

fn frame(m: Message) -> Vec<u8> {
    m.as_bytes().unwrap()
}

fn is_handshake(bytes: &[u8]) -> bool {
    matches!(Message::from_bytes(bytes), Ok(Message::Handshake(_)))
}

#[test]
fn initiator_writes_exactly_one_handshake_first() {
    let mut s = Session::new(Role::Initiator);
    let inbound = vec![
        ReadEvent::Data(frame(Message::Ping(vec![1]))),
        ReadEvent::Data(frame(Message::Ping(vec![2]))),
        ReadEvent::Closed,
    ];
    let (writes, exit) = s.start_from_connect(&addr(), &inbound);
    assert_eq!(writes.len(), 3);
    assert_eq!(writes[0], vec![0u8, 203, 0, 113, 5, 35, 40]);
    assert!(is_handshake(&writes[0]));
    assert!(!is_handshake(&writes[1]));
    assert!(!is_handshake(&writes[2]));
    assert_eq!(writes[1], frame(Message::Pong(vec![1])));
    assert_eq!(writes[2], frame(Message::Pong(vec![2])));
    assert_eq!(exit, Some(SessionError::PeerClosed));
    assert_eq!(s.state, SessionState::Closed);
}

#[test]
fn responder_never_writes_a_handshake() {
    let mut s = Session::new(Role::Responder);
    let inbound = vec![
        ReadEvent::Data(frame(Message::Ping(vec![9]))),
        ReadEvent::Data(frame(Message::Handshake(addr()))),
    ];
    let (writes, exit) = s.start_from_accept(&inbound);
    assert_eq!(writes, vec![frame(Message::Pong(vec![9]))]);
    assert_eq!(exit, None);
    for w in &writes {
        assert!(!is_handshake(w));
    }
}

#[test]
fn no_response_means_no_write() {
    let mut s = Session::new(Role::Responder);
    s.begin_reading();
    let r = s.on_read(&ReadEvent::Data(frame(Message::Pong(vec![4]))));
    assert_eq!(r, Ok(None));
    assert_eq!(s.state, SessionState::Dispatching);
}

#[test]
fn serialize_failure_is_fatal_with_no_partial_write() {
    // the echo query's response would be twice 40000 bytes: too long for a frame
    let mut s = Session::new(Role::Responder);
    s.begin_reading();
    let inbound = vec![
        ReadEvent::Data(frame(Message::Query(0, vec![0u8; 40000]))),
        ReadEvent::Data(frame(Message::Ping(vec![]))),
    ];
    let (writes, exit) = s.start_read_loop(&inbound);
    assert!(writes.is_empty());
    assert_eq!(exit, Some(SessionError::SerializeError));
    assert_eq!(s.state, SessionState::Closed);
}

#[test]
fn scenario_responder_quiet_message_then_peer_close() {
    // one inbound message whose dispatch yields no response, then the peer
    // closes: the loop reports the close, and the outer accept loop is free
    // to hand the next connection a fresh session
    let mut s = Session::new(Role::Responder);
    let inbound = vec![ReadEvent::Data(frame(Message::Handshake(addr()))), ReadEvent::Closed];
    let (writes, exit) = s.start_from_accept(&inbound);
    assert!(writes.is_empty());
    assert_eq!(exit, Some(SessionError::PeerClosed));

    let mut next = Session::new(Role::Responder);
    let next_inbound = vec![ReadEvent::Data(frame(Message::Ping(vec![1])))];
    let (w2, e2) = next.start_from_accept(&next_inbound);
    assert_eq!(w2, vec![frame(Message::Pong(vec![1]))]);
    assert_eq!(e2, None);
}

#[test]
fn scenario_initiator_handshake_then_malformed_peer_bytes() {
    let mut s = Session::new(Role::Initiator);
    let inbound = vec![ReadEvent::Data(vec![255, 254, 253])];
    let (writes, exit) = s.start_from_connect(&addr(), &inbound);
    // the handshake went out first; no response was attempted for the
    // malformed frame
    assert_eq!(writes, vec![vec![0u8, 203, 0, 113, 5, 35, 40]]);
    assert_eq!(exit, Some(SessionError::DecodeError));
    assert_eq!(s.state, SessionState::Closed);
}

#[test]
fn dispatch_error_closes_the_session() {
    let mut s = Session::new(Role::Responder);
    s.begin_reading();
    let r = s.on_read(&ReadEvent::Data(frame(Message::Query(7, vec![]))));
    assert_eq!(r, Err(SessionError::DispatchError));
    assert_eq!(s.state, SessionState::Closed);
}

#[test]
fn read_failure_closes_the_session() {
    let mut s = Session::new(Role::Responder);
    s.begin_reading();
    let r = s.on_read(&ReadEvent::Failed);
    assert_eq!(r, Err(SessionError::ReadError));
    assert_eq!(s.state, SessionState::Closed);
}

#[test]
fn write_failure_closes_the_session() {
    let mut s = Session::new(Role::Responder);
    s.begin_reading();
    assert_eq!(s.write_failed(), SessionError::WriteError);
    assert_eq!(s.state, SessionState::Closed);
}

#[test]
fn handshake_frame_only_once_then_loop() {
    let mut s = Session::new(Role::Initiator);
    let w = s.handshake_frame(&addr());
    assert_eq!(w, vec![0u8, 203, 0, 113, 5, 35, 40]);
    assert_eq!(s.state, SessionState::Handshaking);
    s.handshake_written();
    assert_eq!(s.state, SessionState::Dispatching);
}

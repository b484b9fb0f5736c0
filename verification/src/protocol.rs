//! Wire protocol: the closed set of message kinds a session understands,
//! a length-framed byte codec for them, and the dispatcher that maps one
//! received message to at most one response.

use vstd::prelude::*;

verus! {

/// Largest payload a frame can carry: the length field is two bytes.
pub const MAX_PAYLOAD: usize = 65535;

/// Frame tag of a handshake-start message.
pub const TAG_HANDSHAKE: u8 = 0;
/// Frame tag of a ping message.
pub const TAG_PING: u8 = 1;
/// Frame tag of a pong message.
pub const TAG_PONG: u8 = 2;
/// Frame tag of a query message.
pub const TAG_QUERY: u8 = 3;

/// The one query kind this node answers; any other kind is a dispatch error.
pub const QUERY_ECHO: u8 = 0;

/// An IPv4 socket address, held as plain values so contracts can speak of it.
#[derive(Clone, Copy, PartialEq, Eq, Structural, Debug)]
pub struct NodeAddr {
    pub o1: u8,
    pub o2: u8,
    pub o3: u8,
    pub o4: u8,
    pub port: u16,
}

/// A decoded protocol message. `Handshake` is the only kind a session ever
/// sends unprompted; the rest are opaque payload carriers handed to the
/// dispatcher.
#[derive(Clone, PartialEq, Eq, Debug)]
pub enum Message {
    Handshake(NodeAddr),
    Ping(Vec<u8>),
    Pong(Vec<u8>),
    Query(u8, Vec<u8>),
}

/// Mathematical model of a message: payloads as byte sequences.
pub enum MessageView {
    Handshake(NodeAddr),
    Ping(Seq<u8>),
    Pong(Seq<u8>),
    Query(u8, Seq<u8>),
}

impl View for Message {
    type V = MessageView;

    open spec fn view(&self) -> MessageView {
        match self {
            Message::Handshake(a) => MessageView::Handshake(*a),
            Message::Ping(p) => MessageView::Ping(p@),
            Message::Pong(p) => MessageView::Pong(p@),
            Message::Query(k, p) => MessageView::Query(*k, p@),
        }
    }
}

/// Malformed inbound bytes; fatal to the owning session only.
#[derive(Clone, Copy, PartialEq, Eq, Structural, Debug)]
pub struct DecodeError;

/// The dispatcher could not construct a valid response; fatal to the owning
/// session only.
#[derive(Clone, Copy, PartialEq, Eq, Structural, Debug)]
pub struct DispatchError;

/// Whether a message fits the frame format: its payload length must fit the
/// two-byte length field.
pub open spec fn spec_encodable(m: MessageView) -> bool {
    match m {
        MessageView::Handshake(_) => true,
        MessageView::Ping(p) => p.len() <= MAX_PAYLOAD,
        MessageView::Pong(p) => p.len() <= MAX_PAYLOAD,
        MessageView::Query(_, p) => p.len() <= MAX_PAYLOAD,
    }
}

/// The encoding of a message, meaningful when `spec_encodable(m)` holds:
/// a tag byte, then the kind's fixed fields, then a big-endian two-byte
/// payload length and the payload itself.
pub open spec fn spec_encode(m: MessageView) -> Seq<u8> {
    match m {
        MessageView::Handshake(a) => seq![
            TAG_HANDSHAKE,
            a.o1,
            a.o2,
            a.o3,
            a.o4,
            (a.port / 256) as u8,
            (a.port % 256) as u8,
        ],
        MessageView::Ping(p) => seq![TAG_PING, (p.len() / 256) as u8, (p.len() % 256) as u8] + p,
        MessageView::Pong(p) => seq![TAG_PONG, (p.len() / 256) as u8, (p.len() % 256) as u8] + p,
        MessageView::Query(k, p) => seq![
            TAG_QUERY,
            k,
            (p.len() / 256) as u8,
            (p.len() % 256) as u8,
        ] + p,
    }
}

/// The decoding of a byte buffer: `Some(m)` exactly when the buffer is one
/// well-formed frame (correct tag, declared length matching the remainder,
/// no trailing bytes), `None` otherwise.
pub open spec fn spec_decode(b: Seq<u8>) -> Option<MessageView> {
    if b.len() == 0 {
        None
    } else if b[0] == TAG_HANDSHAKE {
        if b.len() == 7 {
            Some(MessageView::Handshake(NodeAddr {
                o1: b[1],
                o2: b[2],
                o3: b[3],
                o4: b[4],
                port: (b[5] * 256 + b[6]) as u16,
            }))
        } else {
            None
        }
    } else if b[0] == TAG_PING {
        if b.len() >= 3 && b.len() == 3 + b[1] * 256 + b[2] {
            Some(MessageView::Ping(b.subrange(3, b.len() as int)))
        } else {
            None
        }
    } else if b[0] == TAG_PONG {
        if b.len() >= 3 && b.len() == 3 + b[1] * 256 + b[2] {
            Some(MessageView::Pong(b.subrange(3, b.len() as int)))
        } else {
            None
        }
    } else if b[0] == TAG_QUERY {
        if b.len() >= 4 && b.len() == 4 + b[2] * 256 + b[3] {
            Some(MessageView::Query(b[1], b.subrange(4, b.len() as int)))
        } else {
            None
        }
    } else {
        None
    }
}

/// Relates an executable dispatch outcome to its model.
pub open spec fn response_view(r: Result<Option<Message>, DispatchError>) -> Result<
    Option<MessageView>,
    DispatchError,
> {
    match r {
        Ok(None) => Ok(None),
        Ok(Some(m)) => Ok(Some(m@)),
        Err(e) => Err(e),
    }
}

/// The dispatcher's table: a pure function of the received message alone.
/// Handshakes and pongs draw no response; a ping is answered by a pong
/// echoing its payload; the echo query is answered by a pong carrying the
/// payload twice over, so a long enough query asks for a response that no
/// frame can carry; any other query kind is a dispatch error.
pub open spec fn spec_dispatch(m: MessageView) -> Result<Option<MessageView>, DispatchError> {
    match m {
        MessageView::Handshake(_) => Ok(None),
        MessageView::Ping(p) => Ok(Some(MessageView::Pong(p))),
        MessageView::Pong(_) => Ok(None),
        MessageView::Query(k, p) => if k == QUERY_ECHO {
            Ok(Some(MessageView::Pong(p + p)))
        } else {
            Err(DispatchError)
        },
    }
}

/// Round trip: every message that fits the frame format decodes back from
/// its own encoding — the codec loses nothing.
pub proof fn lemma_encode_decode(m: MessageView)
    requires
        spec_encodable(m),
    ensures
        spec_decode(spec_encode(m)) == Some(m),
{
    let b = spec_encode(m);
    match m {
        MessageView::Handshake(a) => {
            assert(a.port / 256 < 256 && a.port % 256 < 256);
            assert(a.port / 256 * 256 + a.port % 256 == a.port);
            assert(spec_decode(b) == Some(m));
        },
        MessageView::Ping(p) => {
            assert(b.len() == 3 + p.len());
            assert(p.len() / 256 < 256 && p.len() % 256 < 256);
            assert(b[1] * 256 + b[2] == p.len());
            assert(b.subrange(3, b.len() as int) =~= p);
            assert(spec_decode(b) == Some(m));
        },
        MessageView::Pong(p) => {
            assert(b.len() == 3 + p.len());
            assert(p.len() / 256 < 256 && p.len() % 256 < 256);
            assert(b[1] * 256 + b[2] == p.len());
            assert(b.subrange(3, b.len() as int) =~= p);
            assert(spec_decode(b) == Some(m));
        },
        MessageView::Query(k, p) => {
            assert(b.len() == 4 + p.len());
            assert(p.len() / 256 < 256 && p.len() % 256 < 256);
            assert(b[2] * 256 + b[3] == p.len());
            assert(b.subrange(4, b.len() as int) =~= p);
            assert(spec_decode(b) == Some(m));
        },
    }
}

/// Canonical framing: a buffer that decodes at all is exactly the encoding
/// of the message it decodes to — no two distinct frames share a decoding,
/// and whatever decodes also fits the frame format.
pub proof fn lemma_decode_encode(b: Seq<u8>)
    ensures
        spec_decode(b) matches Some(m) ==> spec_encodable(m) && spec_encode(m) == b,
{
    if spec_decode(b) is Some {
        let m = spec_decode(b)->0;
        match m {
            MessageView::Handshake(a) => {
                assert(a.port == b[5] * 256 + b[6]);
                assert(b[6] < 256);
                assert(a.port / 256 == b[5] && a.port % 256 == b[6]);
                assert(spec_encode(m) =~= b);
            },
            MessageView::Ping(p) => {
                assert(p.len() == b[1] * 256 + b[2]);
                assert(b[2] < 256);
                assert(p.len() / 256 == b[1] && p.len() % 256 == b[2]);
                assert(spec_encode(m) =~= b);
            },
            MessageView::Pong(p) => {
                assert(p.len() == b[1] * 256 + b[2]);
                assert(b[2] < 256);
                assert(p.len() / 256 == b[1] && p.len() % 256 == b[2]);
                assert(spec_encode(m) =~= b);
            },
            MessageView::Query(k, p) => {
                assert(p.len() == b[2] * 256 + b[3]);
                assert(b[3] < 256);
                assert(p.len() / 256 == b[2] && p.len() % 256 == b[3]);
                assert(spec_encode(m) =~= b);
            },
        }
    }
}

/// The dispatcher never answers with a handshake: responses can never be
/// mistaken for a session opening the protocol.
pub proof fn lemma_dispatch_never_handshake(m: MessageView)
    ensures
        spec_dispatch(m) matches Ok(Some(r)) ==> !(r is Handshake),
{
}

/// Appends the big-endian two-byte length of `p`, then `p` itself.
fn push_payload(v: &mut Vec<u8>, p: &Vec<u8>)
    requires
        p@.len() <= MAX_PAYLOAD,
    ensures
        final(v)@ == old(v)@ + seq![(p@.len() / 256) as u8, (p@.len() % 256) as u8] + p@,
{
    let n = p.len();
    v.push((n / 256) as u8);
    v.push((n % 256) as u8);
    let mut i: usize = 0;
    while i < p.len()
        invariant
            i <= p@.len(),
            p@.len() <= MAX_PAYLOAD,
            v@ == old(v)@ + seq![(p@.len() / 256) as u8, (p@.len() % 256) as u8] + p@.subrange(
                0,
                i as int,
            ),
        decreases p@.len() - i,
    {
        v.push(p[i]);
        proof {
            assert(v@ =~= old(v)@ + seq![(p@.len() / 256) as u8, (p@.len() % 256) as u8]
                + p@.subrange(0, i + 1));
        }
        i = i + 1;
    }
    proof {
        assert(p@.subrange(0, p@.len() as int) =~= p@);
    }
}

/// The payload twice over: what the echo query is answered with.
fn repeat_twice(p: &Vec<u8>) -> (r: Vec<u8>)
    ensures
        r@ == p@ + p@,
{
    let mut v: Vec<u8> = Vec::new();
    let mut round: usize = 0;
    while round < 2
        invariant
            round <= 2,
            round == 0 ==> v@ == Seq::<u8>::empty(),
            round == 1 ==> v@ == p@,
            round == 2 ==> v@ == p@ + p@,
        decreases 2 - round,
    {
        let ghost base = v@;
        let mut i: usize = 0;
        while i < p.len()
            invariant
                i <= p@.len(),
                v@ == base + p@.subrange(0, i as int),
            decreases p@.len() - i,
        {
            v.push(p[i]);
            proof {
                assert(v@ =~= base + p@.subrange(0, i + 1));
            }
            i = i + 1;
        }
        proof {
            assert(p@.subrange(0, p@.len() as int) =~= p@);
            assert(Seq::<u8>::empty() + p@ =~= p@);
        }
        round = round + 1;
    }
    v
}

/// Copies `b[start..]` into a fresh vector.
fn copy_tail(b: &[u8], start: usize) -> (r: Vec<u8>)
    requires
        start <= b@.len(),
    ensures
        r@ == b@.subrange(start as int, b@.len() as int),
{
    let mut v: Vec<u8> = Vec::new();
    let mut i: usize = start;
    while i < b.len()
        invariant
            start <= i <= b@.len(),
            v@ == b@.subrange(start as int, i as int),
        decreases b@.len() - i,
    {
        let x = b[i];
        v.push(x);
        proof {
            assert(v@ =~= b@.subrange(start as int, i + 1));
        }
        i = i + 1;
    }
    v
}

impl Message {
    /// The handshake-start message for a target address; the only message a
    /// session constructs on its own.
    pub fn handshake_start(addr: &NodeAddr) -> (r: Message)
        ensures
            r@ == MessageView::Handshake(*addr),
            spec_encodable(r@),
    {
        Message::Handshake(*addr)
    }

    /// Serializes the message to one frame. Fails, returning `None`, exactly
    /// when the payload is too long for the two-byte length field.
    pub fn as_bytes(&self) -> (r: Option<Vec<u8>>)
        ensures
            r is Some <==> spec_encodable(self@),
            r matches Some(v) ==> v@ == spec_encode(self@),
    {
        match self {
            Message::Handshake(a) => {
                let mut v: Vec<u8> = Vec::new();
                v.push(TAG_HANDSHAKE);
                v.push(a.o1);
                v.push(a.o2);
                v.push(a.o3);
                v.push(a.o4);
                v.push((a.port / 256) as u8);
                v.push((a.port % 256) as u8);
                proof {
                    assert(v@ =~= spec_encode(self@));
                }
                Some(v)
            },
            Message::Ping(p) => {
                if p.len() > MAX_PAYLOAD {
                    None
                } else {
                    let mut v: Vec<u8> = Vec::new();
                    v.push(TAG_PING);
                    push_payload(&mut v, p);
                    proof {
                        assert(v@ =~= spec_encode(self@));
                    }
                    Some(v)
                }
            },
            Message::Pong(p) => {
                if p.len() > MAX_PAYLOAD {
                    None
                } else {
                    let mut v: Vec<u8> = Vec::new();
                    v.push(TAG_PONG);
                    push_payload(&mut v, p);
                    proof {
                        assert(v@ =~= spec_encode(self@));
                    }
                    Some(v)
                }
            },
            Message::Query(k, p) => {
                if p.len() > MAX_PAYLOAD {
                    None
                } else {
                    let mut v: Vec<u8> = Vec::new();
                    v.push(TAG_QUERY);
                    v.push(*k);
                    push_payload(&mut v, p);
                    proof {
                        assert(v@ =~= spec_encode(self@));
                    }
                    Some(v)
                }
            },
        }
    }

    /// Decodes one frame. Fails exactly on the buffers `spec_decode` rejects:
    /// empty input, an unknown tag, or a length field that does not match.
    pub fn from_bytes(b: &[u8]) -> (r: Result<Message, DecodeError>)
        ensures
            r matches Ok(m) ==> spec_decode(b@) == Some(m@),
            r is Err <==> spec_decode(b@) is None,
    {
        if b.len() == 0 {
            return Err(DecodeError);
        }
        let tag = b[0];
        if tag == TAG_HANDSHAKE {
            if b.len() == 7 {
                let port: u16 = (b[5] as u16) * 256 + (b[6] as u16);
                Ok(
                    Message::Handshake(
                        NodeAddr { o1: b[1], o2: b[2], o3: b[3], o4: b[4], port },
                    ),
                )
            } else {
                Err(DecodeError)
            }
        } else if tag == TAG_PING {
            if b.len() >= 3 && b.len() - 3 == (b[1] as usize) * 256 + (b[2] as usize) {
                Ok(Message::Ping(copy_tail(b, 3)))
            } else {
                Err(DecodeError)
            }
        } else if tag == TAG_PONG {
            if b.len() >= 3 && b.len() - 3 == (b[1] as usize) * 256 + (b[2] as usize) {
                Ok(Message::Pong(copy_tail(b, 3)))
            } else {
                Err(DecodeError)
            }
        } else if tag == TAG_QUERY {
            if b.len() >= 4 && b.len() - 4 == (b[2] as usize) * 256 + (b[3] as usize) {
                Ok(Message::Query(b[1], copy_tail(b, 4)))
            } else {
                Err(DecodeError)
            }
        } else {
            Err(DecodeError)
        }
    }

    /// Asks "what, if anything, is the response for this message": the
    /// executable dispatcher, exact to `spec_dispatch`.
    pub fn response_for_received(self) -> (r: Result<Option<Message>, DispatchError>)
        ensures
            response_view(r) == spec_dispatch(self@),
    {
        match self {
            Message::Handshake(_) => Ok(None),
            Message::Ping(p) => Ok(Some(Message::Pong(p))),
            Message::Pong(_) => Ok(None),
            Message::Query(k, p) => {
                if k == QUERY_ECHO {
                    Ok(Some(Message::Pong(repeat_twice(&p))))
                } else {
                    Err(DispatchError)
                }
            },
        }
    }
}

} // verus!

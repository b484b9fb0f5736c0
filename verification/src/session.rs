//! The per-connection session state machine: handshake initiation for the
//! Initiator role, the read-dispatch loop, and the fail-closed error policy.
//! The surrounding program owns the streams and performs every read and
//! write; this module decides what to write and when the session is over.

use vstd::prelude::*;

use crate::protocol::{Message, MessageView, NodeAddr};
use crate::protocol::{spec_decode, spec_dispatch, spec_encodable, spec_encode};

verus! {

/// How the session came to exist: by actively connecting (Initiator) or by
/// accepting an inbound connection (Responder). Immutable for the session's
/// lifetime; only an Initiator sends a handshake-start frame.
#[derive(Clone, Copy, PartialEq, Eq, Structural, Debug)]
pub enum Role {
    Initiator,
    Responder,
}

/// Lifecycle of a session.
#[derive(Clone, Copy, PartialEq, Eq, Structural, Debug)]
pub enum SessionState {
    Created,
    Handshaking,
    Dispatching,
    Closed,
}

/// Why a session ended. Every one of these is fatal to the owning session
/// only; the caller logs it and the session's task ends.
#[derive(Clone, Copy, PartialEq, Eq, Structural, Debug)]
pub enum SessionError {
    /// The peer closed the stream cleanly (end of data).
    PeerClosed,
    /// The receive stream reported an error.
    ReadError,
    /// The inbound bytes were not one well-formed frame.
    DecodeError,
    /// The dispatcher could not construct a valid response.
    DispatchError,
    /// The response could not be encoded; nothing of it is written.
    SerializeError,
    /// The send stream reported an error.
    WriteError,
}

/// What one read off the receive stream yielded: a buffer, a clean close,
/// or a stream error.
#[derive(Clone, PartialEq, Eq, Debug)]
pub enum ReadEvent {
    Data(Vec<u8>),
    Closed,
    Failed,
}

/// Mathematical model of a read result.
pub enum ReadEventView {
    Data(Seq<u8>),
    Closed,
    Failed,
}

impl View for ReadEvent {
    type V = ReadEventView;

    open spec fn view(&self) -> ReadEventView {
        match self {
            ReadEvent::Data(b) => ReadEventView::Data(b@),
            ReadEvent::Closed => ReadEventView::Closed,
            ReadEvent::Failed => ReadEventView::Failed,
        }
    }
}

/// The outcome of handling one inbound buffer: decode it, dispatch it, and
/// encode the response if one is produced. `Ok(None)` means the loop reads
/// on without writing; `Ok(Some(w))` means exactly the frame `w` is written;
/// `Err(_)` closes the session.
pub open spec fn spec_step(b: Seq<u8>) -> Result<Option<Seq<u8>>, SessionError> {
    match spec_decode(b) {
        None => Err(SessionError::DecodeError),
        Some(m) => match spec_dispatch(m) {
            Err(_) => Err(SessionError::DispatchError),
            Ok(None) => Ok(None),
            Ok(Some(r)) => if spec_encodable(r) {
                Ok(Some(spec_encode(r)))
            } else {
                Err(SessionError::SerializeError)
            },
        },
    }
}

/// The outcome of one whole loop iteration, including how the read itself
/// went.
pub open spec fn spec_event_step(ev: ReadEventView) -> Result<Option<Seq<u8>>, SessionError> {
    match ev {
        ReadEventView::Closed => Err(SessionError::PeerClosed),
        ReadEventView::Failed => Err(SessionError::ReadError),
        ReadEventView::Data(b) => spec_step(b),
    }
}

/// The read loop over a sequence of read results: the frames it writes, in
/// order, and how it exits. `None` means the script ran out with the session
/// still reading; `Some(e)` means the loop ended with `e` and nothing after
/// that point was processed.
pub open spec fn spec_read_loop(inbound: Seq<ReadEventView>) -> (Seq<Seq<u8>>, Option<
    SessionError,
>)
    decreases inbound.len(),
{
    if inbound.len() == 0 {
        (Seq::<Seq<u8>>::empty(), None::<SessionError>)
    } else {
        match spec_event_step(inbound[0]) {
            Err(e) => (Seq::<Seq<u8>>::empty(), Some(e)),
            Ok(None) => spec_read_loop(inbound.drop_first()),
            Ok(Some(w)) => {
                let rest = spec_read_loop(inbound.drop_first());
                (seq![w] + rest.0, rest.1)
            },
        }
    }
}

/// Every frame a session writes over its whole life, in order: an Initiator
/// writes the handshake-start frame first, before any read is processed; a
/// Responder writes only what the loop produces.
pub open spec fn spec_session_writes(role: Role, addr: NodeAddr, inbound: Seq<ReadEventView>) -> Seq<
    Seq<u8>,
> {
    if role is Initiator {
        seq![spec_encode(MessageView::Handshake(addr))] + spec_read_loop(inbound).0
    } else {
        spec_read_loop(inbound).0
    }
}

/// Whether a frame would be read back as a handshake-start message.
pub open spec fn is_handshake_frame(b: Seq<u8>) -> bool {
    spec_decode(b) matches Some(m) && m is Handshake
}

/// No frame of the sequence is a handshake frame.
pub open spec fn no_handshake_frames(ws: Seq<Seq<u8>>) -> bool {
    forall|i: int| 0 <= i < ws.len() ==> !is_handshake_frame(#[trigger] ws[i])
}

/// The read loop only ever writes dispatcher responses, and the dispatcher
/// never answers with a handshake: no loop write is a handshake frame,
/// whatever the peer sends.
pub proof fn lemma_loop_never_writes_handshake(inbound: Seq<ReadEventView>)
    ensures
        no_handshake_frames(spec_read_loop(inbound).0),
    decreases inbound.len(),
{
    if inbound.len() == 0 {
    } else {
        match inbound[0] {
            ReadEventView::Closed => {
            },
            ReadEventView::Failed => {
            },
            ReadEventView::Data(b) => {
                match spec_step(b) {
                    Err(_) => {
                    },
                    Ok(None) => {
                        lemma_loop_never_writes_handshake(inbound.drop_first());
                    },
                    Ok(Some(w)) => {
                        lemma_loop_never_writes_handshake(inbound.drop_first());
                        let rest = spec_read_loop(inbound.drop_first());
                        match spec_decode(b) {
                            None => {
                                assert(false);
                            },
                            Some(m) => {
                                match spec_dispatch(m) {
                                    Ok(Some(r)) => {
                                        crate::protocol::lemma_dispatch_never_handshake(m);
                                        crate::protocol::lemma_encode_decode(r);
                                        assert(!is_handshake_frame(w));
                                    },
                                    _ => {
                                        assert(false);
                                    },
                                }
                            },
                        }
                        assert forall|i: int|
                            0 <= i < (seq![w] + rest.0).len() implies !is_handshake_frame(
                            #[trigger] (seq![w] + rest.0)[i],
                        ) by {
                            if i > 0 {
                                assert((seq![w] + rest.0)[i] == rest.0[i - 1]);
                            }
                        }
                    },
                }
            },
        }
    }
}

/// Law: a session started from connect writes the handshake-start frame for
/// its target address first — ahead of everything the read loop produces —
/// writes it exactly once, and never writes another handshake frame, however
/// the peer and the dispatcher behave afterwards.
pub proof fn lemma_initiator_writes_one_handshake(addr: NodeAddr, inbound: Seq<ReadEventView>)
    ensures
        spec_session_writes(Role::Initiator, addr, inbound).len() >= 1,
        spec_session_writes(Role::Initiator, addr, inbound)[0] == spec_encode(
            MessageView::Handshake(addr),
        ),
        is_handshake_frame(spec_session_writes(Role::Initiator, addr, inbound)[0]),
        forall|i: int|
            1 <= i < spec_session_writes(Role::Initiator, addr, inbound).len()
                ==> !is_handshake_frame(
                #[trigger] spec_session_writes(Role::Initiator, addr, inbound)[i],
            ),
{
    crate::protocol::lemma_encode_decode(MessageView::Handshake(addr));
    lemma_loop_never_writes_handshake(inbound);
    let ws = spec_session_writes(Role::Initiator, addr, inbound);
    let lw = spec_read_loop(inbound).0;
    assert forall|i: int| 1 <= i < ws.len() implies !is_handshake_frame(#[trigger] ws[i]) by {
        assert(ws[i] == lw[i - 1]);
    }
}

/// Law: a Responder-role session never writes a handshake frame at all: its
/// writes are exactly the read loop's dispatcher responses.
pub proof fn lemma_responder_never_writes_handshake(addr: NodeAddr, inbound: Seq<ReadEventView>)
    ensures
        spec_session_writes(Role::Responder, addr, inbound) == spec_read_loop(inbound).0,
        no_handshake_frames(spec_session_writes(Role::Responder, addr, inbound)),
{
    lemma_loop_never_writes_handshake(inbound);
}

/// Law: a message the dispatcher answers with nothing adds no write and does
/// not end the loop — the run continues over the remaining script exactly as
/// if the message had not arrived.
pub proof fn lemma_no_response_writes_nothing(b: Seq<u8>, rest: Seq<ReadEventView>)
    requires
        spec_step(b) == Ok::<Option<Seq<u8>>, SessionError>(None),
    ensures
        spec_read_loop(seq![ReadEventView::Data(b)] + rest) == spec_read_loop(rest),
{
    assert((seq![ReadEventView::Data(b)] + rest)[0] == ReadEventView::Data(b));
    assert((seq![ReadEventView::Data(b)] + rest).drop_first() =~= rest);
}

/// Law: a message whose response fails to serialize ends the session with
/// `SerializeError` right there: nothing is written for that message — no
/// partial write — and nothing after it is processed.
pub proof fn lemma_serialize_failure_fatal(b: Seq<u8>, rest: Seq<ReadEventView>)
    requires
        spec_decode(b) matches Some(m) && spec_dispatch(m) matches Ok(Some(r)) && !spec_encodable(
            r,
        ),
    ensures
        spec_step(b) == Err::<Option<Seq<u8>>, SessionError>(SessionError::SerializeError),
        spec_read_loop(seq![ReadEventView::Data(b)] + rest) == (
            Seq::<Seq<u8>>::empty(),
            Some(SessionError::SerializeError),
        ),
{
    assert((seq![ReadEventView::Data(b)] + rest)[0] == ReadEventView::Data(b));
}

/// One observable step of a session, in the order it happened: a frame
/// written to the send stream, or a read result taken off the receive
/// stream.
pub enum TraceEvent {
    Wrote(Seq<u8>),
    ReadOff(ReadEventView),
}

/// The interleaved I/O trace of the read loop: each read result observed,
/// immediately followed by the response written for it, if any. The loop
/// never issues a second read before the previous message's response has
/// been written.
pub open spec fn spec_loop_trace(inbound: Seq<ReadEventView>) -> Seq<TraceEvent>
    decreases inbound.len(),
{
    if inbound.len() == 0 {
        Seq::<TraceEvent>::empty()
    } else {
        match spec_event_step(inbound[0]) {
            Err(_) => seq![TraceEvent::ReadOff(inbound[0])],
            Ok(None) => seq![TraceEvent::ReadOff(inbound[0])] + spec_loop_trace(
                inbound.drop_first(),
            ),
            Ok(Some(w)) => seq![TraceEvent::ReadOff(inbound[0]), TraceEvent::Wrote(w)]
                + spec_loop_trace(inbound.drop_first()),
        }
    }
}

/// The whole session's I/O trace: an Initiator's handshake write happens
/// before the loop observes anything; a Responder starts with its first
/// read.
pub open spec fn spec_session_trace(role: Role, addr: NodeAddr, inbound: Seq<ReadEventView>) -> Seq<
    TraceEvent,
> {
    if role is Initiator {
        seq![TraceEvent::Wrote(spec_encode(MessageView::Handshake(addr)))] + spec_loop_trace(
            inbound,
        )
    } else {
        spec_loop_trace(inbound)
    }
}

/// No write in the trace is a handshake frame.
pub open spec fn trace_writes_no_handshake(tr: Seq<TraceEvent>) -> bool {
    forall|i: int|
        0 <= i < tr.len() ==> (#[trigger] tr[i] matches TraceEvent::Wrote(w)
            ==> !is_handshake_frame(w))
}

/// Every write the read loop's trace holds is a dispatcher response, never a
/// handshake frame.
pub proof fn lemma_loop_trace_never_writes_handshake(inbound: Seq<ReadEventView>)
    ensures
        trace_writes_no_handshake(spec_loop_trace(inbound)),
    decreases inbound.len(),
{
    if inbound.len() == 0 {
    } else {
        lemma_loop_trace_never_writes_handshake(inbound.drop_first());
        let rest = spec_loop_trace(inbound.drop_first());
        match inbound[0] {
            ReadEventView::Closed => {
            },
            ReadEventView::Failed => {
            },
            ReadEventView::Data(b) => {
                match spec_step(b) {
                    Err(_) => {
                    },
                    Ok(None) => {
                        let tr = seq![TraceEvent::ReadOff(inbound[0])] + rest;
                        assert forall|i: int| 0 <= i < tr.len() implies (#[trigger] tr[i] matches
                        TraceEvent::Wrote(w) ==> !is_handshake_frame(w)) by {
                            if i > 0 {
                                assert(tr[i] == rest[i - 1]);
                            }
                        }
                    },
                    Ok(Some(w)) => {
                        match spec_decode(b) {
                            None => {
                                assert(false);
                            },
                            Some(m) => {
                                match spec_dispatch(m) {
                                    Ok(Some(r)) => {
                                        crate::protocol::lemma_dispatch_never_handshake(m);
                                        crate::protocol::lemma_encode_decode(r);
                                        assert(!is_handshake_frame(w));
                                    },
                                    _ => {
                                        assert(false);
                                    },
                                }
                            },
                        }
                        let tr = seq![
                            TraceEvent::ReadOff(inbound[0]),
                            TraceEvent::Wrote(w),
                        ] + rest;
                        assert forall|i: int| 0 <= i < tr.len() implies (#[trigger] tr[i] matches
                        TraceEvent::Wrote(v) ==> !is_handshake_frame(v)) by {
                            if i >= 2 {
                                assert(tr[i] == rest[i - 2]);
                            }
                        }
                    },
                }
            },
        }
    }
}

/// Law, in trace order: an Initiator session's very first observable action
/// is the handshake write — it happens before any read occurs — and no later
/// step of the trace writes a handshake frame, so exactly one is ever
/// written, whatever the peer sends afterwards.
pub proof fn lemma_initiator_trace_handshake_before_reads(
    addr: NodeAddr,
    inbound: Seq<ReadEventView>,
)
    ensures
        spec_session_trace(Role::Initiator, addr, inbound).len() >= 1,
        spec_session_trace(Role::Initiator, addr, inbound)[0] == TraceEvent::Wrote(
            spec_encode(MessageView::Handshake(addr)),
        ),
        trace_writes_no_handshake(spec_session_trace(Role::Initiator, addr, inbound).drop_first()),
{
    lemma_loop_trace_never_writes_handshake(inbound);
    let tr = spec_session_trace(Role::Initiator, addr, inbound);
    let lt = spec_loop_trace(inbound);
    assert(tr.drop_first() =~= lt);
}

/// Law, in trace order: a Responder session's first observable action, if it
/// acts at all, is a read — it never writes anything, a handshake least of
/// all, before the first read — and no step of its trace ever writes a
/// handshake frame.
pub proof fn lemma_responder_trace_reads_first(addr: NodeAddr, inbound: Seq<ReadEventView>)
    ensures
        spec_session_trace(Role::Responder, addr, inbound).len() > 0
            ==> spec_session_trace(Role::Responder, addr, inbound)[0] is ReadOff,
        trace_writes_no_handshake(spec_session_trace(Role::Responder, addr, inbound)),
{
    lemma_loop_trace_never_writes_handshake(inbound);
    if inbound.len() > 0 {
        match spec_event_step(inbound[0]) {
            Err(_) => {
            },
            Ok(None) => {
            },
            Ok(Some(_)) => {
            },
        }
    }
}

/// The frames a trace writes, in order.
pub open spec fn trace_writes(tr: Seq<TraceEvent>) -> Seq<Seq<u8>>
    decreases tr.len(),
{
    if tr.len() == 0 {
        Seq::<Seq<u8>>::empty()
    } else {
        match tr[0] {
            TraceEvent::Wrote(w) => seq![w] + trace_writes(tr.drop_first()),
            TraceEvent::ReadOff(_) => trace_writes(tr.drop_first()),
        }
    }
}

/// The two models agree: the frames the read loop's trace writes, in trace
/// order, are exactly the loop's write sequence.
pub proof fn lemma_trace_and_writes_agree(inbound: Seq<ReadEventView>)
    ensures
        trace_writes(spec_loop_trace(inbound)) == spec_read_loop(inbound).0,
    decreases inbound.len(),
{
    if inbound.len() == 0 {
    } else {
        lemma_trace_and_writes_agree(inbound.drop_first());
        let rest = spec_loop_trace(inbound.drop_first());
        match spec_event_step(inbound[0]) {
            Err(_) => {
                let tr = seq![TraceEvent::ReadOff(inbound[0])];
                assert(tr[0] == TraceEvent::ReadOff(inbound[0]));
                assert(tr.drop_first() =~= Seq::<TraceEvent>::empty());
                assert(trace_writes(tr) == trace_writes(Seq::<TraceEvent>::empty()));
            },
            Ok(None) => {
                let tr = seq![TraceEvent::ReadOff(inbound[0])] + rest;
                assert(tr[0] == TraceEvent::ReadOff(inbound[0]));
                assert(tr.drop_first() =~= rest);
                assert(trace_writes(tr) == trace_writes(rest));
            },
            Ok(Some(w)) => {
                let tr = seq![TraceEvent::ReadOff(inbound[0]), TraceEvent::Wrote(w)] + rest;
                let mid = seq![TraceEvent::Wrote(w)] + rest;
                assert(tr[0] == TraceEvent::ReadOff(inbound[0]));
                assert(tr.drop_first() =~= mid);
                assert(trace_writes(tr) == trace_writes(mid));
                assert(mid[0] == TraceEvent::Wrote(w));
                assert(mid.drop_first() =~= rest);
                assert(trace_writes(mid) == seq![w] + trace_writes(rest));
            },
        }
    }
}

/// The agreement carried to the whole session: for either role, what the
/// session's trace writes is exactly its write sequence.
pub proof fn lemma_session_trace_and_writes_agree(
    role: Role,
    addr: NodeAddr,
    inbound: Seq<ReadEventView>,
)
    ensures
        trace_writes(spec_session_trace(role, addr, inbound)) == spec_session_writes(
            role,
            addr,
            inbound,
        ),
{
    lemma_trace_and_writes_agree(inbound);
    if role is Initiator {
        let hs = spec_encode(MessageView::Handshake(addr));
        let tr = seq![TraceEvent::Wrote(hs)] + spec_loop_trace(inbound);
        assert(tr.drop_first() =~= spec_loop_trace(inbound));
    }
}

/// Relates an executable loop-iteration result to its model.
pub open spec fn step_view(r: Result<Option<Vec<u8>>, SessionError>) -> Result<
    Option<Seq<u8>>,
    SessionError,
> {
    match r {
        Ok(None) => Ok(None),
        Ok(Some(v)) => Ok(Some(v@)),
        Err(e) => Err(e),
    }
}

/// The decision half of one connection's session. The stream pair itself
/// lives with the caller; the session tracks role and lifecycle and turns
/// each read result into the write, if any, the protocol demands.
pub struct Session {
    pub role: Role,
    pub state: SessionState,
}

impl Session {
    /// A fresh session for one connection's stream pair.
    pub fn new(role: Role) -> (s: Session)
        ensures
            s.role == role,
            s.state == SessionState::Created,
    {
        Session { role, state: SessionState::Created }
    }

    /// The handshake-start frame an Initiator must write before reading
    /// anything. Valid only once, on a fresh session.
    pub fn handshake_frame(&mut self, addr: &NodeAddr) -> (w: Vec<u8>)
        requires
            old(self).role == Role::Initiator,
            old(self).state == SessionState::Created,
        ensures
            final(self).role == old(self).role,
            final(self).state == SessionState::Handshaking,
            w@ == spec_encode(MessageView::Handshake(*addr)),
    {
        self.state = SessionState::Handshaking;
        let m = Message::handshake_start(addr);
        let encoded = m.as_bytes();
        encoded.unwrap()
    }

    /// The handshake write succeeded; the write is fire-and-forget, so the
    /// session enters the read loop at once.
    pub fn handshake_written(&mut self)
        requires
            old(self).state == SessionState::Handshaking,
        ensures
            final(self).role == old(self).role,
            final(self).state == SessionState::Dispatching,
    {
        self.state = SessionState::Dispatching;
    }

    /// A Responder sends nothing first: it enters the read loop directly.
    pub fn begin_reading(&mut self)
        requires
            old(self).role == Role::Responder,
            old(self).state == SessionState::Created,
        ensures
            final(self).role == old(self).role,
            final(self).state == SessionState::Dispatching,
    {
        self.state = SessionState::Dispatching;
    }

    /// Handles one inbound buffer: decode, dispatch, encode the response.
    /// Any failure closes the session; `Ok(None)` reads on without writing.
    pub fn message_received(&mut self, bytes: &Vec<u8>) -> (r: Result<
        Option<Vec<u8>>,
        SessionError,
    >)
        requires
            old(self).state == SessionState::Dispatching,
        ensures
            final(self).role == old(self).role,
            step_view(r) == spec_step(bytes@),
            r is Ok ==> final(self).state == SessionState::Dispatching,
            r is Err ==> final(self).state == SessionState::Closed,
    {
        match Message::from_bytes(bytes.as_slice()) {
            Err(_) => {
                self.state = SessionState::Closed;
                Err(SessionError::DecodeError)
            },
            Ok(m) => match m.response_for_received() {
                Err(_) => {
                    self.state = SessionState::Closed;
                    Err(SessionError::DispatchError)
                },
                Ok(None) => Ok(None),
                Ok(Some(response)) => match response.as_bytes() {
                    None => {
                        self.state = SessionState::Closed;
                        Err(SessionError::SerializeError)
                    },
                    Some(w) => Ok(Some(w)),
                },
            },
        }
    }

    /// One whole iteration of the read loop, given what the read yielded.
    pub fn on_read(&mut self, ev: &ReadEvent) -> (r: Result<Option<Vec<u8>>, SessionError>)
        requires
            old(self).state == SessionState::Dispatching,
        ensures
            final(self).role == old(self).role,
            step_view(r) == spec_event_step(ev@),
            r is Ok ==> final(self).state == SessionState::Dispatching,
            r is Err ==> final(self).state == SessionState::Closed,
    {
        match ev {
            ReadEvent::Closed => {
                self.state = SessionState::Closed;
                Err(SessionError::PeerClosed)
            },
            ReadEvent::Failed => {
                self.state = SessionState::Closed;
                Err(SessionError::ReadError)
            },
            ReadEvent::Data(bytes) => self.message_received(&bytes),
        }
    }

    /// Runs the read loop over a script of read results: one `on_read` per
    /// event until the loop exits or the script runs out. Returns the frames
    /// written, in order, and the exit, `None` if the script ran out with
    /// the session still reading.
    pub fn start_read_loop(&mut self, inbound: &Vec<ReadEvent>) -> (r: (
        Vec<Vec<u8>>,
        Option<SessionError>,
    ))
        requires
            old(self).state == SessionState::Dispatching,
        ensures
            final(self).role == old(self).role,
            r.0@.map_values(|w: Vec<u8>| w@) == spec_read_loop(
                inbound@.map_values(|e: ReadEvent| e@),
            ).0,
            r.1 == spec_read_loop(inbound@.map_values(|e: ReadEvent| e@)).1,
            r.1 is Some ==> final(self).state == SessionState::Closed,
            r.1 is None ==> final(self).state == SessionState::Dispatching,
    {
        let ghost orig = inbound@.map_values(|e: ReadEvent| e@);
        let mut writes: Vec<Vec<u8>> = Vec::new();
        let mut outcome: Option<SessionError> = None;
        let mut i: usize = 0;
        proof {
            assert(orig.skip(0) =~= orig);
            assert(writes@.map_values(|w: Vec<u8>| w@) =~= Seq::<Seq<u8>>::empty());
            assert(Seq::<Seq<u8>>::empty() + spec_read_loop(orig).0 =~= spec_read_loop(orig).0);
        }
        while i < inbound.len() && outcome.is_none()
            invariant
                i <= inbound@.len(),
                orig == inbound@.map_values(|e: ReadEvent| e@),
                self.role == old(self).role,
                outcome is None ==> self.state == SessionState::Dispatching,
                outcome is None ==> writes@.map_values(|w: Vec<u8>| w@) + spec_read_loop(
                    orig.skip(i as int),
                ).0 == spec_read_loop(orig).0,
                outcome is None ==> spec_read_loop(orig.skip(i as int)).1 == spec_read_loop(
                    orig,
                ).1,
                outcome matches Some(e) ==> self.state == SessionState::Closed && writes@.map_values(
                    |w: Vec<u8>| w@,
                ) == spec_read_loop(orig).0 && spec_read_loop(orig).1 == Some(e),
            decreases inbound@.len() - i,
        {
            let ev = &inbound[i];
            let ghost pre = orig.skip(i as int);
            proof {
                assert(pre[0] == ev@);
                assert(pre.drop_first() =~= orig.skip(i + 1));
            }
            let ghost writes_pre = writes@.map_values(|w: Vec<u8>| w@);
            match self.on_read(ev) {
                Err(e) => {
                    outcome = Some(e);
                },
                Ok(None) => {
                },
                Ok(Some(w)) => {
                    let ghost wv = w@;
                    writes.push(w);
                    proof {
                        assert(writes@.map_values(|w: Vec<u8>| w@) =~= writes_pre + seq![wv]);
                        assert(writes_pre + seq![wv] + spec_read_loop(orig.skip(i + 1)).0
                            =~= writes_pre + (seq![wv] + spec_read_loop(orig.skip(i + 1)).0));
                    }
                },
            }
            i = i + 1;
        }
        proof {
            if outcome is None {
                assert(orig.skip(i as int) =~= Seq::<ReadEventView>::empty());
                assert(writes@.map_values(|w: Vec<u8>| w@) + Seq::<Seq<u8>>::empty()
                    =~= writes@.map_values(|w: Vec<u8>| w@));
            }
        }
        (writes, outcome)
    }

    /// Valid only for a fresh Initiator-role session: writes exactly one
    /// handshake-start frame for the target address, then runs the read
    /// loop. The handshake frame is the first element of the returned
    /// writes, ahead of anything the loop produced.
    pub fn start_from_connect(&mut self, addr: &NodeAddr, inbound: &Vec<ReadEvent>) -> (r: (
        Vec<Vec<u8>>,
        Option<SessionError>,
    ))
        requires
            old(self).role == Role::Initiator,
            old(self).state == SessionState::Created,
        ensures
            final(self).role == old(self).role,
            r.0@.map_values(|w: Vec<u8>| w@) == spec_session_writes(
                Role::Initiator,
                *addr,
                inbound@.map_values(|e: ReadEvent| e@),
            ),
            r.1 == spec_read_loop(inbound@.map_values(|e: ReadEvent| e@)).1,
            r.1 is Some ==> final(self).state == SessionState::Closed,
            r.1 is None ==> final(self).state == SessionState::Dispatching,
    {
        let hs = self.handshake_frame(addr);
        let ghost hsv = hs@;
        self.handshake_written();
        let mut writes: Vec<Vec<u8>> = Vec::new();
        writes.push(hs);
        let (mut loop_writes, outcome) = self.start_read_loop(inbound);
        let ghost lwv = loop_writes@.map_values(|w: Vec<u8>| w@);
        writes.append(&mut loop_writes);
        proof {
            assert(writes@.map_values(|w: Vec<u8>| w@) =~= seq![hsv] + lwv);
        }
        (writes, outcome)
    }

    /// Valid for a fresh Responder-role session: sends nothing first and
    /// goes straight to the read loop.
    pub fn start_from_accept(&mut self, inbound: &Vec<ReadEvent>) -> (r: (
        Vec<Vec<u8>>,
        Option<SessionError>,
    ))
        requires
            old(self).role == Role::Responder,
            old(self).state == SessionState::Created,
        ensures
            final(self).role == old(self).role,
            r.0@.map_values(|w: Vec<u8>| w@) == spec_read_loop(
                inbound@.map_values(|e: ReadEvent| e@),
            ).0,
            r.1 == spec_read_loop(inbound@.map_values(|e: ReadEvent| e@)).1,
            r.1 is Some ==> final(self).state == SessionState::Closed,
            r.1 is None ==> final(self).state == SessionState::Dispatching,
    {
        self.begin_reading();
        self.start_read_loop(inbound)
    }

    /// The write of a frame failed: fatal to this session.
    pub fn write_failed(&mut self) -> (e: SessionError)
        requires
            old(self).state == SessionState::Dispatching || old(self).state
                == SessionState::Handshaking,
        ensures
            final(self).role == old(self).role,
            final(self).state == SessionState::Closed,
            e == SessionError::WriteError,
    {
        self.state = SessionState::Closed;
        SessionError::WriteError
    }
}

} // verus!

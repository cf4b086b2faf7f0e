//! One connection: its phase, the frames it sends, and what it does with
//! what its stream gives.
//!
//! The stream itself is held by whoever drives the connection. The driver
//! reads what the connection asks for, hands it over as an event, writes the
//! bytes that the connection has collected, and does what the connection
//! says next: read the length of a frame, read a frame, or close.

use crate::error::Error;
use crate::packets::status::{PingRequest, PingResponse, StatusRequest, StatusResponse, STATUS};
use crate::packets::{
    handle, handle_outcome, is_standard, Failure, HandleError, IdentifiedPacket, PacketRegistry,
};
use crate::record::{lemma_whole_round_trip, to_vec, Wire};
use crate::ser::{unsupported, OVERLONG_STRING};
use crate::varint::{
    continued, lemma_varint_len, lemma_varint_round_trip, read_varint, varint_bytes,
    varint_decoding, write_varint, write_varint_in_place,
};
use vstd::prelude::*;
use vstd::slice::slice_subrange;

verus! {

/// The name under which a frame too long for its length prefix is refused.
pub const OVERLONG_FRAME: &'static str = "frame longer than 2147483647 bytes";

/// The phase of a connection. Exactly one is active at any time.
#[derive(Clone, Copy, PartialEq, Eq, Structural, Debug)]
pub enum ConnectionState {
    Handshaking,
    Status,
    Login,
    Play,
}

/// What a connection waits for from its stream.
#[derive(Clone, Copy, PartialEq, Eq, Structural, Debug)]
pub enum Awaiting {
    /// The length prefix of the next frame.
    Length,
    /// The bytes of a frame, as many as its length prefix said.
    Frame(usize),
    /// Nothing: the connection is closed.
    Nothing,
}

/// The state of one connection.
pub struct Connection {
    /// The active phase.
    pub state: ConnectionState,
    /// What the connection waits for.
    pub awaiting: Awaiting,
    /// The longest frame, in bytes, that is accepted from the peer.
    pub max_frame: usize,
    /// The bytes to write to the stream, in order.
    pub outgoing: Vec<u8>,
}

/// A connection, with the bytes to write as a sequence.
pub ghost struct ConnectionView {
    pub state: ConnectionState,
    pub awaiting: Awaiting,
    pub max_frame: usize,
    pub outgoing: Seq<u8>,
}

impl View for Connection {
    type V = ConnectionView;

    open spec fn view(&self) -> ConnectionView {
        ConnectionView {
            state: self.state,
            awaiting: self.awaiting,
            max_frame: self.max_frame,
            outgoing: self.outgoing@,
        }
    }
}

/// What the stream gave to the one who drives the connection.
#[derive(Debug)]
pub enum Event {
    /// The length prefix of a frame.
    Length(i32),
    /// A length prefix whose fifth byte asked for more.
    LengthOverflow,
    /// The stream ended.
    EndOfStream,
    /// The stream failed.
    StreamFailed,
    /// The bytes of a frame after its length prefix.
    Frame(Vec<u8>),
}

/// Why a connection is closed.
#[derive(Debug)]
pub enum CloseReason {
    /// The peer closed the stream between two frames.
    Disconnected,
    /// The stream failed, or ended inside a frame.
    StreamFailed,
    /// A length prefix was longer than a VarInt.
    LengthOverflow,
    /// A frame was announced with a negative length, or with more bytes than
    /// the connection accepts.
    BadLength(i32),
    /// The identifier of a packet could not be read.
    BadIdentifier(Error),
    /// A packet could not be read by its handler, or was rejected by it.
    Handler(HandleError),
    /// The driver handed over what the connection did not wait for: a frame
    /// in place of a length or a length in place of a frame, a frame of
    /// another length than was announced, or anything after the connection
    /// was closed.
    OutOfStep,
}

/// What the one who drives the connection is to do next, after writing the
/// bytes in `outgoing`.
#[derive(Debug)]
pub enum Action {
    /// Read the length prefix of the next frame.
    ReadLength,
    /// Read that many bytes: the frame that the prefix announced.
    ReadFrame(usize),
    /// Close the stream and stop.
    Close(CloseReason),
}

/// A `CloseReason`, with the text of a rejection as characters.
pub ghost enum Closing {
    Disconnected,
    StreamFailed,
    LengthOverflow,
    BadLength(i32),
    BadIdentifier(Error),
    Handler(Failure),
    OutOfStep,
}

/// An `Action`, with the text of a rejection as characters.
pub ghost enum Next {
    ReadLength,
    ReadFrame(usize),
    Close(Closing),
}

impl View for CloseReason {
    type V = Closing;

    open spec fn view(&self) -> Closing {
        match self {
            CloseReason::Disconnected => Closing::Disconnected,
            CloseReason::StreamFailed => Closing::StreamFailed,
            CloseReason::LengthOverflow => Closing::LengthOverflow,
            CloseReason::BadLength(len) => Closing::BadLength(*len),
            CloseReason::BadIdentifier(e) => Closing::BadIdentifier(*e),
            CloseReason::Handler(e) => Closing::Handler(e@),
            CloseReason::OutOfStep => Closing::OutOfStep,
        }
    }
}

impl View for Action {
    type V = Next;

    open spec fn view(&self) -> Next {
        match self {
            Action::ReadLength => Next::ReadLength,
            Action::ReadFrame(len) => Next::ReadFrame(*len),
            Action::Close(reason) => Next::Close(reason@),
        }
    }
}

impl Next {
    /// What a connection waits for once this is what is done next.
    pub open spec fn awaited(self) -> Awaiting {
        match self {
            Next::ReadLength => Awaiting::Length,
            Next::ReadFrame(len) => Awaiting::Frame(len),
            Next::Close(_) => Awaiting::Nothing,
        }
    }
}

/// What a frame does to a connection, and what is to be done next. The
/// frame begins with the identifier of its packet as a VarInt: where that
/// cannot be read, the connection is closed. The rest is the payload, for
/// the handler registered in the active phase. A packet that is handled, or
/// for which no handler is registered, lets the connection go on to the next
/// frame; one that cannot be read or is rejected closes it.
pub open spec fn frame_outcome(registry: &PacketRegistry, before: ConnectionView, frame: Seq<u8>)
    -> (ConnectionView, Next) {
    let (after, next) = match varint_decoding(frame) {
        Err(e) => (before, Next::Close(Closing::BadIdentifier(e))),
        Ok((id, taken)) => {
            let outcome = handle_outcome(registry, before, id, frame.skip(taken as int));
            match outcome.result {
                Ok(()) => (outcome.after, Next::ReadLength),
                Err(Failure::Unimplemented(_)) => (outcome.after, Next::ReadLength),
                Err(failure) => (outcome.after, Next::Close(Closing::Handler(failure))),
            }
        },
    };
    (ConnectionView { awaiting: next.awaited(), ..after }, next)
}

/// What the length prefix `len` does to a connection that waits for one: a
/// length from zero to `max_frame` asks for a frame of that many bytes, any
/// other closes the connection.
pub open spec fn length_outcome(before: ConnectionView, len: i32) -> (ConnectionView, Next) {
    let next = if 0 <= len <= before.max_frame {
        Next::ReadFrame(len as usize)
    } else {
        Next::Close(Closing::BadLength(len))
    };
    (ConnectionView { awaiting: next.awaited(), ..before }, next)
}

/// The connection closed for `reason`, and nothing else changed.
pub open spec fn closed(before: ConnectionView, reason: Closing) -> (ConnectionView, Next) {
    (ConnectionView { awaiting: Awaiting::Nothing, ..before }, Next::Close(reason))
}

/// What an event does to a connection, and what is to be done next.
///
/// A connection that waits for a length takes one, and is closed by a
/// length prefix that is too long, by the end of the stream (the peer has
/// disconnected) and by its failure. A connection that waits for a frame
/// takes a frame of the length announced, and is closed by the end or the
/// failure of the stream. Whatever else is handed over closes the
/// connection as out of step, and a closed connection stays closed.
pub open spec fn step_outcome(registry: &PacketRegistry, before: ConnectionView, event: Event) -> (
    ConnectionView,
    Next,
) {
    match before.awaiting {
        Awaiting::Nothing => closed(before, Closing::OutOfStep),
        Awaiting::Length => match event {
            Event::Length(len) => length_outcome(before, len),
            Event::LengthOverflow => closed(before, Closing::LengthOverflow),
            Event::EndOfStream => closed(before, Closing::Disconnected),
            Event::StreamFailed => closed(before, Closing::StreamFailed),
            Event::Frame(_) => closed(before, Closing::OutOfStep),
        },
        Awaiting::Frame(len) => match event {
            Event::Frame(frame) => if frame@.len() == len {
                frame_outcome(registry, before, frame@)
            } else {
                closed(before, Closing::OutOfStep)
            },
            Event::EndOfStream => closed(before, Closing::StreamFailed),
            Event::StreamFailed => closed(before, Closing::StreamFailed),
            _ => closed(before, Closing::OutOfStep),
        },
    }
}

/// Whether the identifier and the payload together are few enough bytes for
/// a VarInt to count.
pub open spec fn frame_fits(id: i32, payload: Seq<u8>) -> bool {
    varint_bytes(id).len() + payload.len() <= i32::MAX
}

/// The frame of a packet: the length of identifier and payload as a VarInt,
/// the identifier as a VarInt, the payload.
pub open spec fn frame_bytes(id: i32, payload: Seq<u8>) -> Seq<u8> {
    varint_bytes((varint_bytes(id).len() + payload.len()) as i32) + varint_bytes(id) + payload
}

impl Connection {
    /// A connection in the handshaking phase that waits for the length of
    /// its first frame and has nothing to write.
    pub fn new(max_frame: usize) -> (r: Self)
        ensures
            r@ == (ConnectionView {
                state: ConnectionState::Handshaking,
                awaiting: Awaiting::Length,
                max_frame,
                outgoing: Seq::empty(),
            }),
    {
        Connection {
            state: ConnectionState::Handshaking,
            awaiting: Awaiting::Length,
            max_frame,
            outgoing: Vec::new(),
        }
    }

    /// Makes `new_state` the active phase, whatever the phase was.
    pub fn switch_state(&mut self, new_state: ConnectionState)
        ensures
            final(self)@ == (ConnectionView { state: new_state, ..old(self)@ }),
    {
        self.state = new_state;
    }

    /// Hands over the bytes to write, and leaves none.
    pub fn take_outgoing(&mut self) -> (r: Vec<u8>)
        ensures
            r@ == old(self)@.outgoing,
            final(self)@ == (ConnectionView { outgoing: Seq::empty(), ..old(self)@ }),
    {
        let mut taken: Vec<u8> = Vec::new();
        std::mem::swap(&mut self.outgoing, &mut taken);
        taken
    }

    /// Puts the frame of `packet` after the bytes to write. A packet that
    /// the format cannot express, or whose frame is too long for its length
    /// prefix, is refused and nothing is added.
    pub fn send_packet<T: Wire + IdentifiedPacket>(&mut self, packet: T) -> (r: Result<(), Error>)
        ensures
            T::fits(packet@) && frame_fits(T::ID, T::bytes(packet@)) ==> r is Ok && final(self)@
                == (ConnectionView {
                outgoing: old(self)@.outgoing + frame_bytes(T::ID, T::bytes(packet@)),
                ..old(self)@
            }),
            !T::fits(packet@) ==> unsupported(r, OVERLONG_STRING@) && final(self)@ == old(self)@,
            T::fits(packet@) && !frame_fits(T::ID, T::bytes(packet@)) ==> unsupported(
                r,
                OVERLONG_FRAME@,
            ) && final(self)@ == old(self)@,
    {
        let id: Vec<u8> = write_varint(T::ID);
        let pak: Vec<u8> = match to_vec(&packet) {
            Ok(pak) => pak,
            Err(e) => {
                return Err(e);
            },
        };
        proof {
            lemma_varint_len(T::ID);
        }
        if pak.len() > 0x7fff_ffff - id.len() {
            return Err(Error::NotSupported(OVERLONG_FRAME.to_owned()));
        }
        write_varint_in_place(&mut self.outgoing, (id.len() + pak.len()) as i32);
        self.outgoing.extend_from_slice(id.as_slice());
        self.outgoing.extend_from_slice(pak.as_slice());
        assert(self.outgoing@ =~= old(self)@.outgoing + frame_bytes(T::ID, T::bytes(packet@)));
        Ok(())
    }

    /// Takes the bytes of a frame after its length prefix: reads the
    /// identifier, hands the payload to the handler registered for it in the
    /// active phase, and says what to do next.
    pub fn receive(&mut self, registry: &PacketRegistry, frame: &[u8]) -> (action: Action)
        ensures
            (final(self)@, action@) == frame_outcome(registry, old(self)@, frame@),
    {
        let action: Action = match read_varint(frame) {
            Err(e) => Action::Close(CloseReason::BadIdentifier(e)),
            Ok((id, id_len)) => {
                let data: &[u8] = slice_subrange(frame, id_len, frame.len());
                match handle(registry, self, id, data) {
                    Ok(()) => Action::ReadLength,
                    Err(HandleError::Unimplemented(_)) => Action::ReadLength,
                    Err(e) => Action::Close(CloseReason::Handler(e)),
                }
            },
        };
        self.settle(action)
    }

    /// Takes what the stream gave, and says what to do next.
    pub fn step(&mut self, registry: &PacketRegistry, event: Event) -> (action: Action)
        ensures
            (final(self)@, action@) == step_outcome(registry, old(self)@, event),
    {
        match self.awaiting {
            Awaiting::Nothing => self.settle(Action::Close(CloseReason::OutOfStep)),
            Awaiting::Length => match event {
                Event::Length(len) => {
                    if len >= 0 && len as usize <= self.max_frame {
                        self.settle(Action::ReadFrame(len as usize))
                    } else {
                        self.settle(Action::Close(CloseReason::BadLength(len)))
                    }
                },
                Event::LengthOverflow => self.settle(Action::Close(CloseReason::LengthOverflow)),
                Event::EndOfStream => self.settle(Action::Close(CloseReason::Disconnected)),
                Event::StreamFailed => self.settle(Action::Close(CloseReason::StreamFailed)),
                Event::Frame(_) => self.settle(Action::Close(CloseReason::OutOfStep)),
            },
            Awaiting::Frame(len) => match event {
                Event::Frame(frame) => {
                    if frame.len() == len {
                        self.receive(registry, frame.as_slice())
                    } else {
                        self.settle(Action::Close(CloseReason::OutOfStep))
                    }
                },
                Event::EndOfStream => self.settle(Action::Close(CloseReason::StreamFailed)),
                Event::StreamFailed => self.settle(Action::Close(CloseReason::StreamFailed)),
                _ => self.settle(Action::Close(CloseReason::OutOfStep)),
            },
        }
    }

    /// Notes what the connection waits for once `action` is done.
    fn settle(&mut self, action: Action) -> (r: Action)
        ensures
            r == action,
            final(self)@ == (ConnectionView { awaiting: action@.awaited(), ..old(self)@ }),
    {
        self.awaiting = match &action {
            Action::ReadLength => Awaiting::Length,
            Action::ReadFrame(len) => Awaiting::Frame(*len),
            Action::Close(_) => Awaiting::Nothing,
        };
        action
    }
}

/// A frame is taken apart as it was put together: its length prefix counts
/// the bytes after it, and these begin with the identifier and end with the
/// payload.
pub proof fn lemma_frame_parts(id: i32, payload: Seq<u8>)
    requires
        frame_fits(id, payload),
    ensures
        varint_decoding(frame_bytes(id, payload)) matches Ok((len, taken)) && len == varint_bytes(
            id,
        ).len() + payload.len() && frame_bytes(id, payload).skip(taken as int) == varint_bytes(id)
            + payload,
        varint_decoding(varint_bytes(id) + payload) matches Ok((found, taken)) && found == id && (
        varint_bytes(id) + payload).skip(taken as int) == payload,
{
    let body: Seq<u8> = varint_bytes(id) + payload;
    let len: i32 = body.len() as i32;
    lemma_varint_len(len);
    lemma_varint_round_trip(len, body);
    lemma_identified(id, payload);
    assert(frame_bytes(id, payload) =~= varint_bytes(len) + body);
    assert((varint_bytes(len) + body).skip(varint_bytes(len).len() as int) =~= body);
}

proof fn lemma_identified(id: i32, payload: Seq<u8>)
    ensures
        varint_decoding(varint_bytes(id) + payload) matches Ok((found, taken)) && found == id && (
        varint_bytes(id) + payload).skip(taken as int) == payload,
{
    lemma_varint_len(id);
    lemma_varint_round_trip(id, payload);
    assert((varint_bytes(id) + payload).skip(varint_bytes(id).len() as int) =~= payload);
}

/// A packet whose identifier has no handler in the active phase changes
/// nothing: the connection goes on to the next frame, and nothing is added
/// to the bytes to write. Handlers registered in other phases do not count.
pub proof fn lemma_unknown_identifier(
    registry: &PacketRegistry,
    before: ConnectionView,
    id: i32,
    payload: Seq<u8>,
)
    requires
        !registry.table(before.state).contains_key(id),
    ensures
        frame_outcome(registry, before, varint_bytes(id) + payload) == (
            ConnectionView { awaiting: Awaiting::Length, ..before },
            Next::ReadLength,
        ),
{
    lemma_identified(id, payload);
}

/// In the status phase of the protocol, a status request is answered with
/// exactly one status response that holds the description of the server, and
/// the connection goes on.
pub proof fn lemma_status_request_answered(registry: &PacketRegistry, before: ConnectionView)
    requires
        is_standard(registry),
        before.state == ConnectionState::Status,
    ensures
        frame_outcome(registry, before, varint_bytes(0x00) + StatusRequest::bytes(())) == (
            ConnectionView {
                awaiting: Awaiting::Length,
                outgoing: before.outgoing + frame_bytes(
                    StatusResponse::ID,
                    StatusResponse::bytes(STATUS@),
                ),
                ..before
            },
            Next::ReadLength,
        ),
{
    lemma_identified(0x00, StatusRequest::bytes(()));
    lemma_whole_round_trip::<StatusRequest>(());
}

/// In the status phase of the protocol, a ping is answered with exactly one
/// ping response with the same payload, and the connection goes on.
pub proof fn lemma_ping_answered(registry: &PacketRegistry, before: ConnectionView, payload: i64)
    requires
        is_standard(registry),
        before.state == ConnectionState::Status,
    ensures
        frame_outcome(registry, before, varint_bytes(0x01) + PingRequest::bytes(payload)) == (
            ConnectionView {
                awaiting: Awaiting::Length,
                outgoing: before.outgoing + frame_bytes(
                    PingResponse::ID,
                    PingResponse::bytes(payload),
                ),
                ..before
            },
            Next::ReadLength,
        ),
{
    lemma_identified(0x01, PingRequest::bytes(payload));
    lemma_whole_round_trip::<PingRequest>(payload);
}

/// Packets are looked up in the table of the active phase only. In the
/// handshaking phase of the protocol a ping is unimplemented, though it has
/// a handler in the status phase; and a status request, whose identifier is
/// the handshake's there, is read as a handshake, which it is not: the
/// connection is closed. Neither is answered.
pub proof fn lemma_phase_gating(registry: &PacketRegistry, before: ConnectionView, payload: i64)
    requires
        is_standard(registry),
        before.state == ConnectionState::Handshaking,
    ensures
        frame_outcome(registry, before, varint_bytes(0x01) + PingRequest::bytes(payload)) == (
            ConnectionView { awaiting: Awaiting::Length, ..before },
            Next::ReadLength,
        ),
        frame_outcome(registry, before, varint_bytes(0x00) + StatusRequest::bytes(())) == (
            ConnectionView { awaiting: Awaiting::Nothing, ..before },
            Next::Close(Closing::Handler(Failure::Undecodable(Error::Eof))),
        ),
{
    lemma_identified(0x01, PingRequest::bytes(payload));
    lemma_identified(0x00, StatusRequest::bytes(()));
    assert(continued(Seq::<u8>::empty()) == 0);
}

/// A closed connection stays closed: whatever is handed over, it asks to be
/// closed again and nothing changes.
pub proof fn lemma_closed_is_final(registry: &PacketRegistry, before: ConnectionView, event: Event)
    requires
        before.awaiting == Awaiting::Nothing,
    ensures
        step_outcome(registry, before, event) == (before, Next::Close(Closing::OutOfStep)),
{
}

/// After every event the connection waits for what it asked for, and is
/// closed exactly where it asked to be closed. No event changes the longest
/// frame accepted or takes back bytes to write. The phase changes only
/// where a frame is handled and the connection goes on: never by the framing
/// itself, and never as the connection closes.
pub proof fn lemma_step_keeps(registry: &PacketRegistry, before: ConnectionView, event: Event)
    ensures
        step_outcome(registry, before, event).0.awaiting == step_outcome(
            registry,
            before,
            event,
        ).1.awaited(),
        step_outcome(registry, before, event).0.max_frame == before.max_frame,
        before.outgoing.is_prefix_of(step_outcome(registry, before, event).0.outgoing),
        step_outcome(registry, before, event).0.state != before.state ==> event is Frame
            && before.awaiting is Frame && step_outcome(registry, before, event).1
            == Next::ReadLength,
        !(event is Frame) ==> step_outcome(registry, before, event).0 == (ConnectionView {
            awaiting: step_outcome(registry, before, event).1.awaited(),
            ..before
        }),
{
    if let Event::Frame(frame) = event {
        if let Ok((id, taken)) = varint_decoding(frame@) {
            let data: Seq<u8> = frame@.skip(taken as int);
            let outcome = handle_outcome(registry, before, id, data);
            assert(before.outgoing.is_prefix_of(outcome.after.outgoing));
        }
    }
}

} // verus!

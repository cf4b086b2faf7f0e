//! The packets of the protocol and what is done on receiving them.

use crate::connection::{Connection, ConnectionState, ConnectionView};
use crate::error::Error;
use crate::packets::handshaking::{handle_handshake, handshake_outcome, Handshake};
use crate::packets::status::{
    handle_ping_request, handle_status_request, ping_request_outcome, status_request_outcome,
    PingRequest, StatusRequest,
};
use crate::record::{from_slice, whole_decoding};
use std::collections::HashMap;
use vstd::prelude::*;

pub mod handshaking;
pub mod status;

verus! {

/// Why a packet was not handled.
#[derive(Debug)]
pub enum HandleError {
    /// The payload could not be read as the packet it was taken for.
    SerdeMCJE(Error),
    /// No handler is registered for the identifier in the current phase.
    Unimplemented(i32),
    /// The packet was read, and what it says is not acceptable.
    BadPacket(String),
}

/// What a `HandleError` says, with the text of a rejection as characters.
pub ghost enum Failure {
    Undecodable(Error),
    Unimplemented(i32),
    Rejected(Seq<char>),
}

impl View for HandleError {
    type V = Failure;

    open spec fn view(&self) -> Failure {
        match self {
            HandleError::SerdeMCJE(e) => Failure::Undecodable(*e),
            HandleError::Unimplemented(id) => Failure::Unimplemented(*id),
            HandleError::BadPacket(text) => Failure::Rejected(text@),
        }
    }
}

/// What handling a packet comes to: how it ends, and the connection after
/// it.
pub ghost struct Outcome {
    pub result: Result<(), Failure>,
    pub after: ConnectionView,
}

/// Whether `r` ends as `expected` says.
pub open spec fn agrees(r: Result<(), HandleError>, expected: Result<(), Failure>) -> bool {
    match expected {
        Ok(()) => r is Ok,
        Err(failure) => r matches Err(e) && e@ == failure,
    }
}

/// A packet type with the identifier under which it travels. The identifier
/// tells packets apart within one phase of a connection only.
pub trait IdentifiedPacket {
    const ID: i32;
}

/// What can be done with the payload of a packet.
#[derive(Clone, Copy, PartialEq, Eq, Structural, Debug)]
pub enum Handler {
    /// Read it as a handshake and go to the phase it names.
    Handshake,
    /// Read it as a status request and answer with the server's description.
    StatusRequest,
    /// Read it as a ping and answer with its payload.
    PingRequest,
}

impl Handler {
    /// What the handler does with the payload `data`: a payload that is not
    /// the whole of the packet it is taken for is undecodable and leaves the
    /// connection as it was; else the packet is handled.
    pub open spec fn outcome(self, before: ConnectionView, data: Seq<u8>) -> Outcome {
        match self {
            Handler::Handshake => match whole_decoding::<Handshake>(data) {
                Ok(packet) => handshake_outcome(before, packet),
                Err(e) => Outcome { result: Err(Failure::Undecodable(e)), after: before },
            },
            Handler::StatusRequest => match whole_decoding::<StatusRequest>(data) {
                Ok(_) => status_request_outcome(before),
                Err(e) => Outcome { result: Err(Failure::Undecodable(e)), after: before },
            },
            Handler::PingRequest => match whole_decoding::<PingRequest>(data) {
                Ok(payload) => ping_request_outcome(before, payload),
                Err(e) => Outcome { result: Err(Failure::Undecodable(e)), after: before },
            },
        }
    }

    /// Reads the payload as the handler's packet and handles it.
    pub fn invoke(&self, conn: &mut Connection, data: &[u8]) -> (r: Result<(), HandleError>)
        ensures
            agrees(r, self.outcome(old(conn)@, data@).result),
            final(conn)@ == self.outcome(old(conn)@, data@).after,
    {
        match self {
            Handler::Handshake => match from_slice::<Handshake>(data) {
                Ok(packet) => handle_handshake(conn, packet),
                Err(e) => Err(HandleError::SerdeMCJE(e)),
            },
            Handler::StatusRequest => match from_slice::<StatusRequest>(data) {
                Ok(packet) => handle_status_request(conn, packet),
                Err(e) => Err(HandleError::SerdeMCJE(e)),
            },
            Handler::PingRequest => match from_slice::<PingRequest>(data) {
                Ok(packet) => handle_ping_request(conn, packet),
                Err(e) => Err(HandleError::SerdeMCJE(e)),
            },
        }
    }
}

/// For each phase, the handlers of the packets that can arrive in it, by
/// identifier. The phases are apart: an identifier registered in one is
/// unknown in the others.
pub struct PacketRegistry {
    handshaking: HashMap<i32, Handler>,
    status: HashMap<i32, Handler>,
    login: HashMap<i32, Handler>,
    play: HashMap<i32, Handler>,
}

impl PacketRegistry {
    /// The handlers registered for `phase`, by identifier.
    pub closed spec fn table(&self, phase: ConnectionState) -> Map<i32, Handler> {
        match phase {
            ConnectionState::Handshaking => self.handshaking@,
            ConnectionState::Status => self.status@,
            ConnectionState::Login => self.login@,
            ConnectionState::Play => self.play@,
        }
    }

    /// A registry without handlers.
    pub fn new() -> (r: Self)
        ensures
            forall|phase: ConnectionState| r.table(phase) == Map::<i32, Handler>::empty(),
    {
        PacketRegistry {
            handshaking: HashMap::new(),
            status: HashMap::new(),
            login: HashMap::new(),
            play: HashMap::new(),
        }
    }

    /// The registry of the protocol: the handshake under `0x00` in the
    /// handshaking phase, the status request under `0x00` and the ping under
    /// `0x01` in the status phase, nothing in the other phases.
    pub fn standard() -> (r: Self)
        ensures
            is_standard(&r),
    {
        let mut registry = PacketRegistry::new();
        register_handshaking_packet(&mut registry, 0x00, Handler::Handshake);
        register_status_packet(&mut registry, 0x00, Handler::StatusRequest);
        register_status_packet(&mut registry, 0x01, Handler::PingRequest);
        registry
    }

    /// The handler registered for `id` in `phase`, if there is one.
    pub fn lookup(&self, phase: ConnectionState, id: i32) -> (r: Option<Handler>)
        ensures
            r == if self.table(phase).contains_key(id) {
                Some(self.table(phase)[id])
            } else {
                None
            },
    {
        broadcast use vstd::std_specs::hash::group_hash_axioms;

        let table: &HashMap<i32, Handler> = match phase {
            ConnectionState::Handshaking => &self.handshaking,
            ConnectionState::Status => &self.status,
            ConnectionState::Login => &self.login,
            ConnectionState::Play => &self.play,
        };
        match table.get(&id) {
            Some(handler) => Some(*handler),
            None => None,
        }
    }
}

/// Whether the registry holds the handlers of the protocol and no others:
/// the handshake under `0x00` in the handshaking phase, the status request
/// under `0x00` and the ping under `0x01` in the status phase.
pub open spec fn is_standard(registry: &PacketRegistry) -> bool {
    &&& registry.table(ConnectionState::Handshaking) == Map::<i32, Handler>::empty().insert(
        0x00,
        Handler::Handshake,
    )
    &&& registry.table(ConnectionState::Status) == Map::<i32, Handler>::empty().insert(
        0x00,
        Handler::StatusRequest,
    ).insert(0x01, Handler::PingRequest)
    &&& registry.table(ConnectionState::Login) == Map::<i32, Handler>::empty()
    &&& registry.table(ConnectionState::Play) == Map::<i32, Handler>::empty()
}

/// The table with `handler` under `id`, unless `id` is taken: the handler
/// registered first stays.
pub open spec fn registered(table: Map<i32, Handler>, id: i32, handler: Handler) -> Map<
    i32,
    Handler,
> {
    if table.contains_key(id) {
        table
    } else {
        table.insert(id, handler)
    }
}

fn register_generic_packet(table: &mut HashMap<i32, Handler>, id: i32, handler: Handler) -> (r:
    bool)
    ensures
        final(table)@ == registered(old(table)@, id, handler),
        r == !old(table)@.contains_key(id),
{
    broadcast use vstd::std_specs::hash::group_hash_axioms;

    if table.contains_key(&id) {
        false
    } else {
        table.insert(id, handler);
        true
    }
}

/// Registers `handler` for `id` in the handshaking phase, unless `id` is
/// taken there. Says whether it was registered.
pub fn register_handshaking_packet(registry: &mut PacketRegistry, id: i32, handler: Handler) -> (r:
    bool)
    ensures
        r == !old(registry).table(ConnectionState::Handshaking).contains_key(id),
        forall|phase: ConnectionState|
            #![trigger final(registry).table(phase)]
            final(registry).table(phase) == if phase == ConnectionState::Handshaking {
                registered(old(registry).table(phase), id, handler)
            } else {
                old(registry).table(phase)
            },
{
    register_generic_packet(&mut registry.handshaking, id, handler)
}

/// Registers `handler` for `id` in the status phase, unless `id` is taken
/// there. Says whether it was registered.
pub fn register_status_packet(registry: &mut PacketRegistry, id: i32, handler: Handler) -> (r:
    bool)
    ensures
        r == !old(registry).table(ConnectionState::Status).contains_key(id),
        forall|phase: ConnectionState|
            #![trigger final(registry).table(phase)]
            final(registry).table(phase) == if phase == ConnectionState::Status {
                registered(old(registry).table(phase), id, handler)
            } else {
                old(registry).table(phase)
            },
{
    register_generic_packet(&mut registry.status, id, handler)
}

/// Registers `handler` for `id` in the login phase, unless `id` is taken
/// there. Says whether it was registered.
pub fn register_login_packet(registry: &mut PacketRegistry, id: i32, handler: Handler) -> (r:
    bool)
    ensures
        r == !old(registry).table(ConnectionState::Login).contains_key(id),
        forall|phase: ConnectionState|
            #![trigger final(registry).table(phase)]
            final(registry).table(phase) == if phase == ConnectionState::Login {
                registered(old(registry).table(phase), id, handler)
            } else {
                old(registry).table(phase)
            },
{
    register_generic_packet(&mut registry.login, id, handler)
}

/// Registers `handler` for `id` in the play phase, unless `id` is taken
/// there. Says whether it was registered.
pub fn register_play_packet(registry: &mut PacketRegistry, id: i32, handler: Handler) -> (r: bool)
    ensures
        r == !old(registry).table(ConnectionState::Play).contains_key(id),
        forall|phase: ConnectionState|
            #![trigger final(registry).table(phase)]
            final(registry).table(phase) == if phase == ConnectionState::Play {
                registered(old(registry).table(phase), id, handler)
            } else {
                old(registry).table(phase)
            },
{
    register_generic_packet(&mut registry.play, id, handler)
}

/// What a packet with identifier `id` and payload `data` does to a
/// connection: what the handler registered for `id` in the active phase
/// does; where there is none, the packet is unimplemented and the
/// connection stays as it was.
pub open spec fn handle_outcome(
    registry: &PacketRegistry,
    before: ConnectionView,
    id: i32,
    data: Seq<u8>,
) -> Outcome {
    let table: Map<i32, Handler> = registry.table(before.state);
    if table.contains_key(id) {
        table[id].outcome(before, data)
    } else {
        Outcome { result: Err(Failure::Unimplemented(id)), after: before }
    }
}

/// Hands the payload `data` to the handler registered for `id` in the
/// active phase of `conn`.
pub fn handle(registry: &PacketRegistry, conn: &mut Connection, id: i32, data: &[u8]) -> (r:
    Result<(), HandleError>)
    ensures
        agrees(r, handle_outcome(registry, old(conn)@, id, data@).result),
        final(conn)@ == handle_outcome(registry, old(conn)@, id, data@).after,
{
    match registry.lookup(conn.state, id) {
        Some(handler) => handler.invoke(conn, data),
        None => Err(HandleError::Unimplemented(id)),
    }
}

} // verus!

//! The packets of the handshaking phase.

use crate::connection::{Connection, ConnectionState, ConnectionView};
use crate::de::Deserializer;
use crate::error::Error;
use crate::format::Parsed;
use crate::packets::{agrees, Failure, HandleError, Outcome};
use crate::record::Wire;
use crate::ser::Serializer;
use crate::text::decimal_text;
use crate::types::VarInt;
use vstd::prelude::*;
use vstd::string::StringExecFns;

verus! {

/// The first packet of a connection: it names the phase to go to.
#[derive(Debug)]
pub struct Handshake {
    pub protocol_version: VarInt,
    pub server_address: String,
    pub server_port: u16,
    pub next_state: VarInt,
}

/// A handshake, with the address as characters.
pub ghost struct HandshakeView {
    pub protocol_version: i32,
    pub server_address: Seq<char>,
    pub server_port: u16,
    pub next_state: i32,
}

impl View for Handshake {
    type V = HandshakeView;

    open spec fn view(&self) -> HandshakeView {
        HandshakeView {
            protocol_version: self.protocol_version.0,
            server_address: self.server_address@,
            server_port: self.server_port,
            next_state: self.next_state.0,
        }
    }
}

/// The fields of a handshake in the order in which they are written.
pub type HandshakeFields = (VarInt, (String, (u16, VarInt)));

impl HandshakeView {
    /// The fields in the order in which they are written.
    pub open spec fn fields(self) -> (i32, (Seq<char>, (u16, i32))) {
        (self.protocol_version, (self.server_address, (self.server_port, self.next_state)))
    }

    /// The handshake with the given fields.
    pub open spec fn of(fields: (i32, (Seq<char>, (u16, i32)))) -> HandshakeView {
        HandshakeView {
            protocol_version: fields.0,
            server_address: fields.1.0,
            server_port: fields.1.1.0,
            next_state: fields.1.1.1,
        }
    }
}

impl Wire for Handshake {
    open spec fn fits(m: HandshakeView) -> bool {
        HandshakeFields::fits(m.fields())
    }

    open spec fn bytes(m: HandshakeView) -> Seq<u8> {
        HandshakeFields::bytes(m.fields())
    }

    open spec fn decoding(input: Seq<u8>) -> Parsed<HandshakeView> {
        match HandshakeFields::decoding(input) {
            Ok((fields, taken)) => Ok((HandshakeView::of(fields), taken)),
            Err(e) => Err(e),
        }
    }

    proof fn lemma_round_trip(m: HandshakeView, rest: Seq<u8>) {
        HandshakeFields::lemma_round_trip(m.fields(), rest);
    }

    proof fn lemma_taken(input: Seq<u8>) {
        HandshakeFields::lemma_taken(input);
    }

    fn serialize(&self, ser: &mut Serializer) -> (r: Result<(), Error>) {
        ser.write_varint(self.protocol_version);
        match ser.write_str(self.server_address.as_str()) {
            Err(e) => Err(e),
            Ok(()) => {
                ser.write_u16(self.server_port);
                ser.write_varint(self.next_state);
                assert(ser@ =~= old(ser)@ + Self::bytes(self@));
                Ok(())
            },
        }
    }

    fn deserialize<'de>(de: &mut Deserializer<'de>) -> (r: Result<Self, Error>) {
        match HandshakeFields::deserialize(de) {
            Ok((protocol_version, (server_address, (server_port, next_state)))) => Ok(
                Handshake { protocol_version, server_address, server_port, next_state },
            ),
            Err(e) => Err(e),
        }
    }
}

/// The phase that a handshake asks for: `1` is the status phase and `2` the
/// play phase; no other value names a phase.
pub open spec fn phase_after(next_state: i32) -> Option<ConnectionState> {
    if next_state == 1 {
        Some(ConnectionState::Status)
    } else if next_state == 2 {
        Some(ConnectionState::Play)
    } else {
        None
    }
}

/// The phase that a handshake asks for.
pub fn next_phase(next_state: i32) -> (r: Option<ConnectionState>)
    ensures
        r == phase_after(next_state),
{
    match next_state {
        1 => Some(ConnectionState::Status),
        2 => Some(ConnectionState::Play),
        _ => None,
    }
}

/// What a handshake does to a connection: the phase it asks for becomes
/// the active one; where it names no phase it is rejected and the connection
/// stays as it was.
pub open spec fn handshake_outcome(before: ConnectionView, packet: HandshakeView) -> Outcome {
    match phase_after(packet.next_state) {
        Some(phase) => Outcome {
            result: Ok(()),
            after: ConnectionView { state: phase, ..before },
        },
        None => Outcome {
            result: Err(
                Failure::Rejected("invalid next_state "@ + decimal_text(packet.next_state as int)),
            ),
            after: before,
        },
    }
}

/// Handles a handshake.
pub fn handle_handshake(conn: &mut Connection, packet: Handshake) -> (r: Result<(), HandleError>)
    ensures
        agrees(r, handshake_outcome(old(conn)@, packet@).result),
        final(conn)@ == handshake_outcome(old(conn)@, packet@).after,
{
    match next_phase(packet.next_state.0) {
        Some(phase) => {
            conn.switch_state(phase);
            Ok(())
        },
        None => {
            let mut text: String = "invalid next_state ".to_owned();
            text.append(packet.next_state.to_string().as_str());
            Err(HandleError::BadPacket(text))
        },
    }
}

} // verus!

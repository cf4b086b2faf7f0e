//! The packets of the status phase.

use crate::bits::unsigned64;
use crate::connection::{frame_bytes, Connection, ConnectionView};
use crate::de::Deserializer;
use crate::error::Error;
use crate::format::{be_bytes, lemma_be_bytes_len, string_bytes, string_fits, Parsed};
use crate::packets::{agrees, HandleError, IdentifiedPacket, Outcome};
use crate::record::Wire;
use crate::ser::Serializer;
use crate::text::lemma_utf8_len;
use crate::varint::lemma_varint_len;
use vstd::prelude::*;

verus! {

/// The description of the server that answers a status request: a JSON
/// document.
pub const STATUS: &'static str =
    "{\n    \"version\": {\n        \"name\": \"1.19\",\n        \"protocol\": 759\n    },\n    \"players\": {\n        \"max\": 100,\n        \"online\": 0,\n        \"sample\": []\n    },\n    \"description\": {\n        \"text\": \"Hubby\"\n    },\n    \"previewsChat\": true\n}";

/// The answer to a status request.
#[derive(Debug)]
pub struct StatusResponse {
    /// A JSON document that describes the server.
    pub status: String,
}

/// The answer to a ping.
#[derive(Debug)]
pub struct PingResponse {
    /// The payload of the ping answered.
    pub payload: i64,
}

/// Asks for the description of the server. It has no fields.
#[derive(Debug)]
pub struct StatusRequest {}

/// Asks for its payload to be sent back.
#[derive(Debug)]
pub struct PingRequest {
    pub payload: i64,
}

impl View for StatusResponse {
    type V = Seq<char>;

    open spec fn view(&self) -> Seq<char> {
        self.status@
    }
}

impl View for PingResponse {
    type V = i64;

    open spec fn view(&self) -> i64 {
        self.payload
    }
}

impl View for StatusRequest {
    type V = ();

    open spec fn view(&self) -> () {
        ()
    }
}

impl View for PingRequest {
    type V = i64;

    open spec fn view(&self) -> i64 {
        self.payload
    }
}

impl IdentifiedPacket for StatusResponse {
    const ID: i32 = 0x00;
}

impl IdentifiedPacket for PingResponse {
    const ID: i32 = 0x01;
}

impl Wire for StatusResponse {
    open spec fn fits(m: Seq<char>) -> bool {
        String::fits(m)
    }

    open spec fn bytes(m: Seq<char>) -> Seq<u8> {
        String::bytes(m)
    }

    open spec fn decoding(input: Seq<u8>) -> Parsed<Seq<char>> {
        String::decoding(input)
    }

    proof fn lemma_round_trip(m: Seq<char>, rest: Seq<u8>) {
        String::lemma_round_trip(m, rest);
    }

    proof fn lemma_taken(input: Seq<u8>) {
        String::lemma_taken(input);
    }

    fn serialize(&self, ser: &mut Serializer) -> (r: Result<(), Error>) {
        self.status.serialize(ser)
    }

    fn deserialize<'de>(de: &mut Deserializer<'de>) -> (r: Result<Self, Error>) {
        match String::deserialize(de) {
            Ok(status) => Ok(StatusResponse { status }),
            Err(e) => Err(e),
        }
    }
}

impl Wire for PingResponse {
    open spec fn fits(m: i64) -> bool {
        i64::fits(m)
    }

    open spec fn bytes(m: i64) -> Seq<u8> {
        i64::bytes(m)
    }

    open spec fn decoding(input: Seq<u8>) -> Parsed<i64> {
        i64::decoding(input)
    }

    proof fn lemma_round_trip(m: i64, rest: Seq<u8>) {
        i64::lemma_round_trip(m, rest);
    }

    proof fn lemma_taken(input: Seq<u8>) {
        i64::lemma_taken(input);
    }

    fn serialize(&self, ser: &mut Serializer) -> (r: Result<(), Error>) {
        self.payload.serialize(ser)
    }

    fn deserialize<'de>(de: &mut Deserializer<'de>) -> (r: Result<Self, Error>) {
        match i64::deserialize(de) {
            Ok(payload) => Ok(PingResponse { payload }),
            Err(e) => Err(e),
        }
    }
}

impl Wire for StatusRequest {
    open spec fn fits(m: ()) -> bool {
        <()>::fits(m)
    }

    open spec fn bytes(m: ()) -> Seq<u8> {
        <()>::bytes(m)
    }

    open spec fn decoding(input: Seq<u8>) -> Parsed<()> {
        <()>::decoding(input)
    }

    proof fn lemma_round_trip(m: (), rest: Seq<u8>) {
        <()>::lemma_round_trip(m, rest);
    }

    proof fn lemma_taken(input: Seq<u8>) {
        <()>::lemma_taken(input);
    }

    fn serialize(&self, ser: &mut Serializer) -> (r: Result<(), Error>) {
        ().serialize(ser)
    }

    fn deserialize<'de>(de: &mut Deserializer<'de>) -> (r: Result<Self, Error>) {
        match <()>::deserialize(de) {
            Ok(()) => Ok(StatusRequest {  }),
            Err(e) => Err(e),
        }
    }
}

impl Wire for PingRequest {
    open spec fn fits(m: i64) -> bool {
        i64::fits(m)
    }

    open spec fn bytes(m: i64) -> Seq<u8> {
        i64::bytes(m)
    }

    open spec fn decoding(input: Seq<u8>) -> Parsed<i64> {
        i64::decoding(input)
    }

    proof fn lemma_round_trip(m: i64, rest: Seq<u8>) {
        i64::lemma_round_trip(m, rest);
    }

    proof fn lemma_taken(input: Seq<u8>) {
        i64::lemma_taken(input);
    }

    fn serialize(&self, ser: &mut Serializer) -> (r: Result<(), Error>) {
        self.payload.serialize(ser)
    }

    fn deserialize<'de>(de: &mut Deserializer<'de>) -> (r: Result<Self, Error>) {
        match i64::deserialize(de) {
            Ok(payload) => Ok(PingRequest { payload }),
            Err(e) => Err(e),
        }
    }
}

/// What a status request does to a connection: one status response, with
/// the description of the server, is added to the bytes to write.
pub open spec fn status_request_outcome(before: ConnectionView) -> Outcome {
    Outcome {
        result: Ok(()),
        after: ConnectionView {
            outgoing: before.outgoing + frame_bytes(StatusResponse::ID, string_bytes(STATUS@)),
            ..before
        },
    }
}

/// What a ping does to a connection: one ping response with the same
/// payload is added to the bytes to write.
pub open spec fn ping_request_outcome(before: ConnectionView, payload: i64) -> Outcome {
    Outcome {
        result: Ok(()),
        after: ConnectionView {
            outgoing: before.outgoing + frame_bytes(
                PingResponse::ID,
                be_bytes(unsigned64(payload), 8),
            ),
            ..before
        },
    }
}

/// The description of the server is short enough to be sent.
pub proof fn lemma_status_fits()
    ensures
        string_fits(STATUS@),
        crate::connection::frame_fits(StatusResponse::ID, string_bytes(STATUS@)),
{
    reveal_strlit(
        "{\n    \"version\": {\n        \"name\": \"1.19\",\n        \"protocol\": 759\n    },\n    \"players\": {\n        \"max\": 100,\n        \"online\": 0,\n        \"sample\": []\n    },\n    \"description\": {\n        \"text\": \"Hubby\"\n    },\n    \"previewsChat\": true\n}",
    );
    lemma_utf8_len(STATUS@);
    lemma_varint_len(vstd::utf8::encode_utf8(STATUS@).len() as i32);
    lemma_varint_len(StatusResponse::ID);
}

/// Handles a status request.
pub fn handle_status_request(conn: &mut Connection, _packet: StatusRequest) -> (r: Result<
    (),
    HandleError,
>)
    ensures
        agrees(r, status_request_outcome(old(conn)@).result),
        final(conn)@ == status_request_outcome(old(conn)@).after,
{
    let res = StatusResponse { status: STATUS.to_owned() };
    proof {
        lemma_status_fits();
    }
    match conn.send_packet(res) {
        Ok(()) => Ok(()),
        Err(e) => Err(HandleError::SerdeMCJE(e)),
    }
}

/// Handles a ping.
pub fn handle_ping_request(conn: &mut Connection, packet: PingRequest) -> (r: Result<
    (),
    HandleError,
>)
    ensures
        agrees(r, ping_request_outcome(old(conn)@, packet@).result),
        final(conn)@ == ping_request_outcome(old(conn)@, packet@).after,
{
    proof {
        lemma_be_bytes_len(unsigned64(packet.payload), 8);
        lemma_varint_len(PingResponse::ID);
    }
    match conn.send_packet(PingResponse { payload: packet.payload }) {
        Ok(()) => Ok(()),
        Err(e) => Err(HandleError::SerdeMCJE(e)),
    }
}

} // verus!

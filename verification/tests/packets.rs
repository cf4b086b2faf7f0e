use hubby::connection::{Connection, ConnectionState};
use hubby::packets::handshaking::{handle_handshake, next_phase, Handshake};
use hubby::packets::status::{
    handle_ping_request, handle_status_request, PingRequest, PingResponse, StatusRequest,
    StatusResponse, STATUS,
};
use hubby::packets::{
    handle, register_handshaking_packet, register_login_packet, register_play_packet,
    register_status_packet, HandleError, Handler, IdentifiedPacket, PacketRegistry,
};
use hubby::types::VarInt;
use hubby::{from_slice, to_vec, Error};

fn handshake(next_state: i32) -> Handshake {
    Handshake {
        protocol_version: VarInt(759),
        server_address: "localhost".to_string(),
        server_port: 25565,
        next_state: VarInt(next_state),
    }
}

fn handshake_bytes(next_state: u8) -> Vec<u8> {
    let mut bytes = vec![0xf7, 0x05, 0x09];
    bytes.extend_from_slice(b"localhost");
    bytes.extend_from_slice(&[0x63, 0xdd, next_state]);
    bytes
}

fn status_frame() -> Vec<u8> {
    let text = STATUS.as_bytes();
    assert_eq!(text.len(), 238);
    let mut frame = vec![0xf1, 0x01, 0x00, 0xee, 0x01];
    frame.extend_from_slice(text);
    frame
}

#[test]
fn handshake_wire_shape() {
    assert_eq!(to_vec(&handshake(1)).unwrap(), handshake_bytes(1));
    let packet: Handshake = from_slice(&handshake_bytes(2)).unwrap();
    assert_eq!(packet.protocol_version, VarInt(759));
    assert_eq!(packet.server_address, "localhost");
    assert_eq!(packet.server_port, 25565);
    assert_eq!(packet.next_state, VarInt(2));
    assert!(matches!(from_slice::<Handshake>(&handshake_bytes(1)[..14]), Err(Error::Eof)));
    let mut longer = handshake_bytes(1);
    longer.push(0);
    assert!(matches!(from_slice::<Handshake>(&longer), Err(Error::TrailingBytes)));
}

#[test]
fn status_packets_wire_shape() {
    assert_eq!(to_vec(&StatusRequest {}).unwrap(), Vec::<u8>::new());
    assert!(from_slice::<StatusRequest>(&[]).is_ok());
    assert!(matches!(from_slice::<StatusRequest>(&[0]), Err(Error::TrailingBytes)));
    assert_eq!(to_vec(&PingRequest { payload: 42 }).unwrap(), vec![0, 0, 0, 0, 0, 0, 0, 42]);
    assert_eq!(to_vec(&PingResponse { payload: -1 }).unwrap(), vec![0xff; 8]);
    assert_eq!(from_slice::<PingRequest>(&[0, 0, 0, 0, 0, 0, 1, 0]).unwrap().payload, 256);
    assert_eq!(from_slice::<PingResponse>(&[0x80, 0, 0, 0, 0, 0, 0, 0]).unwrap().payload, i64::MIN);
    assert!(matches!(from_slice::<PingRequest>(&[0; 7]), Err(Error::Eof)));
    assert_eq!(to_vec(&StatusResponse { status: "{}".to_string() }).unwrap(), vec![2, b'{', b'}']);
    assert_eq!(from_slice::<StatusResponse>(&[2, b'{', b'}']).unwrap().status, "{}");
}

#[test]
fn identifiers() {
    assert_eq!(StatusResponse::ID, 0x00);
    assert_eq!(PingResponse::ID, 0x01);
}

#[test]
fn next_state_names_a_phase() {
    assert_eq!(next_phase(1), Some(ConnectionState::Status));
    assert_eq!(next_phase(2), Some(ConnectionState::Play));
    assert_eq!(next_phase(0), None);
    assert_eq!(next_phase(3), None);
    assert_eq!(next_phase(-1), None);
}

#[test]
fn handshake_switches_phase() {
    let mut conn = Connection::new(1024);
    assert_eq!(conn.state, ConnectionState::Handshaking);
    assert!(handle_handshake(&mut conn, handshake(1)).is_ok());
    assert_eq!(conn.state, ConnectionState::Status);
    assert!(conn.outgoing.is_empty());
    let mut conn = Connection::new(1024);
    assert!(handle_handshake(&mut conn, handshake(2)).is_ok());
    assert_eq!(conn.state, ConnectionState::Play);
    assert_eq!(conn.max_frame, 1024);
}

#[test]
fn handshake_with_unknown_next_state_is_rejected() {
    let mut conn = Connection::new(1024);
    match handle_handshake(&mut conn, handshake(3)) {
        Err(HandleError::BadPacket(text)) => assert_eq!(text, "invalid next_state 3"),
        other => panic!("{:?}", other),
    }
    assert_eq!(conn.state, ConnectionState::Handshaking);
    match handle_handshake(&mut conn, handshake(-12)) {
        Err(HandleError::BadPacket(text)) => assert_eq!(text, "invalid next_state -12"),
        other => panic!("{:?}", other),
    }
    match handle_handshake(&mut conn, handshake(0)) {
        Err(HandleError::BadPacket(text)) => assert_eq!(text, "invalid next_state 0"),
        other => panic!("{:?}", other),
    }
    assert!(conn.outgoing.is_empty());
}

#[test]
fn status_document_is_json() {
    let expected = "{
    \"version\": {
        \"name\": \"1.19\",
        \"protocol\": 759
    },
    \"players\": {
        \"max\": 100,
        \"online\": 0,
        \"sample\": []
    },
    \"description\": {
        \"text\": \"Hubby\"
    },
    \"previewsChat\": true
}";
    assert_eq!(STATUS, expected);
    let value: serde_json::Value = serde_json::from_str(STATUS).unwrap();
    assert!(value.is_object());
    assert_eq!(value["version"]["protocol"].as_i64(), Some(759));
    assert_eq!(value["version"]["name"].as_str(), Some("1.19"));
    assert_eq!(value["players"]["max"].as_i64(), Some(100));
    assert_eq!(value["description"]["text"].as_str(), Some("Hubby"));
    assert_eq!(value["previewsChat"].as_bool(), Some(true));
}

#[test]
fn status_request_is_answered_once() {
    let mut conn = Connection::new(1024);
    conn.switch_state(ConnectionState::Status);
    assert!(handle_status_request(&mut conn, StatusRequest {}).is_ok());
    assert_eq!(conn.outgoing, status_frame());
    assert_eq!(conn.state, ConnectionState::Status);
    let (len, taken) = hubby::varint::read_varint(&conn.outgoing).unwrap();
    assert_eq!(len as usize, conn.outgoing.len() - taken);
    let response: StatusResponse = from_slice(&conn.outgoing[taken + 1..]).unwrap();
    assert!(serde_json::from_str::<serde_json::Value>(&response.status).is_ok());
}

#[test]
fn ping_is_echoed() {
    let mut conn = Connection::new(1024);
    conn.switch_state(ConnectionState::Status);
    assert!(handle_ping_request(&mut conn, PingRequest { payload: 42 }).is_ok());
    assert_eq!(conn.outgoing, vec![9, 1, 0, 0, 0, 0, 0, 0, 0, 42]);
    let response: PingResponse = from_slice(&conn.outgoing[2..]).unwrap();
    assert_eq!(response.payload, 42);
    assert!(handle_ping_request(&mut conn, PingRequest { payload: -2 }).is_ok());
    assert_eq!(&conn.outgoing[10..], &[9, 1, 0xff, 0xff, 0xff, 0xff, 0xff, 0xff, 0xff, 0xfe]);
}

#[test]
fn standard_registry() {
    let registry = PacketRegistry::standard();
    assert_eq!(registry.lookup(ConnectionState::Handshaking, 0), Some(Handler::Handshake));
    assert_eq!(registry.lookup(ConnectionState::Handshaking, 1), None);
    assert_eq!(registry.lookup(ConnectionState::Status, 0), Some(Handler::StatusRequest));
    assert_eq!(registry.lookup(ConnectionState::Status, 1), Some(Handler::PingRequest));
    assert_eq!(registry.lookup(ConnectionState::Status, 2), None);
    assert_eq!(registry.lookup(ConnectionState::Status, -1), None);
    assert_eq!(registry.lookup(ConnectionState::Login, 0), None);
    assert_eq!(registry.lookup(ConnectionState::Play, 0), None);
}

#[test]
fn phases_are_registered_apart() {
    let mut registry = PacketRegistry::new();
    assert_eq!(registry.lookup(ConnectionState::Handshaking, 0), None);
    assert!(register_login_packet(&mut registry, 7, Handler::PingRequest));
    assert_eq!(registry.lookup(ConnectionState::Login, 7), Some(Handler::PingRequest));
    assert_eq!(registry.lookup(ConnectionState::Play, 7), None);
    assert_eq!(registry.lookup(ConnectionState::Status, 7), None);
    assert_eq!(registry.lookup(ConnectionState::Handshaking, 7), None);
    assert!(register_play_packet(&mut registry, 7, Handler::StatusRequest));
    assert!(register_status_packet(&mut registry, 7, Handler::Handshake));
    assert!(register_handshaking_packet(&mut registry, 8, Handler::Handshake));
    assert_eq!(registry.lookup(ConnectionState::Login, 7), Some(Handler::PingRequest));
    assert_eq!(registry.lookup(ConnectionState::Play, 7), Some(Handler::StatusRequest));
    assert_eq!(registry.lookup(ConnectionState::Status, 7), Some(Handler::Handshake));
    assert_eq!(registry.lookup(ConnectionState::Handshaking, 8), Some(Handler::Handshake));
    assert_eq!(registry.lookup(ConnectionState::Handshaking, 7), None);
}

#[test]
fn the_first_registration_stays() {
    let mut registry = PacketRegistry::new();
    assert!(register_status_packet(&mut registry, 0, Handler::StatusRequest));
    assert!(!register_status_packet(&mut registry, 0, Handler::PingRequest));
    assert_eq!(registry.lookup(ConnectionState::Status, 0), Some(Handler::StatusRequest));
}

#[test]
fn handle_dispatches_by_phase_and_identifier() {
    let registry = PacketRegistry::standard();
    let mut conn = Connection::new(1024);
    assert!(handle(&registry, &mut conn, 0, &handshake_bytes(1)).is_ok());
    assert_eq!(conn.state, ConnectionState::Status);
    assert!(conn.outgoing.is_empty());
    assert!(handle(&registry, &mut conn, 1, &[0, 0, 0, 0, 0, 0, 0, 42]).is_ok());
    assert_eq!(conn.outgoing, vec![9, 1, 0, 0, 0, 0, 0, 0, 0, 42]);
    conn.take_outgoing();
    assert!(handle(&registry, &mut conn, 0, &[]).is_ok());
    assert_eq!(conn.outgoing, status_frame());
}

#[test]
fn unknown_identifier_is_unimplemented() {
    let registry = PacketRegistry::standard();
    let mut conn = Connection::new(1024);
    conn.switch_state(ConnectionState::Status);
    assert!(matches!(
        handle(&registry, &mut conn, 2, &[1, 2, 3]),
        Err(HandleError::Unimplemented(2))
    ));
    assert!(matches!(handle(&registry, &mut conn, -1, &[]), Err(HandleError::Unimplemented(-1))));
    assert!(conn.outgoing.is_empty());
    assert_eq!(conn.state, ConnectionState::Status);
    conn.switch_state(ConnectionState::Login);
    assert!(matches!(handle(&registry, &mut conn, 0, &[]), Err(HandleError::Unimplemented(0))));
    conn.switch_state(ConnectionState::Play);
    assert!(matches!(handle(&registry, &mut conn, 0, &[]), Err(HandleError::Unimplemented(0))));
    assert!(conn.outgoing.is_empty());
}

#[test]
fn status_packets_are_not_handled_while_handshaking() {
    let registry = PacketRegistry::standard();
    let mut conn = Connection::new(1024);
    assert!(matches!(
        handle(&registry, &mut conn, 1, &[0, 0, 0, 0, 0, 0, 0, 42]),
        Err(HandleError::Unimplemented(1))
    ));
    assert!(matches!(
        handle(&registry, &mut conn, 0, &[]),
        Err(HandleError::SerdeMCJE(Error::Eof))
    ));
    assert!(conn.outgoing.is_empty());
    assert_eq!(conn.state, ConnectionState::Handshaking);
    let mut only_status = PacketRegistry::new();
    register_status_packet(&mut only_status, 0, Handler::StatusRequest);
    assert!(matches!(
        handle(&only_status, &mut conn, 0, &[]),
        Err(HandleError::Unimplemented(0))
    ));
    assert!(conn.outgoing.is_empty());
}

#[test]
fn undecodable_payload_is_reported() {
    let registry = PacketRegistry::standard();
    let mut conn = Connection::new(1024);
    assert!(matches!(
        handle(&registry, &mut conn, 0, &[0x01, 0x02, 0xff, 0xff, 0x00, 0x00, 0x01]),
        Err(HandleError::SerdeMCJE(Error::MalformedUTF8))
    ));
    assert_eq!(conn.state, ConnectionState::Handshaking);
    match handle(&registry, &mut conn, 0, &handshake_bytes(9)) {
        Err(HandleError::BadPacket(text)) => assert_eq!(text, "invalid next_state 9"),
        other => panic!("{:?}", other),
    }
    conn.switch_state(ConnectionState::Status);
    assert!(matches!(
        handle(&registry, &mut conn, 1, &[0; 9]),
        Err(HandleError::SerdeMCJE(Error::TrailingBytes))
    ));
    assert!(matches!(
        handle(&registry, &mut conn, 0, &[0]),
        Err(HandleError::SerdeMCJE(Error::TrailingBytes))
    ));
    assert!(matches!(
        Handler::PingRequest.invoke(&mut conn, &[0; 3]),
        Err(HandleError::SerdeMCJE(Error::Eof))
    ));
    assert!(conn.outgoing.is_empty());
}

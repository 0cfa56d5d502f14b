use lure::packets::{
    decode_incoming, encode_outgoing, Expect, Incoming, NextState, Outgoing, PacketError, Property,
};
use std::borrow::Cow;
use valence_protocol::packets::handshaking::handshake_c2s::HandshakeNextState;
use valence_protocol::packets::handshaking::HandshakeC2s;
use valence_protocol::packets::login::{
    LoginCompressionS2c, LoginDisconnectS2c, LoginHelloC2s, LoginHelloS2c, LoginKeyC2s,
    LoginSuccessS2c,
};
use valence_protocol::packets::play::DisconnectS2c;
use valence_protocol::packets::status::{
    QueryPingC2s, QueryPongS2c, QueryRequestC2s, QueryResponseS2c,
};
use valence_protocol::text::{Color, IntoText, Text};
use valence_protocol::uuid::Uuid;
use valence_protocol::{Decode, Encode, Packet, VarInt};

fn wire<P: Packet + Encode>(packet: &P) -> Vec<u8> {
    let mut out = Vec::new();
    packet.encode_with_id(&mut out).unwrap();
    out
}

fn fields<'a, P: Packet + Decode<'a>>(body: &'a [u8]) -> P {
    let mut rest = body;
    let id = VarInt::decode(&mut rest).unwrap().0;
    assert_eq!(id, P::ID);
    let packet = P::decode(&mut rest).unwrap();
    assert!(rest.is_empty());
    packet
}

fn textures() -> Property {
    Property {
        name: "textures".to_string(),
        value: "dmFsdWU=".to_string(),
        signature: Some("c2lnbmF0dXJl".to_string()),
    }
}

#[test]
fn handshake_is_read_from_its_wire_form() {
    let mut body = vec![0x00, 0xfb, 0x05, 0x09];
    body.extend_from_slice(b"localhost");
    body.extend_from_slice(&[0x63, 0xe9, 0x01]);
    assert_eq!(
        decode_incoming(Expect::Handshake, &body),
        Ok(Incoming::Handshake {
            protocol_version: 763,
            server_address: "localhost".to_string(),
            server_port: 25577,
            next_state: NextState::Status,
        })
    );
}

#[test]
fn handshake_is_written_in_its_wire_form() {
    let packet = Outgoing::Handshake {
        protocol_version: 763,
        server_address: "127.0.0.1".to_string(),
        server_port: 25565,
        next_state: NextState::Login,
    };
    let mut expected = vec![0x00, 0xfb, 0x05, 0x09];
    expected.extend_from_slice(b"127.0.0.1");
    expected.extend_from_slice(&[0x63, 0xdd, 0x02]);
    assert_eq!(encode_outgoing(&packet), Ok(expected));
}

#[test]
fn handshake_for_status_is_written_as_the_protocol_crate_writes_it() {
    let packet = Outgoing::Handshake {
        protocol_version: 47,
        server_address: "play.example".to_string(),
        server_port: 1,
        next_state: NextState::Status,
    };
    let reference = HandshakeC2s {
        protocol_version: VarInt(47),
        server_address: "play.example",
        server_port: 1,
        next_state: HandshakeNextState::Status,
    };
    assert_eq!(encode_outgoing(&packet), Ok(wire(&reference)));
}

#[test]
fn handshake_that_asks_for_login_is_read() {
    let reference = HandshakeC2s {
        protocol_version: VarInt(-1),
        server_address: "",
        server_port: 65535,
        next_state: HandshakeNextState::Login,
    };
    assert_eq!(
        decode_incoming(Expect::Handshake, &wire(&reference)),
        Ok(Incoming::Handshake {
            protocol_version: -1,
            server_address: String::new(),
            server_port: 65535,
            next_state: NextState::Login,
        })
    );
}

#[test]
fn handshake_with_an_unknown_next_state_is_rejected() {
    let mut body = vec![0x00, 0xfb, 0x05, 0x01, b'a', 0x00, 0x01, 0x03];
    assert_eq!(decode_incoming(Expect::Handshake, &body), Err(PacketError::Rejected));
    body[7] = 0x02;
    assert!(decode_incoming(Expect::Handshake, &body).is_ok());
}

#[test]
fn body_without_an_identifier_is_rejected() {
    assert_eq!(decode_incoming(Expect::Handshake, &[]), Err(PacketError::MissingId));
    assert_eq!(decode_incoming(Expect::StatusRequest, &[0x80]), Err(PacketError::MissingId));
}

#[test]
fn another_identifier_is_rejected() {
    assert_eq!(decode_incoming(Expect::StatusRequest, &[0x01]), Err(PacketError::Rejected));
    assert_eq!(
        decode_incoming(Expect::PingRequest, &[0x00, 0, 0, 0, 0, 0, 0, 0, 42]),
        Err(PacketError::Rejected)
    );
}

#[test]
fn bytes_left_over_are_rejected() {
    assert_eq!(decode_incoming(Expect::StatusRequest, &[0x00, 0x00]), Err(PacketError::Rejected));
    assert_eq!(
        decode_incoming(Expect::PingRequest, &[0x01, 0, 0, 0, 0, 0, 0, 0, 42, 7]),
        Err(PacketError::Rejected)
    );
}

#[test]
fn status_request_is_read() {
    assert_eq!(decode_incoming(Expect::StatusRequest, &[0x00]), Ok(Incoming::StatusRequest));
    assert_eq!(
        decode_incoming(Expect::StatusRequest, &wire(&QueryRequestC2s)),
        Ok(Incoming::StatusRequest)
    );
}

#[test]
fn ping_request_is_read() {
    assert_eq!(
        decode_incoming(Expect::PingRequest, &[0x01, 0, 0, 0, 0, 0, 0, 0, 42]),
        Ok(Incoming::PingRequest { payload: 42 })
    );
    assert_eq!(
        decode_incoming(Expect::PingRequest, &wire(&QueryPingC2s { payload: u64::MAX })),
        Ok(Incoming::PingRequest { payload: -1 })
    );
}

#[test]
fn login_start_is_read() {
    let reference = LoginHelloC2s { username: "alice", profile_id: Some(Uuid::from_u128(77)) };
    assert_eq!(
        decode_incoming(Expect::LoginStart, &wire(&reference)),
        Ok(Incoming::LoginStart { username: "alice".to_string(), profile_id: Some(77) })
    );
    let reference = LoginHelloC2s { username: "bob", profile_id: None };
    assert_eq!(
        decode_incoming(Expect::LoginStart, &wire(&reference)),
        Ok(Incoming::LoginStart { username: "bob".to_string(), profile_id: None })
    );
}

#[test]
fn encryption_response_is_read() {
    let reference = LoginKeyC2s { shared_secret: &[1, 2, 3], verify_token: &[9, 8] };
    assert_eq!(
        decode_incoming(Expect::EncryptionResponse, &wire(&reference)),
        Ok(Incoming::EncryptionResponse { shared_secret: vec![1, 2, 3], verify_token: vec![9, 8] })
    );
}

#[test]
fn set_compression_is_read_and_written() {
    let reference = LoginCompressionS2c { threshold: VarInt(256) };
    assert_eq!(
        decode_incoming(Expect::SetCompression, &wire(&reference)),
        Ok(Incoming::SetCompression { threshold: 256 })
    );
    assert_eq!(encode_outgoing(&Outgoing::SetCompression { threshold: 256 }), Ok(wire(&reference)));
    assert_eq!(
        encode_outgoing(&Outgoing::SetCompression { threshold: 256 }),
        Ok(vec![0x03, 0x80, 0x02])
    );
}

#[test]
fn login_success_is_read_and_written() {
    let outside = valence_protocol::Property {
        name: "textures".to_string(),
        value: "dmFsdWU=".to_string(),
        signature: Some("c2lnbmF0dXJl".to_string()),
    };
    let bare = valence_protocol::Property {
        name: "n".to_string(),
        value: "v".to_string(),
        signature: None,
    };
    let reference = LoginSuccessS2c {
        uuid: Uuid::from_u128(0x2bd806c97f0e00af1a1fc3328fa763a9),
        username: "alice",
        properties: Cow::Owned(vec![outside, bare]),
    };
    let own = vec![
        textures(),
        Property { name: "n".to_string(), value: "v".to_string(), signature: None },
    ];
    assert_eq!(
        decode_incoming(Expect::LoginSuccess, &wire(&reference)),
        Ok(Incoming::LoginSuccess {
            uuid: 0x2bd806c97f0e00af1a1fc3328fa763a9,
            username: "alice".to_string(),
            properties: own.clone(),
        })
    );
    let packet = Outgoing::LoginSuccess {
        uuid: 0x2bd806c97f0e00af1a1fc3328fa763a9,
        username: "alice".to_string(),
        properties: own,
    };
    assert_eq!(encode_outgoing(&packet), Ok(wire(&reference)));
}

#[test]
fn login_start_is_written() {
    let packet = Outgoing::LoginStart { username: "alice".to_string(), profile_id: Some(5) };
    let reference = LoginHelloC2s { username: "alice", profile_id: Some(Uuid::from_u128(5)) };
    assert_eq!(encode_outgoing(&packet), Ok(wire(&reference)));
    let packet = Outgoing::LoginStart { username: "alice".to_string(), profile_id: None };
    assert_eq!(encode_outgoing(&packet), Ok(vec![0x00, 5, b'a', b'l', b'i', b'c', b'e', 0]));
}

#[test]
fn status_response_is_written() {
    let packet = Outgoing::StatusResponse { json: "{}".to_string() };
    assert_eq!(encode_outgoing(&packet), Ok(vec![0x00, 2, b'{', b'}']));
    let body = encode_outgoing(&packet).unwrap();
    assert_eq!(fields::<QueryResponseS2c>(&body).json, "{}");
}

#[test]
fn ping_response_is_written() {
    let packet = Outgoing::PingResponse { payload: 42 };
    assert_eq!(encode_outgoing(&packet), Ok(vec![0x01, 0, 0, 0, 0, 0, 0, 0, 42]));
    let packet = Outgoing::PingResponse { payload: -2 };
    assert_eq!(encode_outgoing(&packet), Ok(wire(&QueryPongS2c { payload: u64::MAX - 1 })));
}

#[test]
fn encryption_request_is_written() {
    let packet = Outgoing::EncryptionRequest {
        server_id: String::new(),
        public_key: vec![1, 2, 3],
        verify_token: vec![4, 5],
    };
    let reference = LoginHelloS2c { server_id: "", public_key: &[1, 2, 3], verify_token: &[4, 5] };
    assert_eq!(encode_outgoing(&packet), Ok(wire(&reference)));
    assert_eq!(encode_outgoing(&packet), Ok(vec![0x01, 0, 3, 1, 2, 3, 2, 4, 5]));
}

#[test]
fn disconnect_login_carries_a_translation_key() {
    let key = "multiplayer.disconnect.unverified_username";
    let packet = Outgoing::DisconnectLogin { key: key.to_string() };
    let reference = LoginDisconnectS2c { reason: Cow::Owned(Text::translate(key, vec![])) };
    let body = encode_outgoing(&packet).unwrap();
    assert_eq!(body, wire(&reference));
    let reason = fields::<LoginDisconnectS2c>(&body).reason.into_owned();
    let json = serde_json::to_value(&reason).unwrap();
    assert_eq!(json["translate"], key);
}

#[test]
fn disconnect_play_carries_red_text() {
    let packet =
        Outgoing::DisconnectPlay { message: "No host found".to_string(), color: "red".to_string() };
    let reference =
        DisconnectS2c { reason: Cow::Owned("No host found".into_text().color(Color::RED)) };
    let body = encode_outgoing(&packet).unwrap();
    assert_eq!(body, wire(&reference));
    let reason = fields::<DisconnectS2c>(&body).reason.into_owned();
    let json = serde_json::to_value(&reason).unwrap();
    assert_eq!(json["text"], "No host found");
    assert_eq!(json["color"], "red");
}

#[test]
fn disconnect_play_takes_the_colour_that_is_named() {
    let packet =
        Outgoing::DisconnectPlay { message: "bye".to_string(), color: "gold".to_string() };
    let body = encode_outgoing(&packet).unwrap();
    let reason = fields::<DisconnectS2c>(&body).reason.into_owned();
    let json = serde_json::to_value(&reason).unwrap();
    assert_eq!(json["color"], "gold");
    let packet =
        Outgoing::DisconnectPlay { message: "bye".to_string(), color: "#0a0B0c".to_string() };
    let body = encode_outgoing(&packet).unwrap();
    let reason = fields::<DisconnectS2c>(&body).reason.into_owned();
    assert_eq!(reason.color, Some(Color::rgb(10, 11, 12)));
}

#[test]
fn disconnect_play_in_an_unknown_colour_is_not_written() {
    let packet =
        Outgoing::DisconnectPlay { message: "bye".to_string(), color: "reddish".to_string() };
    assert_eq!(encode_outgoing(&packet), Err(PacketError::Unwritable));
}

#[test]
fn set_compression_with_bytes_behind_the_threshold_is_rejected() {
    assert_eq!(
        decode_incoming(Expect::SetCompression, &[0x03, 0x80, 0x02, 0x00]),
        Err(PacketError::Rejected)
    );
    assert_eq!(decode_incoming(Expect::SetCompression, &[0x03, 0x80]), Err(PacketError::Rejected));
    assert_eq!(decode_incoming(Expect::SetCompression, &[0x03]), Err(PacketError::Rejected));
    assert_eq!(
        decode_incoming(Expect::SetCompression, &[0x02, 0x05]),
        Err(PacketError::Rejected)
    );
    assert_eq!(
        decode_incoming(Expect::SetCompression, &[0x03, 0x80, 0x00]),
        Ok(Incoming::SetCompression { threshold: 0 })
    );
    assert_eq!(
        decode_incoming(Expect::SetCompression, &[0x03, 0xff, 0xff, 0xff, 0xff, 0x0f]),
        Ok(Incoming::SetCompression { threshold: -1 })
    );
}

#[test]
fn ping_request_of_another_length_is_rejected() {
    assert_eq!(
        decode_incoming(Expect::PingRequest, &[0x01, 0, 0, 0, 0, 0, 0, 42]),
        Err(PacketError::Rejected)
    );
    assert_eq!(
        decode_incoming(Expect::PingRequest, &[0x01, 0x80, 0, 0, 0, 0, 0, 0, 1]),
        Ok(Incoming::PingRequest { payload: i64::MIN + 1 })
    );
    assert_eq!(
        encode_outgoing(&Outgoing::PingResponse { payload: i64::MIN + 1 }),
        Ok(vec![0x01, 0x80, 0, 0, 0, 0, 0, 0, 1])
    );
    assert_eq!(
        encode_outgoing(&Outgoing::SetCompression { threshold: -1 }),
        Ok(vec![0x03, 0xff, 0xff, 0xff, 0xff, 0x0f])
    );
}

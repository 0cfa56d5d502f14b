use lure::config::{LureConfig, Table};
use lure::connection::codec::{encode_packet, PacketDecoder, PacketEncoder};
use lure::connection::connection::ConnectionError;
use lure::keypair::KeyPair;
use lure::lure::{GameProfile, LoginError, Lure};
use lure::packets::{
    decode_incoming, encode_outgoing, Expect, Incoming, NextState, Outgoing, PacketError, Property,
};
use lure::session::{Event, Phase, Request, Session, SessionError, Step};
use rand::rngs::OsRng;
use rsa::{Pkcs1v15Encrypt, PublicKey, RsaPrivateKey, RsaPublicKey};
use valence_protocol::packets::handshaking::handshake_c2s::HandshakeNextState;
use valence_protocol::packets::handshaking::HandshakeC2s;
use valence_protocol::packets::login::{
    LoginDisconnectS2c, LoginHelloC2s, LoginHelloS2c, LoginKeyC2s,
};
use valence_protocol::packets::play::DisconnectS2c;
use valence_protocol::packets::status::{
    QueryPingC2s, QueryPongS2c, QueryRequestC2s, QueryResponseS2c,
};
use valence_protocol::{Decode, Encode, Packet, VarInt};

const CLIENT_IP: &str = "203.0.113.9";

fn proxy(online: bool, mode: &str, threshold: u32, hosts: &[(&str, &str)]) -> Lure {
    let mut config = LureConfig::default();
    config.proxy.online_mode = online;
    config.proxy.player_forward_mode = mode.to_string();
    config.proxy.compression_threshold = threshold;
    config.hosts = Table::new();
    for (host, server) in hosts {
        config.hosts.insert(host.to_string(), server.to_string());
    }
    let private_key = RsaPrivateKey::new(&mut OsRng, 512).unwrap();
    Lure { config, favicon: None, keypair: KeyPair { private_key, public_key: vec![0x30, 1, 2] } }
}

fn body_of<P: Packet + Encode>(packet: &P) -> Vec<u8> {
    let mut out = Vec::new();
    packet.encode_with_id(&mut out).unwrap();
    out
}

fn framed(body: &[u8]) -> Vec<u8> {
    let mut out = Vec::new();
    encode_packet(&mut out, body).unwrap();
    out
}

fn fields_of<'a, P: Packet + Decode<'a>>(body: &'a [u8]) -> P {
    let mut rest = body;
    let id = VarInt::decode(&mut rest).unwrap().0;
    assert_eq!(id, P::ID);
    let packet = P::decode(&mut rest).unwrap();
    assert!(rest.is_empty());
    packet
}

fn handshake(address: &str, next_state: HandshakeNextState) -> Vec<u8> {
    framed(&body_of(&HandshakeC2s {
        protocol_version: VarInt(763),
        server_address: address,
        server_port: 25577,
        next_state,
    }))
}

fn login_start(name: &str) -> Vec<u8> {
    framed(&body_of(&LoginHelloC2s { username: name, profile_id: None }))
}

/// Hands in `event`, then polls while the session asks for it. Gives the
/// session, what it wrote to the client and to the backend, and its last
/// request.
fn drive(lure: &Lure, session: Session, event: Event) -> (Session, Vec<u8>, Vec<u8>, Request) {
    let mut session = session;
    let mut event = event;
    let mut to_client = Vec::new();
    let mut to_backend = Vec::new();
    for _ in 0..64 {
        let (next, step): (Session, Step) = lure.advance(session, event);
        session = next;
        to_client.extend_from_slice(&step.to_client);
        to_backend.extend_from_slice(&step.to_backend);
        match step.request {
            Request::Again => event = Event::Poll,
            request => return (session, to_client, to_backend, request),
        }
    }
    panic!("the session does not come to rest");
}

fn frames_of(dec: &mut PacketDecoder, bytes: &[u8]) -> Vec<Vec<u8>> {
    dec.queue_slice(bytes);
    let mut frames = Vec::new();
    while let Some(body) = dec.try_next_packet().unwrap() {
        frames.push(body);
    }
    frames
}

#[test]
fn session_begins_with_a_fresh_token() {
    let lure = proxy(false, "none", 0, &[]);
    let first = lure.handle_connection(CLIENT_IP.to_string());
    let second = lure.handle_connection(CLIENT_IP.to_string());
    assert_eq!(first.phase, Phase::Handshake);
    assert_eq!(first.client.address, CLIENT_IP);
    assert_eq!(first.verify_token.len(), 16);
    assert_ne!(first.verify_token, second.verify_token);
}

#[test]
fn status_ping() {
    let lure = proxy(true, "none", 256, &[("*", "lobby")]);
    let session = lure.handle_connection(CLIENT_IP.to_string());
    let mut input = handshake("localhost", HandshakeNextState::Status);
    input.extend_from_slice(&framed(&body_of(&QueryRequestC2s)));
    input.extend_from_slice(&framed(&body_of(&QueryPingC2s { payload: 42 })));
    let (session, to_client, to_backend, request) = drive(&lure, session, Event::Client(input));
    assert_eq!(request, Request::Finish);
    assert_eq!(session.phase, Phase::Closed);
    assert!(to_backend.is_empty());
    let frames = frames_of(&mut PacketDecoder::new(), &to_client);
    assert_eq!(frames.len(), 2);
    let response = fields_of::<QueryResponseS2c>(&frames[0]);
    let json: serde_json::Value = serde_json::from_str(response.json).unwrap();
    assert_eq!(json["version"]["protocol"], 763);
    assert_eq!(json["version"]["name"], "Lure");
    assert_eq!(json["players"]["max"], lure.config.proxy.max_players);
    assert_eq!(json["description"]["text"], lure.config.proxy.motd.as_str());
    assert_eq!(json["favicon"], "");
    assert_eq!(fields_of::<QueryPongS2c>(&frames[1]).payload, 42);
}

#[test]
fn status_is_answered_step_by_step() {
    let mut lure = proxy(true, "none", 256, &[]);
    lure.favicon = Some("data:image/png;base64,AAAA".to_string());
    let session = lure.handle_connection(CLIENT_IP.to_string());
    let input = handshake("localhost", HandshakeNextState::Status);
    let (session, to_client, _, request) =
        drive(&lure, session, Event::Client(input[..3].to_vec()));
    assert_eq!(request, Request::Read);
    assert_eq!(session.phase, Phase::Handshake);
    assert!(to_client.is_empty());
    let (session, to_client, _, request) =
        drive(&lure, session, Event::Client(input[3..].to_vec()));
    assert_eq!(request, Request::Read);
    assert_eq!(session.phase, Phase::Status);
    assert_eq!(session.protocol_version, 763);
    assert_eq!(session.hostname, "localhost");
    assert!(to_client.is_empty());
    let (session, to_client, _, request) =
        drive(&lure, session, Event::Client(framed(&body_of(&QueryRequestC2s))));
    assert_eq!(request, Request::Read);
    assert_eq!(session.phase, Phase::Ping);
    let frames = frames_of(&mut PacketDecoder::new(), &to_client);
    let json: serde_json::Value =
        serde_json::from_str(fields_of::<QueryResponseS2c>(&frames[0]).json).unwrap();
    assert_eq!(json["favicon"], "data:image/png;base64,AAAA");
    let (_, _, _, request) = drive(&lure, session, Event::Client(Vec::new()));
    assert_eq!(request, Request::Abort(SessionError::Connection(ConnectionError::UnexpectedEof)));
}

#[test]
fn handshake_with_another_next_state_ends_the_session() {
    let lure = proxy(true, "none", 256, &[]);
    let session = lure.handle_connection(CLIENT_IP.to_string());
    let input = framed(&[0x00, 0xfb, 0x05, 0x01, b'a', 0x00, 0x01, 0x03]);
    let (session, to_client, _, request) = drive(&lure, session, Event::Client(input));
    assert_eq!(
        request,
        Request::Abort(SessionError::Connection(ConnectionError::Packet(PacketError::Rejected)))
    );
    assert_eq!(session.phase, Phase::Closed);
    assert!(to_client.is_empty());
    let (_, _, _, request) = drive(&lure, session, Event::Poll);
    assert_eq!(request, Request::Abort(SessionError::UnexpectedEvent));
}

#[test]
fn offline_login_without_a_host_is_disconnected() {
    let lure = proxy(false, "none", 256, &[]);
    let session = lure.handle_connection(CLIENT_IP.to_string());
    let mut input = handshake("play.example", HandshakeNextState::Login);
    input.extend_from_slice(&login_start("alice"));
    let (session, to_client, to_backend, request) = drive(&lure, session, Event::Client(input));
    assert_eq!(request, Request::Abort(SessionError::NoHost));
    assert_eq!(session.phase, Phase::Closed);
    assert!(to_backend.is_empty());
    let mut dec = PacketDecoder::new();
    dec.queue_slice(&to_client);
    let first = dec.try_next_packet().unwrap().unwrap();
    assert_eq!(
        decode_incoming(Expect::SetCompression, &first),
        Ok(Incoming::SetCompression { threshold: 256 })
    );
    dec.set_compression(true);
    let second = dec.try_next_packet().unwrap().unwrap();
    assert_eq!(
        decode_incoming(Expect::LoginSuccess, &second),
        Ok(Incoming::LoginSuccess {
            uuid: 0x2bd806c97f0e00af1a1fc3328fa763a9,
            username: "alice".to_string(),
            properties: vec![],
        })
    );
    let third = dec.try_next_packet().unwrap().unwrap();
    let reason = fields_of::<DisconnectS2c>(&third).reason.into_owned();
    let json = serde_json::to_value(&reason).unwrap();
    assert_eq!(json["text"], "No host found");
    assert_eq!(json["color"], "red");
    assert_eq!(dec.try_next_packet(), Ok(None));
}

#[test]
fn offline_login_without_compression_sends_no_threshold() {
    let lure = proxy(false, "none", 0, &[]);
    let session = lure.handle_connection(CLIENT_IP.to_string());
    let mut input = handshake("play.example", HandshakeNextState::Login);
    input.extend_from_slice(&login_start("alice"));
    let (_, to_client, _, request) = drive(&lure, session, Event::Client(input));
    assert_eq!(request, Request::Abort(SessionError::NoHost));
    let frames = frames_of(&mut PacketDecoder::new(), &to_client);
    assert_eq!(frames.len(), 2);
    assert!(decode_incoming(Expect::LoginSuccess, &frames[0]).is_ok());
}

#[test]
fn login_under_a_bad_name_is_refused() {
    let lure = proxy(false, "none", 0, &[("*", "lobby")]);
    let session = lure.handle_connection(CLIENT_IP.to_string());
    let mut input = handshake("play.example", HandshakeNextState::Login);
    input.extend_from_slice(&login_start("al"));
    let (session, to_client, _, request) = drive(&lure, session, Event::Client(input));
    assert_eq!(request, Request::Abort(SessionError::Login(LoginError::BadUsername)));
    assert_eq!(session.phase, Phase::Closed);
    assert!(to_client.is_empty());
}

#[test]
fn host_that_names_a_missing_server_is_disconnected() {
    let lure = proxy(false, "none", 0, &[("*", "nowhere")]);
    let session = lure.handle_connection(CLIENT_IP.to_string());
    let mut input = handshake("play.example", HandshakeNextState::Login);
    input.extend_from_slice(&login_start("alice"));
    let (_, to_client, _, request) = drive(&lure, session, Event::Client(input));
    assert_eq!(request, Request::Abort(SessionError::NoServer));
    let frames = frames_of(&mut PacketDecoder::new(), &to_client);
    let reason = fields_of::<DisconnectS2c>(&frames[1]).reason.into_owned();
    let json = serde_json::to_value(&reason).unwrap();
    assert_eq!(json["text"], "Default server nowhere for host play.example doesnt exist.");
    assert_eq!(json["color"], "red");
}

fn logged_in_offline(lure: &Lure) -> Session {
    let session = lure.handle_connection(CLIENT_IP.to_string());
    let mut input = handshake("unknown.example", HandshakeNextState::Login);
    input.extend_from_slice(&login_start("alice"));
    let (session, _, to_backend, request) = drive(lure, session, Event::Client(input));
    assert_eq!(
        request,
        Request::Dial { server: "lobby".to_string(), address: "127.0.0.1:25565".to_string() }
    );
    assert_eq!(session.phase, Phase::Dial);
    assert_eq!(session.server, "lobby");
    assert!(to_backend.is_empty());
    session
}

#[test]
fn backend_that_cannot_be_reached_is_reported() {
    let lure = proxy(false, "none", 0, &[("*", "lobby")]);
    let session = logged_in_offline(&lure);
    let (session, to_client, _, request) =
        drive(&lure, session, Event::DialFailed { error: "connection refused".to_string() });
    assert_eq!(request, Request::Abort(SessionError::Dial));
    assert_eq!(session.phase, Phase::Closed);
    let frames = frames_of(&mut PacketDecoder::new(), &to_client);
    let reason = fields_of::<DisconnectS2c>(&frames[0]).reason.into_owned();
    let json = serde_json::to_value(&reason).unwrap();
    assert_eq!(json["text"], "Cannot connect to server lobby:\n\nconnection refused");
}

#[test]
fn offline_login_is_piped_to_the_backend() {
    let lure = proxy(false, "none", 256, &[("*", "lobby")]);
    let session = logged_in_offline(&lure);
    let (session, to_client, to_backend, request) =
        drive(&lure, session, Event::Dialed { ip: "127.0.0.1".to_string(), port: 25565 });
    assert_eq!(request, Request::Read);
    assert_eq!(session.phase, Phase::Backend);
    assert!(to_client.is_empty());
    let mut from_proxy = PacketDecoder::new();
    let frames = frames_of(&mut from_proxy, &to_backend);
    assert_eq!(frames.len(), 2);
    assert_eq!(
        decode_incoming(Expect::Handshake, &frames[0]),
        Ok(Incoming::Handshake {
            protocol_version: 763,
            server_address: "127.0.0.1".to_string(),
            server_port: 25565,
            next_state: NextState::Login,
        })
    );
    assert_eq!(
        decode_incoming(Expect::LoginStart, &frames[1]),
        Ok(Incoming::LoginStart {
            username: "alice".to_string(),
            profile_id: Some(0x2bd806c97f0e00af1a1fc3328fa763a9),
        })
    );

    // The backend sets its threshold and accepts the login.
    let mut backend = PacketEncoder::new();
    backend.append_packet(&encode_outgoing(&Outgoing::SetCompression { threshold: 256 }).unwrap())
        .unwrap();
    backend.set_compression(Some(256));
    from_proxy.set_compression(true);
    backend
        .append_packet(
            &encode_outgoing(&Outgoing::LoginSuccess {
                uuid: 1,
                username: "alice".to_string(),
                properties: vec![],
            })
            .unwrap(),
        )
        .unwrap();
    let (session, to_client, to_backend, request) =
        drive(&lure, session, Event::Backend(backend.take()));
    assert_eq!(request, Request::Read);
    assert_eq!(session.phase, Phase::Play);
    assert!(to_client.is_empty());
    assert!(to_backend.is_empty());

    // One frame of 300 bytes from the client to the backend.
    let up: Vec<u8> = (0..300).map(|i| (i % 7) as u8).collect();
    let mut client = PacketEncoder::new();
    client.set_compression(Some(256));
    client.append_packet(&up).unwrap();
    let sent = client.take();
    assert!(sent.len() < 300);
    let (session, to_client, to_backend, request) = drive(&lure, session, Event::Client(sent));
    assert_eq!(request, Request::Read);
    assert!(to_client.is_empty());
    assert!(to_backend.len() < 300);
    assert_eq!(frames_of(&mut from_proxy, &to_backend), vec![up]);

    // One frame of 300 bytes from the backend to the client.
    let down: Vec<u8> = (0..300).map(|i| (i % 5) as u8).collect();
    backend.append_packet(&down).unwrap();
    let (session, to_client, to_backend, request) =
        drive(&lure, session, Event::Backend(backend.take()));
    assert_eq!(request, Request::Read);
    assert!(to_backend.is_empty());
    assert!(to_client.len() < 300);
    let mut at_client = PacketDecoder::new();
    at_client.set_compression(true);
    assert_eq!(frames_of(&mut at_client, &to_client), vec![down]);

    // Nothing is delivered twice.
    let (session, to_client, to_backend, request) = drive(&lure, session, Event::Poll);
    assert_eq!(request, Request::Read);
    assert!(to_client.is_empty() && to_backend.is_empty());

    // The session ends when either side closes.
    let (session, _, _, request) = drive(&lure, session, Event::Backend(Vec::new()));
    assert_eq!(request, Request::Abort(SessionError::Connection(ConnectionError::UnexpectedEof)));
    assert_eq!(session.phase, Phase::Closed);
}

#[test]
fn legs_with_different_thresholds_are_framed_anew() {
    let lure = proxy(false, "none", 0, &[("*", "lobby")]);
    let session = logged_in_offline(&lure);
    let (session, _, _, _) =
        drive(&lure, session, Event::Dialed { ip: "127.0.0.1".to_string(), port: 25565 });
    let mut backend = PacketEncoder::new();
    backend.append_packet(&encode_outgoing(&Outgoing::SetCompression { threshold: 64 }).unwrap())
        .unwrap();
    backend.set_compression(Some(64));
    backend
        .append_packet(
            &encode_outgoing(&Outgoing::LoginSuccess {
                uuid: 1,
                username: "alice".to_string(),
                properties: vec![],
            })
            .unwrap(),
        )
        .unwrap();
    let (session, _, _, _) = drive(&lure, session, Event::Backend(backend.take()));
    assert_eq!(session.phase, Phase::Play);
    // The client leg is not compressed, the backend leg is.
    let body = vec![9u8; 100];
    let (session, _, to_backend, _) = drive(&lure, session, Event::Client(framed(&body)));
    let mut at_backend = PacketDecoder::new();
    at_backend.set_compression(true);
    assert_eq!(frames_of(&mut at_backend, &to_backend), vec![body.clone()]);
    assert!(to_backend.len() < 100);
    backend.append_packet(&body).unwrap();
    let (_, to_client, _, _) = drive(&lure, session, Event::Backend(backend.take()));
    assert_eq!(to_client, framed(&body));
}

#[test]
fn backend_may_accept_the_login_without_a_threshold() {
    let lure = proxy(false, "none", 0, &[("*", "lobby")]);
    let session = logged_in_offline(&lure);
    let (session, _, _, _) =
        drive(&lure, session, Event::Dialed { ip: "127.0.0.1".to_string(), port: 25565 });
    let success = encode_outgoing(&Outgoing::LoginSuccess {
        uuid: 1,
        username: "alice".to_string(),
        properties: vec![],
    })
    .unwrap();
    let (session, _, _, request) = drive(&lure, session, Event::Backend(framed(&success)));
    assert_eq!(request, Request::Read);
    assert_eq!(session.phase, Phase::Play);
}

#[test]
fn backend_that_answers_with_something_else_ends_the_session() {
    let lure = proxy(false, "none", 0, &[("*", "lobby")]);
    let session = logged_in_offline(&lure);
    let (session, _, _, _) =
        drive(&lure, session, Event::Dialed { ip: "127.0.0.1".to_string(), port: 25565 });
    let (session, _, _, request) = drive(&lure, session, Event::Backend(framed(&[0x7f, 1, 2])));
    assert_eq!(
        request,
        Request::Abort(SessionError::Connection(ConnectionError::Packet(PacketError::Rejected)))
    );
    assert_eq!(session.phase, Phase::Closed);
}

#[test]
fn bungeecord_forwarding() {
    let lure = proxy(false, "bungeecord", 0, &[("*", "lobby")]);
    let session = logged_in_offline(&lure);
    let (_, _, to_backend, _) =
        drive(&lure, session, Event::Dialed { ip: "127.0.0.1".to_string(), port: 25565 });
    let frames = frames_of(&mut PacketDecoder::new(), &to_backend);
    let sent = fields_of::<HandshakeC2s>(&frames[0]);
    assert_eq!(
        sent.server_address,
        "127.0.0.1\0203.0.113.9\02bd806c97f0e00af1a1fc3328fa763a9\0[]"
    );
    assert_eq!(sent.server_port, 25565);
    assert_eq!(sent.next_state, HandshakeNextState::Login);
    assert_eq!(sent.protocol_version.0, 763);
}

#[test]
fn events_that_are_not_awaited_end_the_session() {
    let lure = proxy(false, "none", 0, &[("*", "lobby")]);
    let session = lure.handle_connection(CLIENT_IP.to_string());
    let (session, _, _, request) =
        drive(&lure, session, Event::Dialed { ip: "127.0.0.1".to_string(), port: 1 });
    assert_eq!(request, Request::Abort(SessionError::UnexpectedEvent));
    assert_eq!(session.phase, Phase::Closed);
    let session = lure.handle_connection(CLIENT_IP.to_string());
    let (_, _, _, request) = drive(&lure, session, Event::Backend(vec![1]));
    assert_eq!(request, Request::Abort(SessionError::UnexpectedEvent));
    let session = lure.handle_connection(CLIENT_IP.to_string());
    let (_, _, _, request) = drive(&lure, session, Event::Fetched { status: 200, profile: None });
    assert_eq!(request, Request::Abort(SessionError::UnexpectedEvent));
    let session = logged_in_offline(&lure);
    let (session, _, _, request) = drive(&lure, session, Event::Poll);
    assert_eq!(request, Request::Read);
    let (_, _, _, request) = drive(&lure, session, Event::Fetched { status: 200, profile: None });
    assert_eq!(request, Request::Abort(SessionError::UnexpectedEvent));
}

/// Brings an online login as far as the encryption request. Gives the session
/// and the token that the proxy sent.
fn asked_for_encryption(lure: &Lure) -> (Session, Vec<u8>) {
    let session = lure.handle_connection(CLIENT_IP.to_string());
    let mut input = handshake("play.example", HandshakeNextState::Login);
    input.extend_from_slice(&login_start("alice"));
    let (session, to_client, _, request) = drive(lure, session, Event::Client(input));
    assert_eq!(request, Request::Read);
    assert_eq!(session.phase, Phase::Encryption);
    let frames = frames_of(&mut PacketDecoder::new(), &to_client);
    assert_eq!(frames.len(), 1);
    let asked = fields_of::<LoginHelloS2c>(&frames[0]);
    assert_eq!(asked.server_id, "");
    assert_eq!(asked.public_key, &lure.keypair.public_key[..]);
    assert_eq!(asked.verify_token, &session.verify_token[..]);
    let token = asked.verify_token.to_vec();
    (session, token)
}

fn answer(lure: &Lure, secret: &[u8], token: &[u8]) -> Vec<u8> {
    let public = RsaPublicKey::from(&lure.keypair.private_key);
    let shared_secret = public.encrypt(&mut OsRng, Pkcs1v15Encrypt, secret).unwrap();
    let verify_token = public.encrypt(&mut OsRng, Pkcs1v15Encrypt, token).unwrap();
    framed(&body_of(&LoginKeyC2s { shared_secret: &shared_secret, verify_token: &verify_token }))
}

#[test]
fn token_mismatch_ends_the_login() {
    let lure = proxy(true, "none", 256, &[("*", "lobby")]);
    let (session, token) = asked_for_encryption(&lure);
    let mut tampered = token.clone();
    tampered[0] ^= 0x80;
    let (session, to_client, to_backend, request) =
        drive(&lure, session, Event::Client(answer(&lure, &[5u8; 16], &tampered)));
    assert_eq!(request, Request::Abort(SessionError::Login(LoginError::TokenMismatch)));
    assert_eq!(session.phase, Phase::Closed);
    assert!(to_client.is_empty());
    assert!(to_backend.is_empty());
}

#[test]
fn secret_of_another_length_ends_the_login() {
    let lure = proxy(true, "none", 256, &[("*", "lobby")]);
    let (session, token) = asked_for_encryption(&lure);
    let (_, _, _, request) =
        drive(&lure, session, Event::Client(answer(&lure, &[5u8; 15], &token)));
    assert_eq!(request, Request::Abort(SessionError::Login(LoginError::SecretLength)));
}

#[test]
fn answer_that_does_not_decrypt_ends_the_login() {
    let lure = proxy(true, "none", 256, &[("*", "lobby")]);
    let (session, _) = asked_for_encryption(&lure);
    let input =
        framed(&body_of(&LoginKeyC2s { shared_secret: &[1, 2, 3], verify_token: &[4, 5, 6] }));
    let (_, _, _, request) = drive(&lure, session, Event::Client(input));
    assert_eq!(request, Request::Abort(SessionError::Login(LoginError::Decrypt)));
}

#[test]
fn token_that_does_not_decrypt_ends_the_login() {
    let lure = proxy(true, "none", 256, &[("*", "lobby")]);
    let (session, _) = asked_for_encryption(&lure);
    let public = RsaPublicKey::from(&lure.keypair.private_key);
    let shared_secret = public.encrypt(&mut OsRng, Pkcs1v15Encrypt, &[5u8; 16]).unwrap();
    let input =
        framed(&body_of(&LoginKeyC2s { shared_secret: &shared_secret, verify_token: &[4, 5, 6] }));
    let (_, _, _, request) = drive(&lure, session, Event::Client(input));
    assert_eq!(request, Request::Abort(SessionError::Login(LoginError::InvalidSession)));
}

#[test]
fn answer_without_a_profile_ends_the_login() {
    let lure = proxy(true, "none", 256, &[("*", "lobby")]);
    let session = awaiting_profile(&lure, &[1u8; 16]);
    let (_, to_client, _, request) =
        drive(&lure, session, Event::Fetched { status: 200, profile: None });
    assert_eq!(request, Request::Abort(SessionError::Login(LoginError::BadProfile)));
    assert!(to_client.is_empty());
}

fn awaiting_profile(lure: &Lure, secret: &[u8; 16]) -> Session {
    let (session, token) = asked_for_encryption(lure);
    let (session, to_client, _, request) =
        drive(lure, session, Event::Client(answer(lure, secret, &token)));
    assert!(to_client.is_empty());
    assert_eq!(session.phase, Phase::Profile);
    let digest = lure::digest::session_digest(&[], secret, &lure.keypair.public_key);
    let mut url = format!(
        "https://sessionserver.mojang.com/session/minecraft/hasJoined?username=alice&serverId={}",
        digest
    );
    if lure.config.proxy.prevent_proxy_connections {
        url.push_str("&ip=203.0.113.9");
    }
    assert_eq!(request, Request::Fetch { url });
    session
}

#[test]
fn unknown_login_is_told_so() {
    let lure = proxy(true, "none", 256, &[("*", "lobby")]);
    let secret = [0x5au8; 16];
    let session = awaiting_profile(&lure, &secret);
    let (session, to_client, _, request) =
        drive(&lure, session, Event::Fetched { status: 204, profile: None });
    assert_eq!(request, Request::Abort(SessionError::Login(LoginError::Unverified)));
    assert_eq!(session.phase, Phase::Closed);
    let mut dec = PacketDecoder::new();
    dec.enable_encryption(&secret);
    let frames = frames_of(&mut dec, &to_client);
    assert_eq!(frames.len(), 1);
    let reason = fields_of::<LoginDisconnectS2c>(&frames[0]).reason.into_owned();
    let json = serde_json::to_value(&reason).unwrap();
    assert_eq!(json["translate"], "multiplayer.disconnect.unverified_username");
}

#[test]
fn session_server_failure_ends_the_login_silently() {
    let lure = proxy(true, "none", 256, &[("*", "lobby")]);
    let session = awaiting_profile(&lure, &[1u8; 16]);
    let (_, to_client, _, request) =
        drive(&lure, session, Event::Fetched { status: 503, profile: None });
    assert_eq!(request, Request::Abort(SessionError::Login(LoginError::SessionServer(503))));
    assert!(to_client.is_empty());
}

#[test]
fn profile_under_another_name_ends_the_login() {
    let lure = proxy(true, "none", 256, &[("*", "lobby")]);
    let session = awaiting_profile(&lure, &[1u8; 16]);
    let profile = GameProfile { id: 7, name: "Alice".to_string(), properties: vec![] };
    let (_, to_client, _, request) =
        drive(&lure, session, Event::Fetched { status: 200, profile: Some(profile) });
    assert_eq!(request, Request::Abort(SessionError::Login(LoginError::UsernameMismatch)));
    assert!(to_client.is_empty());
}

#[test]
fn online_login_goes_on_encrypted() {
    let mut lure = proxy(true, "bungeecord", 256, &[("*", "lobby")]);
    lure.config.proxy.prevent_proxy_connections = true;
    let secret = [0xc3u8; 16];
    let session = awaiting_profile(&lure, &secret);
    let textures = Property {
        name: "textures".to_string(),
        value: "dmFsdWU=".to_string(),
        signature: Some("c2ln".to_string()),
    };
    let profile =
        GameProfile { id: 0xabcdef, name: "alice".to_string(), properties: vec![textures.clone()] };
    let (session, to_client, _, request) =
        drive(&lure, session, Event::Fetched { status: 200, profile: Some(profile) });
    assert_eq!(
        request,
        Request::Dial { server: "lobby".to_string(), address: "127.0.0.1:25565".to_string() }
    );
    let info = session.client_info();
    assert_eq!(info.username, "alice");
    assert_eq!(info.uuid, 0xabcdef);
    assert_eq!(info.ip, CLIENT_IP);
    assert_eq!(info.properties, vec![textures.clone()]);
    assert_eq!(info.protocol_version, 763);
    assert_eq!(info.hostname, "play.example");
    let mut dec = PacketDecoder::new();
    dec.enable_encryption(&secret);
    dec.queue_slice(&to_client);
    let first = dec.try_next_packet().unwrap().unwrap();
    assert_eq!(
        decode_incoming(Expect::SetCompression, &first),
        Ok(Incoming::SetCompression { threshold: 256 })
    );
    dec.set_compression(true);
    let second = dec.try_next_packet().unwrap().unwrap();
    assert_eq!(
        decode_incoming(Expect::LoginSuccess, &second),
        Ok(Incoming::LoginSuccess {
            uuid: 0xabcdef,
            username: "alice".to_string(),
            properties: vec![textures],
        })
    );
    assert_eq!(dec.try_next_packet(), Ok(None));

    // The backend leg carries the profile and is in the clear.
    let (session, _, to_backend, _) =
        drive(&lure, session, Event::Dialed { ip: "10.1.2.3".to_string(), port: 25566 });
    let frames = frames_of(&mut PacketDecoder::new(), &to_backend);
    assert_eq!(
        fields_of::<HandshakeC2s>(&frames[0]).server_address,
        "10.1.2.3\0203.0.113.9\000000000000000000000000000abcdef\0\
         [{\"name\":\"textures\",\"value\":\"dmFsdWU=\",\"signature\":\"c2ln\"}]"
    );

    // What the client sends encrypted reaches the backend in the clear.
    let success = encode_outgoing(&Outgoing::LoginSuccess {
        uuid: 1,
        username: "alice".to_string(),
        properties: vec![],
    })
    .unwrap();
    let (session, _, _, _) = drive(&lure, session, Event::Backend(framed(&success)));
    assert_eq!(session.phase, Phase::Play);
    let mut client = PacketEncoder::new();
    client.set_compression(Some(256));
    client.enable_encryption(&secret);
    // Bring the client's cipher to where the proxy's is: the answer to the
    // encryption request was the last thing sent in the clear.
    client.append_packet(&[1, 2, 3]).unwrap();
    let (_, to_client, to_backend, request) = drive(&lure, session, Event::Client(client.take()));
    assert_eq!(request, Request::Read);
    assert!(to_client.is_empty());
    assert_eq!(to_backend, framed(&[1, 2, 3]));
}

//! The packets that the proxy reads and writes before play begins.
//!
//! How a packet's fields lie on the wire is the `valence_protocol` crate's
//! business. This module holds the packets as plain values, hands them to that
//! crate to be written, and takes them back from it when they are read. What
//! the crate writes and accepts is named here, not described.

use crate::digest::be_value;
use crate::varint::{decode_partial, decoded, varint_bytes};
use std::borrow::Cow;
use valence_protocol::bytes::BytesMut;
use valence_protocol::decode::PacketFrame;
use valence_protocol::packets::handshaking::handshake_c2s::HandshakeNextState;
use valence_protocol::packets::handshaking::HandshakeC2s;
use valence_protocol::packets::login::{
    LoginCompressionS2c, LoginDisconnectS2c, LoginHelloC2s, LoginHelloS2c, LoginKeyC2s,
    LoginSuccessS2c,
};
use valence_protocol::packets::play::DisconnectS2c;
use valence_protocol::packets::status::{
    QueryPingC2s, QueryPongS2c, QueryRequestC2s, QueryResponseS2c,
};
use valence_protocol::text::{Color, IntoText, Text};
use valence_protocol::uuid::Uuid;
use valence_protocol::{Packet, VarInt};
use vstd::prelude::*;
use vstd::slice::slice_subrange;

verus! {

/// What a client asks for with its handshake.
#[derive(Clone, Copy, Debug, PartialEq, Eq, Structural)]
pub enum NextState {
    Status,
    Login,
}

/// One property of a player's profile.
#[derive(Clone, Debug, PartialEq, Eq)]
pub struct Property {
    pub name: String,
    pub value: String,
    pub signature: Option<String>,
}

/// A property as plain values: its name, its value and its signature.
pub type PropertyView = (Seq<char>, Seq<char>, Option<Seq<char>>);

/// The signature of a property as a plain value.
pub open spec fn signature_view(signature: Option<String>) -> Option<Seq<char>> {
    match signature {
        Some(s) => Some(s@),
        None => None,
    }
}

/// A list of properties as plain values.
pub open spec fn property_views(properties: Seq<Property>) -> Seq<PropertyView> {
    Seq::new(
        properties.len(),
        |i: int| (properties[i].name@, properties[i].value@, signature_view(properties[i].signature)),
    )
}

/// The fields of a handshake.
#[derive(Clone, Debug, PartialEq, Eq)]
pub struct Handshake {
    pub protocol_version: i32,
    pub server_address: String,
    pub server_port: u16,
    pub next_state: NextState,
}

/// The fields of a login start.
#[derive(Clone, Debug, PartialEq, Eq)]
pub struct LoginStart {
    pub username: String,
    pub profile_id: Option<u128>,
}

/// The fields of an answer to the encryption request.
#[derive(Clone, Debug, PartialEq, Eq)]
pub struct EncryptionResponse {
    pub shared_secret: Vec<u8>,
    pub verify_token: Vec<u8>,
}

/// The fields of a login success.
#[derive(Clone, Debug, PartialEq, Eq)]
pub struct LoginSuccess {
    pub uuid: u128,
    pub username: String,
    pub properties: Vec<Property>,
}

/// A packet that the proxy reads.
#[derive(Clone, Debug, PartialEq, Eq)]
pub enum Incoming {
    Handshake { protocol_version: i32, server_address: String, server_port: u16, next_state: NextState },
    StatusRequest,
    PingRequest { payload: i64 },
    LoginStart { username: String, profile_id: Option<u128> },
    EncryptionResponse { shared_secret: Vec<u8>, verify_token: Vec<u8> },
    SetCompression { threshold: i32 },
    LoginSuccess { uuid: u128, username: String, properties: Vec<Property> },
}

/// The packet that the proxy waits for.
#[derive(Clone, Copy, Debug, PartialEq, Eq, Structural)]
pub enum Expect {
    Handshake,
    StatusRequest,
    PingRequest,
    LoginStart,
    EncryptionResponse,
    SetCompression,
    LoginSuccess,
}

/// A packet that the proxy writes.
#[derive(Clone, Debug, PartialEq, Eq)]
pub enum Outgoing {
    /// To a backend.
    Handshake { protocol_version: i32, server_address: String, server_port: u16, next_state: NextState },
    /// To a backend.
    LoginStart { username: String, profile_id: Option<u128> },
    StatusResponse { json: String },
    PingResponse { payload: i64 },
    EncryptionRequest { server_id: String, public_key: Vec<u8>, verify_token: Vec<u8> },
    SetCompression { threshold: i32 },
    LoginSuccess { uuid: u128, username: String, properties: Vec<Property> },
    /// Ends a login, with a reason that the client translates from `key`.
    DisconnectLogin { key: String },
    /// Ends play, with `message` shown in the colour `color`, which is the name
    /// of a colour of the game or `#` and six hexadecimal digits.
    DisconnectPlay { message: String, color: String },
}

/// Why a packet could not be read or written.
#[derive(Clone, Copy, Debug, PartialEq, Eq, Structural)]
pub enum PacketError {
    /// The body does not begin with a whole packet identifier.
    MissingId,
    /// The body is not the expected packet: another identifier, fields that
    /// cannot be read, or bytes left over behind the fields.
    Rejected,
    /// The packet's fields cannot be written.
    Unwritable,
}

/// What the fields `fields` behind the identifier `id` are read as where a
/// handshake is expected; `None` where they are no handshake.
pub uninterp spec fn handshake_read(id: i32, fields: Seq<u8>) -> Option<Handshake>;

/// The identifier of a status request.
pub const STATUS_REQUEST_ID: i32 = 0;

/// The identifier of a ping request.
pub const PING_REQUEST_ID: i32 = 1;

/// The identifier of a ping response.
pub const PING_RESPONSE_ID: i32 = 1;

/// The identifier of the packet that sets the compression threshold.
pub const SET_COMPRESSION_ID: i32 = 3;

/// The signed integer of 64 bits whose two's-complement value is `unsigned`.
pub open spec fn signed64(unsigned: int) -> i64 {
    if unsigned < 0x8000_0000_0000_0000 {
        unsigned as i64
    } else {
        (unsigned - 0x1_0000_0000_0000_0000) as i64
    }
}

/// The unsigned two's-complement value of `value`.
pub open spec fn unsigned64(value: i64) -> int {
    if value >= 0 {
        value as int
    } else {
        value + 0x1_0000_0000_0000_0000
    }
}

/// The last `width` bytes of the number `value` in base 256, most significant
/// byte first.
pub open spec fn be_bytes(value: int, width: nat) -> Seq<u8>
    decreases width,
{
    if width == 0 {
        Seq::empty()
    } else {
        be_bytes(value / 256, (width - 1) as nat).push((value % 256) as u8)
    }
}

/// Whether the fields behind the identifier are a status request: it has the
/// identifier of one and no fields.
pub open spec fn status_request_read(id: i32, fields: Seq<u8>) -> bool {
    id == STATUS_REQUEST_ID && fields.len() == 0
}

/// The payload of the ping request that the fields behind the identifier are:
/// eight bytes, most significant first.
pub open spec fn ping_request_read(id: i32, fields: Seq<u8>) -> Option<i64> {
    if id == PING_REQUEST_ID && fields.len() == 8 {
        Some(signed64(be_value(fields)))
    } else {
        None
    }
}

/// The login start that the fields behind the identifier are.
pub uninterp spec fn login_start_read(id: i32, fields: Seq<u8>) -> Option<LoginStart>;

/// The answer to the encryption request that the fields behind the identifier
/// are.
pub uninterp spec fn encryption_response_read(id: i32, fields: Seq<u8>) -> Option<
    EncryptionResponse,
>;

/// The compression threshold that the fields behind the identifier set: one
/// variable-length integer and nothing behind it.
pub open spec fn set_compression_read(id: i32, fields: Seq<u8>) -> Option<i32> {
    match decoded(fields) {
        Ok((threshold, taken)) => if id == SET_COMPRESSION_ID && taken == fields.len() {
            Some(threshold)
        } else {
            None
        },
        Err(_) => None,
    }
}

/// The login success that the fields behind the identifier are.
pub uninterp spec fn login_success_read(id: i32, fields: Seq<u8>) -> Option<LoginSuccess>;

/// The body of a handshake with these fields, `login` saying which state it
/// asks for; `None` where the fields cannot be written.
pub uninterp spec fn handshake_written(
    protocol_version: i32,
    server_address: Seq<char>,
    server_port: u16,
    login: bool,
) -> Option<Seq<u8>>;

/// The body of a login start with these fields.
pub uninterp spec fn login_start_written(username: Seq<char>, profile_id: Option<u128>) -> Option<
    Seq<u8>,
>;

/// The body of a status response that carries `json`.
pub uninterp spec fn status_response_written(json: Seq<char>) -> Option<Seq<u8>>;

/// The body of a ping response that carries `payload`: the identifier, then
/// the payload in eight bytes, most significant first.
pub open spec fn ping_response_written(payload: i64) -> Option<Seq<u8>> {
    Some(varint_bytes(PING_RESPONSE_ID) + be_bytes(unsigned64(payload), 8))
}

/// The body of an encryption request with these fields.
pub uninterp spec fn encryption_request_written(
    server_id: Seq<char>,
    public_key: Seq<u8>,
    verify_token: Seq<u8>,
) -> Option<Seq<u8>>;

/// The body of a packet that sets the compression threshold: the identifier,
/// then the threshold as a variable-length integer.
pub open spec fn set_compression_written(threshold: i32) -> Option<Seq<u8>> {
    Some(varint_bytes(SET_COMPRESSION_ID) + varint_bytes(threshold))
}

/// The body of a login success with these fields.
pub uninterp spec fn login_success_written(
    uuid: u128,
    username: Seq<char>,
    properties: Seq<PropertyView>,
) -> Option<Seq<u8>>;

/// The body of a packet that ends a login with the translated reason `key`.
pub uninterp spec fn disconnect_login_written(key: Seq<char>) -> Option<Seq<u8>>;

/// The body of a packet that ends play with `message` in the colour `color`;
/// `None` where the colour is not known or the packet cannot be written.
pub uninterp spec fn disconnect_play_written(message: Seq<char>, color: Seq<char>) -> Option<
    Seq<u8>,
>;

/// Reads a handshake with `PacketFrame::decode::<HandshakeC2s>`, which checks
/// the identifier and that no byte is left over.
#[verifier::external_body]
fn read_handshake(id: i32, fields: &[u8]) -> (r: Option<Handshake>)
    ensures
        r == handshake_read(id, fields@),
{
    let frame = PacketFrame { id, body: BytesMut::from(fields) };
    let p = frame.decode::<HandshakeC2s>().ok()?;
    let next_state = match p.next_state {
        HandshakeNextState::Status => NextState::Status,
        HandshakeNextState::Login => NextState::Login,
    };
    Some(Handshake {
        protocol_version: p.protocol_version.0,
        server_address: p.server_address.to_owned(),
        server_port: p.server_port,
        next_state,
    })
}

/// Reads a status request with `PacketFrame::decode::<QueryRequestC2s>`.
/// Claimed, as the source shows: it accepts the identifier of the packet with
/// no byte behind it, and nothing else.
#[verifier::external_body]
fn read_status_request(id: i32, fields: &[u8]) -> (r: bool)
    ensures
        r == status_request_read(id, fields@),
{
    let frame = PacketFrame { id, body: BytesMut::from(fields) };
    frame.decode::<QueryRequestC2s>().is_ok()
}

/// Reads a ping request with `PacketFrame::decode::<QueryPingC2s>`. Claimed,
/// as the source shows: it accepts the identifier of the packet with eight
/// bytes behind it, which are the payload, most significant byte first.
#[verifier::external_body]
fn read_ping_request(id: i32, fields: &[u8]) -> (r: Option<i64>)
    ensures
        r == ping_request_read(id, fields@),
{
    let frame = PacketFrame { id, body: BytesMut::from(fields) };
    let p = frame.decode::<QueryPingC2s>().ok()?;
    Some(p.payload as i64)
}

/// Reads a login start with `PacketFrame::decode::<LoginHelloC2s>`.
#[verifier::external_body]
fn read_login_start(id: i32, fields: &[u8]) -> (r: Option<LoginStart>)
    ensures
        r == login_start_read(id, fields@),
{
    let frame = PacketFrame { id, body: BytesMut::from(fields) };
    let p = frame.decode::<LoginHelloC2s>().ok()?;
    Some(LoginStart {
        username: p.username.to_owned(),
        profile_id: p.profile_id.map(|u| u.as_u128()),
    })
}

/// Reads an answer to the encryption request with
/// `PacketFrame::decode::<LoginKeyC2s>`.
#[verifier::external_body]
fn read_encryption_response(id: i32, fields: &[u8]) -> (r: Option<EncryptionResponse>)
    ensures
        r == encryption_response_read(id, fields@),
{
    let frame = PacketFrame { id, body: BytesMut::from(fields) };
    let p = frame.decode::<LoginKeyC2s>().ok()?;
    Some(EncryptionResponse {
        shared_secret: p.shared_secret.to_vec(),
        verify_token: p.verify_token.to_vec(),
    })
}

/// Reads a compression threshold with
/// `PacketFrame::decode::<LoginCompressionS2c>`. Claimed, as the source shows:
/// it accepts the identifier of the packet with one variable-length integer
/// behind it, which is the threshold, and nothing else.
#[verifier::external_body]
fn read_set_compression(id: i32, fields: &[u8]) -> (r: Option<i32>)
    ensures
        r == set_compression_read(id, fields@),
{
    let frame = PacketFrame { id, body: BytesMut::from(fields) };
    let p = frame.decode::<LoginCompressionS2c>().ok()?;
    Some(p.threshold.0)
}

/// Reads a login success with `PacketFrame::decode::<LoginSuccessS2c>`.
#[verifier::external_body]
fn read_login_success(id: i32, fields: &[u8]) -> (r: Option<LoginSuccess>)
    ensures
        r == login_success_read(id, fields@),
{
    let frame = PacketFrame { id, body: BytesMut::from(fields) };
    let p = frame.decode::<LoginSuccessS2c>().ok()?;
    let properties = p.properties.iter().map(
        |q| Property { name: q.name.clone(), value: q.value.clone(), signature: q.signature.clone() },
    ).collect();
    Some(LoginSuccess { uuid: p.uuid.as_u128(), username: p.username.to_owned(), properties })
}

/// Writes a handshake with `HandshakeC2s::encode_with_id`.
#[verifier::external_body]
fn write_handshake(protocol_version: i32, server_address: &str, server_port: u16, login: bool) -> (r:
    Option<Vec<u8>>)
    ensures
        r matches Some(v) ==> handshake_written(protocol_version, server_address@, server_port, login)
            == Some(v@),
        r is None ==> handshake_written(protocol_version, server_address@, server_port, login)
            is None,
{
    let next_state = if login {
        HandshakeNextState::Login
    } else {
        HandshakeNextState::Status
    };
    let p = HandshakeC2s { protocol_version: VarInt(protocol_version), server_address, server_port, next_state };
    let mut out = Vec::new();
    p.encode_with_id(&mut out).ok().map(|_| out)
}

/// Writes a login start with `LoginHelloC2s::encode_with_id`.
#[verifier::external_body]
fn write_login_start(username: &str, profile_id: Option<u128>) -> (r: Option<Vec<u8>>)
    ensures
        r matches Some(v) ==> login_start_written(username@, profile_id) == Some(v@),
        r is None ==> login_start_written(username@, profile_id) is None,
{
    let p = LoginHelloC2s { username, profile_id: profile_id.map(Uuid::from_u128) };
    let mut out = Vec::new();
    p.encode_with_id(&mut out).ok().map(|_| out)
}

/// Writes a status response with `QueryResponseS2c::encode_with_id`.
#[verifier::external_body]
fn write_status_response(json: &str) -> (r: Option<Vec<u8>>)
    ensures
        r matches Some(v) ==> status_response_written(json@) == Some(v@),
        r is None ==> status_response_written(json@) is None,
{
    let mut out = Vec::new();
    QueryResponseS2c { json }.encode_with_id(&mut out).ok().map(|_| out)
}

/// Writes a ping response with `QueryPongS2c::encode_with_id`. Claimed, as the
/// source shows: it writes the identifier and the payload in eight bytes, most
/// significant first, and writing into a vector does not fail.
#[verifier::external_body]
fn write_ping_response(payload: i64) -> (r: Option<Vec<u8>>)
    ensures
        r matches Some(v) ==> ping_response_written(payload) == Some(v@),
        r is None ==> ping_response_written(payload) is None,
{
    let mut out = Vec::new();
    QueryPongS2c { payload: payload as u64 }.encode_with_id(&mut out).ok().map(|_| out)
}

/// Writes an encryption request with `LoginHelloS2c::encode_with_id`.
#[verifier::external_body]
fn write_encryption_request(server_id: &str, public_key: &[u8], verify_token: &[u8]) -> (r: Option<
    Vec<u8>,
>)
    ensures
        r matches Some(v) ==> encryption_request_written(server_id@, public_key@, verify_token@)
            == Some(v@),
        r is None ==> encryption_request_written(server_id@, public_key@, verify_token@) is None,
{
    let mut out = Vec::new();
    LoginHelloS2c { server_id, public_key, verify_token }.encode_with_id(&mut out).ok().map(|_| out)
}

/// Writes a compression threshold with `LoginCompressionS2c::encode_with_id`.
/// Claimed, as the source shows: it writes the identifier and the threshold,
/// both as variable-length integers, and writing into a vector does not fail.
#[verifier::external_body]
fn write_set_compression(threshold: i32) -> (r: Option<Vec<u8>>)
    ensures
        r matches Some(v) ==> set_compression_written(threshold) == Some(v@),
        r is None ==> set_compression_written(threshold) is None,
{
    let mut out = Vec::new();
    LoginCompressionS2c { threshold: VarInt(threshold) }.encode_with_id(&mut out).ok().map(|_| out)
}

/// Writes a login success with `LoginSuccessS2c::encode_with_id`.
#[verifier::external_body]
fn write_login_success(uuid: u128, username: &str, properties: &Vec<Property>) -> (r: Option<
    Vec<u8>,
>)
    ensures
        r matches Some(v) ==> login_success_written(uuid, username@, property_views(properties@))
            == Some(v@),
        r is None ==> login_success_written(uuid, username@, property_views(properties@)) is None,
{
    let properties: Vec<valence_protocol::Property> = properties.iter().map(
        |q| valence_protocol::Property { name: q.name.clone(), value: q.value.clone(), signature: q.signature.clone() },
    ).collect();
    let p = LoginSuccessS2c { uuid: Uuid::from_u128(uuid), username, properties: Cow::Owned(properties) };
    let mut out = Vec::new();
    p.encode_with_id(&mut out).ok().map(|_| out)
}

/// Writes, with `LoginDisconnectS2c::encode_with_id`, a packet that ends a
/// login; its reason is `Text::translate` of `key` without arguments.
#[verifier::external_body]
fn write_disconnect_login(key: &str) -> (r: Option<Vec<u8>>)
    ensures
        r matches Some(v) ==> disconnect_login_written(key@) == Some(v@),
        r is None ==> disconnect_login_written(key@) is None,
{
    let reason = Text::translate(key.to_owned(), Vec::new());
    let mut out = Vec::new();
    LoginDisconnectS2c { reason: Cow::Owned(reason) }.encode_with_id(&mut out).ok().map(|_| out)
}

/// Writes, with `DisconnectS2c::encode_with_id`, a packet that ends play; its
/// reason is `message` as text, in the colour that `Color::try_from` makes of
/// `color`.
#[verifier::external_body]
fn write_disconnect_play(message: &str, color: &str) -> (r: Option<Vec<u8>>)
    ensures
        r matches Some(v) ==> disconnect_play_written(message@, color@) == Some(v@),
        r is None ==> disconnect_play_written(message@, color@) is None,
{
    let color = Color::try_from(color).ok()?;
    let reason = message.to_owned().into_text().color(color);
    let mut out = Vec::new();
    DisconnectS2c { reason: Cow::Owned(reason) }.encode_with_id(&mut out).ok().map(|_| out)
}

/// What the fields behind an identifier are read as, by the packet expected.
pub open spec fn fields_read(expect: Expect, id: i32, fields: Seq<u8>) -> Option<Incoming> {
    match expect {
        Expect::Handshake => match handshake_read(id, fields) {
            Some(p) => Some(
                Incoming::Handshake {
                    protocol_version: p.protocol_version,
                    server_address: p.server_address,
                    server_port: p.server_port,
                    next_state: p.next_state,
                },
            ),
            None => None,
        },
        Expect::StatusRequest => if status_request_read(id, fields) {
            Some(Incoming::StatusRequest)
        } else {
            None
        },
        Expect::PingRequest => match ping_request_read(id, fields) {
            Some(payload) => Some(Incoming::PingRequest { payload }),
            None => None,
        },
        Expect::LoginStart => match login_start_read(id, fields) {
            Some(p) => Some(Incoming::LoginStart { username: p.username, profile_id: p.profile_id }),
            None => None,
        },
        Expect::EncryptionResponse => match encryption_response_read(id, fields) {
            Some(p) => Some(
                Incoming::EncryptionResponse {
                    shared_secret: p.shared_secret,
                    verify_token: p.verify_token,
                },
            ),
            None => None,
        },
        Expect::SetCompression => match set_compression_read(id, fields) {
            Some(threshold) => Some(Incoming::SetCompression { threshold }),
            None => None,
        },
        Expect::LoginSuccess => match login_success_read(id, fields) {
            Some(p) => Some(
                Incoming::LoginSuccess {
                    uuid: p.uuid,
                    username: p.username,
                    properties: p.properties,
                },
            ),
            None => None,
        },
    }
}

/// Whether `packet` is the packet that `expect` stands for.
pub open spec fn is_expected(expect: Expect, packet: Incoming) -> bool {
    match expect {
        Expect::Handshake => packet is Handshake,
        Expect::StatusRequest => packet is StatusRequest,
        Expect::PingRequest => packet is PingRequest,
        Expect::LoginStart => packet is LoginStart,
        Expect::EncryptionResponse => packet is EncryptionResponse,
        Expect::SetCompression => packet is SetCompression,
        Expect::LoginSuccess => packet is LoginSuccess,
    }
}

/// What the body of a frame is read as where `expect` is expected: the body
/// begins with the packet's identifier as a variable-length integer, and the
/// fields follow.
pub open spec fn incoming_read(expect: Expect, body: Seq<u8>) -> Result<Incoming, PacketError> {
    match decoded(body) {
        Err(_) => Err(PacketError::MissingId),
        Ok((id, taken)) => match fields_read(expect, id, body.skip(taken as int)) {
            Some(packet) => Ok(packet),
            None => Err(PacketError::Rejected),
        },
    }
}

/// The body of the frame that carries `packet`: its identifier, then its
/// fields.
pub open spec fn outgoing_written(packet: Outgoing) -> Option<Seq<u8>> {
    match packet {
        Outgoing::Handshake { protocol_version, server_address, server_port, next_state } =>
            handshake_written(
            protocol_version,
            server_address@,
            server_port,
            next_state == NextState::Login,
        ),
        Outgoing::LoginStart { username, profile_id } => login_start_written(
            username@,
            profile_id,
        ),
        Outgoing::StatusResponse { json } => status_response_written(json@),
        Outgoing::PingResponse { payload } => ping_response_written(payload),
        Outgoing::EncryptionRequest { server_id, public_key, verify_token } =>
            encryption_request_written(server_id@, public_key@, verify_token@),
        Outgoing::SetCompression { threshold } => set_compression_written(threshold),
        Outgoing::LoginSuccess { uuid, username, properties } => login_success_written(
            uuid,
            username@,
            property_views(properties@),
        ),
        Outgoing::DisconnectLogin { key } => disconnect_login_written(key@),
        Outgoing::DisconnectPlay { message, color } => disconnect_play_written(
            message@,
            color@,
        ),
    }
}

/// Reads the body of a frame as the packet that is expected. What is read is
/// that packet and no other.
pub fn decode_incoming(expect: Expect, body: &[u8]) -> (r: Result<Incoming, PacketError>)
    ensures
        r == incoming_read(expect, body@),
        r matches Ok(packet) ==> is_expected(expect, packet),
{
    let (id, taken) = match decode_partial(body) {
        Ok(found) => found,
        Err(_) => {
            return Err(PacketError::MissingId);
        },
    };
    let fields = slice_subrange(body, taken, body.len());
    assert(fields@ =~= body@.skip(taken as int));
    let read = match expect {
        Expect::Handshake => match read_handshake(id, fields) {
            Some(p) => Some(
                Incoming::Handshake {
                    protocol_version: p.protocol_version,
                    server_address: p.server_address,
                    server_port: p.server_port,
                    next_state: p.next_state,
                },
            ),
            None => None,
        },
        Expect::StatusRequest => if read_status_request(id, fields) {
            Some(Incoming::StatusRequest)
        } else {
            None
        },
        Expect::PingRequest => match read_ping_request(id, fields) {
            Some(payload) => Some(Incoming::PingRequest { payload }),
            None => None,
        },
        Expect::LoginStart => match read_login_start(id, fields) {
            Some(p) => Some(Incoming::LoginStart { username: p.username, profile_id: p.profile_id }),
            None => None,
        },
        Expect::EncryptionResponse => match read_encryption_response(id, fields) {
            Some(p) => Some(
                Incoming::EncryptionResponse {
                    shared_secret: p.shared_secret,
                    verify_token: p.verify_token,
                },
            ),
            None => None,
        },
        Expect::SetCompression => match read_set_compression(id, fields) {
            Some(threshold) => Some(Incoming::SetCompression { threshold }),
            None => None,
        },
        Expect::LoginSuccess => match read_login_success(id, fields) {
            Some(p) => Some(
                Incoming::LoginSuccess {
                    uuid: p.uuid,
                    username: p.username,
                    properties: p.properties,
                },
            ),
            None => None,
        },
    };
    match read {
        Some(packet) => Ok(packet),
        None => Err(PacketError::Rejected),
    }
}

/// What is read where a packet is expected is that packet.
pub proof fn lemma_read_as_expected(expect: Expect, body: Seq<u8>)
    ensures
        incoming_read(expect, body) matches Ok(packet) ==> is_expected(expect, packet),
{
}

/// Writes the body of the frame that carries `packet`.
pub fn encode_outgoing(packet: &Outgoing) -> (r: Result<Vec<u8>, PacketError>)
    ensures
        match outgoing_written(*packet) {
            Some(body) => r matches Ok(v) && v@ == body,
            None => r == Err::<Vec<u8>, PacketError>(PacketError::Unwritable),
        },
{
    let written = match packet {
        Outgoing::Handshake { protocol_version, server_address, server_port, next_state } => {
            let login = match next_state {
                NextState::Login => true,
                NextState::Status => false,
            };
            write_handshake(*protocol_version, server_address.as_str(), *server_port, login)
        },
        Outgoing::LoginStart { username, profile_id } => write_login_start(
            username.as_str(),
            *profile_id,
        ),
        Outgoing::StatusResponse { json } => write_status_response(json.as_str()),
        Outgoing::PingResponse { payload } => write_ping_response(*payload),
        Outgoing::EncryptionRequest { server_id, public_key, verify_token } =>
            write_encryption_request(
            server_id.as_str(),
            public_key.as_slice(),
            verify_token.as_slice(),
        ),
        Outgoing::SetCompression { threshold } => write_set_compression(*threshold),
        Outgoing::LoginSuccess { uuid, username, properties } => write_login_success(
            *uuid,
            username.as_str(),
            properties,
        ),
        Outgoing::DisconnectLogin { key } => write_disconnect_login(key.as_str()),
        Outgoing::DisconnectPlay { message, color } => write_disconnect_play(
            message.as_str(),
            color.as_str(),
        ),
    };
    match written {
        Some(body) => Ok(body),
        None => Err(PacketError::Unwritable),
    }
}

} // verus!

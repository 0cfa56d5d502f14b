//! One session of the proxy, from the client's handshake to play.
//!
//! A session is driven from outside: whoever holds the sockets hands in what
//! was read, what the session server answered and how dialling the backend
//! went, and is told what to write and what to do next. The session itself
//! only decides.

use crate::connection::client_info::ClientInfo;
use crate::connection::connection::{
    compressing, compression_set, cross, encrypting, fed, frame_taken, fresh, packet_received,
    piped, written_sent, Connection, ConnectionError, ConnectionState,
};
use crate::digest::{offline_uuid_of, session_digest, session_digest_of};
use crate::keypair::rsa_decrypted;
use crate::lure::{
    accepted_secret, check_encryption_response, check_profile,
    default_server_of, dial_message, failure_color, forwarded_address, forwarded_address_of,
    is_valid_username,
    no_host_message, no_server_message, server_of, session_url, session_url_of, status_json,
    status_json_of, valid_username, verified_profile, GameProfile, LoginError, Lure,
};
use crate::packets::{
    decode_incoming, disconnect_login_written, disconnect_play_written,
    encryption_request_written, handshake_written, incoming_read, login_start_written,
    login_success_written, outgoing_written, ping_response_written, property_views,
    signature_view, status_response_written, Expect, Incoming, NextState, Outgoing, Property,
    PropertyView,
};
use crate::varint::{to_unsigned, unsigned_value};
use vstd::pervasive::unreached;
use vstd::prelude::*;
use vstd::string::StringExecFns;

verus! {

/// How far a session has come.
#[derive(Clone, Copy, Debug, PartialEq, Eq, Structural)]
pub enum Phase {
    /// The client's handshake is awaited.
    Handshake,
    /// The client's status request is awaited.
    Status,
    /// The client's ping is awaited.
    Ping,
    /// The client's login start is awaited.
    Login,
    /// The client's answer to the encryption request is awaited.
    Encryption,
    /// The session server's answer is awaited.
    Profile,
    /// The outcome of dialling the backend is awaited.
    Dial,
    /// The backend's answer to the login is awaited; it has not set a
    /// compression threshold.
    Backend,
    /// The backend's answer to the login is awaited; it has set a compression
    /// threshold.
    BackendCompressed,
    /// Frames are passed on between client and backend.
    Play,
    /// The session is over.
    Closed,
}

/// Why a session came to an end.
#[derive(Clone, Copy, Debug, PartialEq, Eq, Structural)]
pub enum SessionError {
    /// A connection failed.
    Connection(ConnectionError),
    /// The login was refused.
    Login(LoginError),
    /// The table of hosts has no server for the client's host name.
    NoHost,
    /// The table of servers does not have the server that was found.
    NoServer,
    /// The backend could not be reached.
    Dial,
    /// Something was handed in that the session did not wait for.
    UnexpectedEvent,
}

/// What is handed in to a session.
#[derive(Clone, Debug, PartialEq, Eq)]
pub enum Event {
    /// Nothing new: the session goes on with what it holds.
    Poll,
    /// What was read from the client; nothing, where the client has closed.
    Client(Vec<u8>),
    /// What was read from the backend; nothing, where the backend has closed.
    Backend(Vec<u8>),
    /// The session server's answer: its status, and the profile in it where it
    /// holds one that can be read.
    Fetched { status: u16, profile: Option<GameProfile> },
    /// The backend was reached, at this address and port.
    Dialed { ip: String, port: u16 },
    /// The backend could not be reached, for this reason.
    DialFailed { error: String },
}

/// What whoever drives the session is to do next.
#[derive(Clone, Debug, PartialEq, Eq)]
pub enum Request {
    /// Hand in `Event::Poll`.
    Again,
    /// Read from the sockets and hand in what was read.
    Read,
    /// Ask the session server under `url` and hand in its answer.
    Fetch { url: String },
    /// Dial the server `server` at `address` and hand in how it went.
    Dial { server: String, address: String },
    /// End the session: it has come to its end.
    Finish,
    /// End the session: it has failed.
    Abort(SessionError),
}

/// A request as plain values.
pub enum RequestView {
    Again,
    Read,
    Fetch { url: Seq<char> },
    Dial { server: Seq<char>, address: Seq<char> },
    Finish,
    Abort(SessionError),
}

impl View for Request {
    type V = RequestView;

    open spec fn view(&self) -> RequestView {
        match *self {
            Request::Again => RequestView::Again,
            Request::Read => RequestView::Read,
            Request::Fetch { url } => RequestView::Fetch { url: url@ },
            Request::Dial { server, address } => RequestView::Dial {
                server: server@,
                address: address@,
            },
            Request::Finish => RequestView::Finish,
            Request::Abort(error) => RequestView::Abort(error),
        }
    }
}

/// What a session answers: bytes to write to the client, bytes to write to the
/// backend, both before anything else is done, and what to do then.
#[derive(Clone, Debug, PartialEq, Eq)]
pub struct Step {
    pub to_client: Vec<u8>,
    pub to_backend: Vec<u8>,
    pub request: Request,
}

/// A step as plain values.
pub struct StepView {
    pub to_client: Seq<u8>,
    pub to_backend: Seq<u8>,
    pub request: RequestView,
}

impl View for Step {
    type V = StepView;

    open spec fn view(&self) -> StepView {
        StepView {
            to_client: self.to_client@,
            to_backend: self.to_backend@,
            request: self.request@,
        }
    }
}

/// What a session is, as plain values.
pub struct SessionState {
    pub phase: Phase,
    /// The connection that is read from the client. Before play it is also
    /// written to the client, during play to the backend.
    pub client: ConnectionState,
    /// The connection that is read from the backend. Before play it is also
    /// written to the backend, during play to the client.
    pub backend: ConnectionState,
    /// The token that the client has to send back encrypted.
    pub verify_token: Seq<u8>,
    pub protocol_version: i32,
    pub hostname: Seq<char>,
    pub username: Seq<char>,
    pub uuid: u128,
    pub properties: Seq<PropertyView>,
    /// The name of the server that the client is routed to.
    pub server: Seq<char>,
}

/// One session.
pub struct Session {
    pub phase: Phase,
    pub client: Connection,
    pub backend: Connection,
    pub verify_token: Vec<u8>,
    pub protocol_version: i32,
    pub hostname: String,
    pub username: String,
    pub uuid: u128,
    pub properties: Vec<Property>,
    pub server: String,
}

impl View for Session {
    type V = SessionState;

    open spec fn view(&self) -> SessionState {
        SessionState {
            phase: self.phase,
            client: self.client@,
            backend: self.backend@,
            verify_token: self.verify_token@,
            protocol_version: self.protocol_version,
            hostname: self.hostname@,
            username: self.username@,
            uuid: self.uuid,
            properties: property_views(self.properties@),
            server: self.server@,
        }
    }
}

/// Whether the client's connection is still in the clear in `phase`.
pub open spec fn before_encryption(phase: Phase) -> bool {
    phase == Phase::Handshake || phase == Phase::Status || phase == Phase::Ping || phase
        == Phase::Login || phase == Phase::Encryption
}

/// Whether the session is at rest between two steps: its verify token has
/// sixteen bytes, and nothing is pending on either connection, because every
/// step hands out all that it has written.
pub open spec fn settled(s: SessionState) -> bool {
    &&& s.verify_token.len() == 16
    &&& s.client.enc.pending.len() == 0
    &&& s.backend.enc.pending.len() == 0
}

/// What holds of every session: it is at rest, and in the phases before the
/// client has answered the encryption request, its connection has no cipher.
pub open spec fn state_wf(s: SessionState) -> bool {
    &&& settled(s)
    &&& before_encryption(s.phase) ==> s.client.enc.cipher is None && s.client.dec.cipher
        is None
}

/// A session that has just begun, with a client at `address`.
pub open spec fn begun(address: Seq<char>, verify_token: Seq<u8>) -> SessionState {
    SessionState {
        phase: Phase::Handshake,
        client: fresh(address),
        backend: fresh(Seq::empty()),
        verify_token,
        protocol_version: 0,
        hostname: Seq::empty(),
        username: Seq::empty(),
        uuid: 0,
        properties: Seq::empty(),
        server: Seq::empty(),
    }
}

/// A step that writes nothing.
pub open spec fn quiet(request: RequestView) -> StepView {
    StepView { to_client: Seq::empty(), to_backend: Seq::empty(), request }
}

/// The end of the session `s` for the reason `error`, after `to_client` was
/// written to the client.
pub open spec fn closed(s: SessionState, to_client: Seq<u8>, error: SessionError) -> (
    SessionState,
    StepView,
) {
    (
        SessionState { phase: Phase::Closed, ..s },
        StepView {
            to_client,
            to_backend: Seq::empty(),
            request: RequestView::Abort(error),
        },
    )
}

/// Packets that were sent one after another on one connection: the connection
/// afterwards, all that was handed out to be written, and the failure at which
/// the sending stopped, if it did.
pub struct Sending {
    pub connection: ConnectionState,
    pub out: Seq<u8>,
    pub failed: Option<ConnectionError>,
}

/// Nothing sent yet on `connection`.
pub open spec fn nothing_sent(connection: ConnectionState) -> Sending {
    Sending { connection, out: Seq::empty(), failed: None }
}

/// `before`, and then the packet whose body is `written`, unless the sending
/// had stopped.
pub open spec fn also_sent(before: Sending, written: Option<Seq<u8>>) -> Sending {
    if before.failed is Some {
        before
    } else {
        let (sent, connection) = written_sent(before.connection, written);
        match sent {
            Ok(bytes) => Sending { connection, out: before.out + bytes, failed: None },
            Err(e) => Sending { connection, out: before.out, failed: Some(e) },
        }
    }
}

/// `before`, and then the compression threshold told and compression turned
/// on, unless the sending had stopped.
pub open spec fn also_compressing(before: Sending, threshold: u32) -> Sending {
    if before.failed is Some {
        before
    } else {
        let (sent, connection) = compression_set(before.connection, threshold);
        match sent {
            Ok(bytes) => Sending { connection, out: before.out + bytes, failed: None },
            Err(e) => Sending { connection, out: before.out, failed: Some(e) },
        }
    }
}

/// The step in which the client is sent one packet, whose body is `written`,
/// and the session goes over to `next`.
pub open spec fn replied(
    s: SessionState,
    written: Option<Seq<u8>>,
    next: Phase,
    request: RequestView,
) -> (SessionState, StepView) {
    let sending = also_sent(nothing_sent(s.client), written);
    let after = SessionState { client: sending.connection, ..s };
    match sending.failed {
        Some(e) => closed(after, sending.out, SessionError::Connection(e)),
        None => (
            SessionState { phase: next, ..after },
            StepView { to_client: sending.out, to_backend: Seq::empty(), request },
        ),
    }
}

/// The step of a session that awaits the handshake.
pub open spec fn handshake_step(s: SessionState) -> (SessionState, StepView) {
    let (received, client) = packet_received(s.client, Expect::Handshake);
    let after = SessionState { client, ..s };
    match received {
        Err(e) => closed(after, Seq::empty(), SessionError::Connection(e)),
        Ok(None) => (after, quiet(RequestView::Read)),
        Ok(Some(packet)) => (
            SessionState {
                phase: match packet->Handshake_next_state {
                    NextState::Status => Phase::Status,
                    NextState::Login => Phase::Login,
                },
                protocol_version: packet->Handshake_protocol_version,
                hostname: packet->Handshake_server_address@,
                ..after
            },
            quiet(RequestView::Again),
        ),
    }
}

/// The icon of a status: the proxy's, or the empty text where it has none.
pub open spec fn favicon_text(favicon: Option<String>) -> Seq<char> {
    match favicon {
        Some(icon) => icon@,
        None => Seq::empty(),
    }
}

/// The step of a session that awaits the status request.
pub open spec fn status_step(lure: Lure, s: SessionState) -> (SessionState, StepView) {
    let (received, client) = packet_received(s.client, Expect::StatusRequest);
    let after = SessionState { client, ..s };
    match received {
        Err(e) => closed(after, Seq::empty(), SessionError::Connection(e)),
        Ok(None) => (after, quiet(RequestView::Read)),
        Ok(Some(_)) => match status_json_of(
            s.protocol_version,
            lure.config.proxy.max_players,
            lure.config.proxy.motd@,
            favicon_text(lure.favicon),
        ) {
            Some(json) => replied(
                after,
                status_response_written(json),
                Phase::Ping,
                RequestView::Again,
            ),
            None => closed(after, Seq::empty(), SessionError::Login(LoginError::Json)),
        },
    }
}

/// The step of a session that awaits the ping.
pub open spec fn ping_step(s: SessionState) -> (SessionState, StepView) {
    let (received, client) = packet_received(s.client, Expect::PingRequest);
    let after = SessionState { client, ..s };
    match received {
        Err(e) => closed(after, Seq::empty(), SessionError::Connection(e)),
        Ok(None) => (after, quiet(RequestView::Read)),
        Ok(Some(packet)) => replied(
            after,
            ping_response_written(packet->PingRequest_payload),
            Phase::Closed,
            RequestView::Finish,
        ),
    }
}

/// The end of a session for the reason `error`, or for the failure at which
/// `sending` stopped, after what `sending` handed out was written to the
/// client.
pub open spec fn closed_after(s: SessionState, sending: Sending, error: SessionError) -> (
    SessionState,
    StepView,
) {
    closed(
        SessionState { client: sending.connection, ..s },
        sending.out,
        match sending.failed {
            Some(e) => SessionError::Connection(e),
            None => error,
        },
    )
}

/// The step in which a backend is looked up for a client that has logged in.
/// Where the tables name a server for the client's host name, the server is to
/// be dialled. Where they do not, the client is told so and the session ends.
pub open spec fn routed(lure: Lure, s: SessionState) -> (SessionState, StepView) {
    match default_server_of(lure.config.hosts@, s.hostname) {
        None => closed_after(
            s,
            also_sent(nothing_sent(s.client), disconnect_play_written(no_host_message(), failure_color())),
            SessionError::NoHost,
        ),
        Some(server) => match server_of(lure.config.servers@, server) {
            None => closed_after(
                s,
                also_sent(
                    nothing_sent(s.client),
                    disconnect_play_written(
                        no_server_message(server, s.hostname),
                        failure_color(),
                    ),
                ),
                SessionError::NoServer,
            ),
            Some(address) => (
                SessionState { phase: Phase::Dial, server, ..s },
                quiet(RequestView::Dial { server, address }),
            ),
        },
    }
}

/// What the client of `s` is sent once its login holds: the compression
/// threshold, where one is configured, after which compression is on; then the
/// login success.
pub open spec fn login_sent(lure: Lure, s: SessionState) -> Sending {
    let threshold = lure.config.proxy.compression_threshold;
    let start = nothing_sent(s.client);
    let first = if threshold > 0 {
        also_compressing(start, threshold)
    } else {
        start
    };
    also_sent(first, login_success_written(s.uuid, s.username, s.properties))
}

/// The step in which a login that holds is finished and a backend is looked
/// up: the client is sent what finishes the login, and then what the look-up
/// has to tell it.
pub open spec fn logged_in(lure: Lure, s: SessionState) -> (SessionState, StepView) {
    let sending = login_sent(lure, s);
    let after = SessionState { client: sending.connection, ..s };
    match sending.failed {
        Some(e) => closed(after, sending.out, SessionError::Connection(e)),
        None => {
            let (last, step) = routed(lure, after);
            (last, StepView { to_client: sending.out + step.to_client, ..step })
        },
    }
}

/// The step of a session that awaits the login start.
pub open spec fn login_step(lure: Lure, s: SessionState) -> (SessionState, StepView) {
    let (received, client) = packet_received(s.client, Expect::LoginStart);
    let after = SessionState { client, ..s };
    match received {
        Err(e) => closed(after, Seq::empty(), SessionError::Connection(e)),
        Ok(None) => (after, quiet(RequestView::Read)),
        Ok(Some(packet)) => if !valid_username(packet->LoginStart_username@) {
            closed(after, Seq::empty(), SessionError::Login(LoginError::BadUsername))
        } else if lure.config.proxy.online_mode {
            replied(
                SessionState { username: packet->LoginStart_username@, ..after },
                encryption_request_written(
                    Seq::empty(),
                    lure.keypair.public_key@,
                    s.verify_token,
                ),
                Phase::Encryption,
                RequestView::Again,
            )
        } else {
            logged_in(
                lure,
                SessionState {
                    username: packet->LoginStart_username@,
                    uuid: offline_uuid_of(packet->LoginStart_username@) as u128,
                    properties: Seq::empty(),
                    ..after
                },
            )
        },
    }
}

/// The client's address, where the session server is to check it.
pub open spec fn checked_ip(lure: Lure, s: SessionState) -> Option<Seq<char>> {
    if lure.config.proxy.prevent_proxy_connections {
        Some(s.client.address)
    } else {
        None
    }
}

/// The step of a session that awaits the answer to the encryption request,
/// where `secret` and `token` are what the two fields of the answer decrypt
/// to, `None` where a field does not decrypt.
pub open spec fn encryption_step(
    lure: Lure,
    s: SessionState,
    secret: Option<Seq<u8>>,
    token: Option<Seq<u8>>,
) -> (SessionState, StepView) {
    let (received, client) = packet_received(s.client, Expect::EncryptionResponse);
    let after = SessionState { client, ..s };
    match received {
        Err(e) => closed(after, Seq::empty(), SessionError::Connection(e)),
        Ok(None) => (after, quiet(RequestView::Read)),
        Ok(Some(_)) => match accepted_secret(
            s.verify_token,
            secret,
            token,
        ) {
            Err(e) => closed(after, Seq::empty(), SessionError::Login(e)),
            Ok(key) => (
                SessionState {
                    phase: Phase::Profile,
                    client: encrypting(client, key),
                    ..after
                },
                quiet(
                    RequestView::Fetch {
                        url: session_url_of(
                            s.username,
                            session_digest_of(Seq::empty(), key, lure.keypair.public_key@),
                            checked_ip(lure, s),
                        ),
                    },
                ),
            ),
        },
    }
}

/// What the two fields of the client's answer to the encryption request decrypt
/// to under the proxy's key, the shared secret first and the verify token
/// second; `None` where a field does not decrypt or no answer was read.
pub open spec fn answer_decrypted(lure: Lure, s: SessionState) -> (
    Option<Seq<u8>>,
    Option<Seq<u8>>,
) {
    match packet_received(s.client, Expect::EncryptionResponse).0 {
        Ok(Some(Incoming::EncryptionResponse { shared_secret, verify_token })) => (
            rsa_decrypted(lure.keypair.private_key, shared_secret@),
            rsa_decrypted(lure.keypair.private_key, verify_token@),
        ),
        _ => (None, None),
    }
}

/// The step of a session that awaits the answer to the encryption request: the
/// answer is decrypted under the proxy's key and judged.
pub open spec fn online_step(lure: Lure, s: SessionState) -> (SessionState, StepView) {
    encryption_step(lure, s, answer_decrypted(lure, s).0, answer_decrypted(lure, s).1)
}

/// The key under which a client translates the reason for which a login that
/// the session server does not know is refused.
pub open spec fn unverified_key() -> Seq<char> {
    "multiplayer.disconnect.unverified_username"@
}

/// The step of a session that is handed the session server's answer.
pub open spec fn profile_step(lure: Lure, s: SessionState, status: u16, profile: Option<GameProfile>) -> (
    SessionState,
    StepView,
) {
    match verified_profile(status, profile, s.username) {
        Ok(p) => logged_in(
            lure,
            SessionState { uuid: p.id, properties: property_views(p.properties@), ..s },
        ),
        Err(LoginError::Unverified) => {
            let sending = also_sent(
                nothing_sent(s.client),
                disconnect_login_written(unverified_key()),
            );
            closed_after(s, sending, SessionError::Login(LoginError::Unverified))
        },
        Err(e) => closed(s, Seq::empty(), SessionError::Login(e)),
    }
}

/// The step of a session that is told that its backend was reached at `ip` and
/// `port`: the backend is sent a handshake and a login start in the player's
/// name.
pub open spec fn dialed_step(lure: Lure, s: SessionState, ip: Seq<char>, port: u16) -> (
    SessionState,
    StepView,
) {
    match forwarded_address_of(
        lure.config.proxy.player_forward_mode@,
        ip,
        s.client.address,
        s.uuid,
        s.properties,
    ) {
        None => closed(s, Seq::empty(), SessionError::Login(LoginError::Json)),
        Some(address) => {
            let first = also_sent(
                nothing_sent(fresh(ip)),
                handshake_written(s.protocol_version, address, port, true),
            );
            let second = also_sent(first, login_start_written(s.username, Some(s.uuid)));
            let after = SessionState { backend: second.connection, ..s };
            match second.failed {
                Some(e) => (
                    SessionState { phase: Phase::Closed, ..after },
                    StepView {
                        to_client: Seq::empty(),
                        to_backend: second.out,
                        request: RequestView::Abort(SessionError::Connection(e)),
                    },
                ),
                None => (
                    SessionState { phase: Phase::Backend, ..after },
                    StepView {
                        to_client: Seq::empty(),
                        to_backend: second.out,
                        request: RequestView::Read,
                    },
                ),
            }
        },
    }
}

/// The step of a session that is told that its backend could not be reached.
pub open spec fn dial_failed_step(s: SessionState, error: Seq<char>) -> (SessionState, StepView) {
    let sending = also_sent(
        nothing_sent(s.client),
        disconnect_play_written(dial_message(s.server, error), failure_color()),
    );
    closed_after(s, sending, SessionError::Dial)
}

/// The session `s` with its two legs paired for play: what is read from the
/// client is written to the backend, and what is read from the backend is
/// written to the client.
pub open spec fn playing(s: SessionState) -> SessionState {
    SessionState {
        phase: Phase::Play,
        client: ConnectionState {
            address: s.client.address,
            dec: s.client.dec,
            enc: s.backend.enc,
        },
        backend: ConnectionState {
            address: s.backend.address,
            dec: s.backend.dec,
            enc: s.client.enc,
        },
        ..s
    }
}

/// The step of a session that awaits the backend's answer to the login. The
/// backend may set a compression threshold first, once; its login success
/// begins play.
pub open spec fn backend_step(s: SessionState) -> (SessionState, StepView) {
    let (taken, backend) = frame_taken(s.backend);
    let after = SessionState { backend, ..s };
    match taken {
        Err(e) => closed(after, Seq::empty(), SessionError::Connection(e)),
        Ok(None) => (after, quiet(RequestView::Read)),
        Ok(Some(body)) => match (s.phase, incoming_read(Expect::SetCompression, body)) {
            (Phase::Backend, Ok(Incoming::SetCompression { threshold })) => (
                SessionState {
                    phase: Phase::BackendCompressed,
                    backend: compressing(backend, unsigned_value(threshold) as u32),
                    ..after
                },
                quiet(RequestView::Again),
            ),
            _ => match incoming_read(Expect::LoginSuccess, body) {
                Ok(_) => (playing(after), quiet(RequestView::Again)),
                Err(e) => closed(
                    after,
                    Seq::empty(),
                    SessionError::Connection(ConnectionError::Packet(e)),
                ),
            },
        },
    }
}

/// The step of a session in play: one frame from the client is passed on to
/// the backend, or else one frame from the backend to the client.
pub open spec fn play_step(s: SessionState) -> (SessionState, StepView) {
    let (up, client) = piped(s.client);
    let after = SessionState { client, ..s };
    match up {
        Err(e) => closed(after, Seq::empty(), SessionError::Connection(e)),
        Ok(Some(bytes)) => (
            after,
            StepView { to_client: Seq::empty(), to_backend: bytes, request: RequestView::Again },
        ),
        Ok(None) => {
            let (down, backend) = piped(s.backend);
            let last = SessionState { backend, ..after };
            match down {
                Err(e) => closed(last, Seq::empty(), SessionError::Connection(e)),
                Ok(Some(bytes)) => (
                    last,
                    StepView {
                        to_client: bytes,
                        to_backend: Seq::empty(),
                        request: RequestView::Again,
                    },
                ),
                Ok(None) => (last, quiet(RequestView::Read)),
            }
        },
    }
}

/// The step of a session that is handed what was read from the client.
pub open spec fn client_read_step(s: SessionState, bytes: Seq<u8>) -> (SessionState, StepView) {
    let (taken, client) = fed(s.client, bytes);
    let after = SessionState { client, ..s };
    match taken {
        Ok(_) => (after, quiet(RequestView::Again)),
        Err(e) => closed(after, Seq::empty(), SessionError::Connection(e)),
    }
}

/// The step of a session that is handed what was read from the backend.
pub open spec fn backend_read_step(s: SessionState, bytes: Seq<u8>) -> (SessionState, StepView) {
    let (taken, backend) = fed(s.backend, bytes);
    let after = SessionState { backend, ..s };
    match taken {
        Ok(_) => (after, quiet(RequestView::Again)),
        Err(e) => closed(after, Seq::empty(), SessionError::Connection(e)),
    }
}

/// Whether a backend is connected in `phase`.
pub open spec fn has_backend(phase: Phase) -> bool {
    phase == Phase::Backend || phase == Phase::BackendCompressed || phase == Phase::Play
}

/// The step of the session `s` when `event` is handed in.
pub open spec fn stepped(lure: Lure, s: SessionState, event: Event) -> (SessionState, StepView) {
    if s.phase == Phase::Closed {
        (s, quiet(RequestView::Abort(SessionError::UnexpectedEvent)))
    } else {
        match event {
            Event::Client(bytes) => client_read_step(s, bytes@),
            Event::Backend(bytes) => if has_backend(s.phase) {
                backend_read_step(s, bytes@)
            } else {
                closed(s, Seq::empty(), SessionError::UnexpectedEvent)
            },
            Event::Fetched { status, profile } => if s.phase == Phase::Profile {
                profile_step(lure, s, status, profile)
            } else {
                closed(s, Seq::empty(), SessionError::UnexpectedEvent)
            },
            Event::Dialed { ip, port } => if s.phase == Phase::Dial {
                dialed_step(lure, s, ip@, port)
            } else {
                closed(s, Seq::empty(), SessionError::UnexpectedEvent)
            },
            Event::DialFailed { error } => if s.phase == Phase::Dial {
                dial_failed_step(s, error@)
            } else {
                closed(s, Seq::empty(), SessionError::UnexpectedEvent)
            },
            Event::Poll => match s.phase {
                Phase::Handshake => handshake_step(s),
                Phase::Status => status_step(lure, s),
                Phase::Ping => ping_step(s),
                Phase::Login => login_step(lure, s),
                Phase::Encryption => online_step(lure, s),
                Phase::Profile => (s, quiet(RequestView::Read)),
                Phase::Dial => (s, quiet(RequestView::Read)),
                Phase::Backend => backend_step(s),
                Phase::BackendCompressed => backend_step(s),
                Phase::Play => play_step(s),
                Phase::Closed => (s, quiet(RequestView::Abort(SessionError::UnexpectedEvent))),
            },
        }
    }
}

/// Draws a verify token of sixteen bytes with `rand::random`. Nothing is
/// claimed of the bytes.
#[verifier::external_body]
fn fresh_token() -> (token: [u8; 16]) {
    rand::random()
}

/// Sends `packet` on `connection`, behind what `out` holds of earlier packets.
/// Returns the failure, if the packet could not be sent.
fn send_to(connection: &mut Connection, out: &mut Vec<u8>, packet: &Outgoing) -> (failed: Option<
    ConnectionError,
>)
    requires
        old(connection).wf(),
    ensures
        final(connection).wf(),
        (Sending { connection: final(connection)@, out: final(out)@, failed }) == also_sent(
            Sending { connection: old(connection)@, out: old(out)@, failed: None },
            outgoing_written(*packet),
        ),
        final(connection)@.enc.cipher is None <==> old(connection)@.enc.cipher is None,
        final(connection)@.dec == old(connection)@.dec,
{
    match connection.send(packet) {
        Ok(bytes) => {
            out.extend_from_slice(bytes.as_slice());
            assert(out@ =~= old(out)@ + bytes@);
            None
        },
        Err(e) => Some(e),
    }
}

impl Session {
    /// What holds of every session: its connections are well formed, and the
    /// client's connection has no cipher before encryption was agreed.
    pub open spec fn wf(&self) -> bool {
        &&& self.client.wf()
        &&& self.backend.wf()
        &&& state_wf(self@)
    }

    /// A session that begins with a client at `address` and with the verify
    /// token `token`.
    pub fn new(address: String, token: &[u8; 16]) -> (session: Session)
        ensures
            session.wf(),
            session@ == begun(address@, token@),
    {
        let mut verify_token: Vec<u8> = Vec::new();
        verify_token.extend_from_slice(token.as_slice());
        assert(verify_token@ =~= token@);
        let session = Session {
            phase: Phase::Handshake,
            client: Connection::new(address),
            backend: Connection::new(String::new()),
            verify_token,
            protocol_version: 0,
            hostname: String::new(),
            username: String::new(),
            uuid: 0,
            properties: Vec::new(),
            server: String::new(),
        };
        assert(property_views(session.properties@) =~= Seq::<PropertyView>::empty());
        session
    }

    /// What is known of the client of a session that has logged in.
    pub fn client_info(&self) -> (info: ClientInfo)
        ensures
            info.username@ == self@.username,
            info.uuid == self@.uuid,
            info.ip@ == self@.client.address,
            info.protocol_version == self@.protocol_version,
            info.hostname@ == self@.hostname,
            property_views(info.properties@) == self@.properties,
    {
        let mut properties: Vec<Property> = Vec::new();
        let mut i: usize = 0;
        while i < self.properties.len()
            invariant
                i <= self.properties@.len(),
                properties@.len() == i,
                forall|j: int|
                    0 <= j < i ==> (#[trigger] properties@[j]).name@ == self.properties@[j].name@
                        && properties@[j].value@ == self.properties@[j].value@
                        && signature_view(properties@[j].signature)
                        == signature_view(self.properties@[j].signature),
            decreases self.properties@.len() - i,
        {
            let signature = match &self.properties[i].signature {
                Some(s) => Some(s.clone()),
                None => None,
            };
            properties.push(
                Property {
                    name: self.properties[i].name.clone(),
                    value: self.properties[i].value.clone(),
                    signature,
                },
            );
            i = i + 1;
        }
        assert(property_views(properties@) =~= property_views(self.properties@));
        ClientInfo {
            username: self.username.clone(),
            uuid: self.uuid,
            ip: self.client.address.clone(),
            properties,
            protocol_version: self.protocol_version,
            hostname: self.hostname.clone(),
        }
    }

    /// Ends the session for the reason `error`, after `to_client` was written to
    /// the client.
    fn close(self, to_client: Vec<u8>, error: SessionError) -> (r: (Session, Step))
        requires
            self.client.wf(),
            self.backend.wf(),
            settled(self@),
        ensures
            r.0.wf(),
            (r.0@, r.1@) == closed(self@, to_client@, error),
    {
        let mut session = self;
        session.phase = Phase::Closed;
        (session, Step { to_client, to_backend: Vec::new(), request: Request::Abort(error) })
    }

    /// Goes on without writing anything.
    fn idle(self, request: Request) -> (r: (Session, Step))
        ensures
            r.0 == self,
            r.1@ == quiet(request@),
    {
        (self, Step { to_client: Vec::new(), to_backend: Vec::new(), request })
    }

    /// Sends the client one packet and goes over to `next`.
    fn reply(self, packet: &Outgoing, next: Phase, request: Request) -> (r: (Session, Step))
        requires
            self.wf(),
            before_encryption(next) ==> before_encryption(self.phase),
        ensures
            r.0.wf(),
            (r.0@, r.1@) == replied(self@, outgoing_written(*packet), next, request@),
    {
        let mut session = self;
        let mut out: Vec<u8> = Vec::new();
        match send_to(&mut session.client, &mut out, packet) {
            Some(e) => session.close(out, SessionError::Connection(e)),
            None => {
                session.phase = next;
                (session, Step { to_client: out, to_backend: Vec::new(), request })
            },
        }
    }

    /// Ends the session for the reason `error`, or for the failure `failed` at
    /// which the sending of `out` stopped.
    fn close_after(self, out: Vec<u8>, failed: Option<ConnectionError>, error: SessionError) -> (r: (
        Session,
        Step,
    ))
        requires
            self.client.wf(),
            self.backend.wf(),
            settled(self@),
        ensures
            r.0.wf(),
            (r.0@, r.1@) == closed_after(
                self@,
                Sending { connection: self@.client, out: out@, failed },
                error,
            ),
    {
        match failed {
            Some(e) => self.close(out, SessionError::Connection(e)),
            None => self.close(out, error),
        }
    }
}

impl Lure {
    /// Begins a session with a client at `address`: nothing was read or written
    /// yet, and the handshake is awaited.
    pub fn handle_connection(&self, address: String) -> (session: Session)
        ensures
            session.wf(),
            session@.verify_token.len() == 16,
            session@ == begun(address@, session@.verify_token),
    {
        let token = fresh_token();
        Session::new(address, &token)
    }

    /// Reads the handshake, if it is there, and goes over to the status or to
    /// the login that it asks for.
    pub fn handle_handshake(&self, session: Session) -> (r: (Session, Step))
        requires
            session.wf(),
            session.phase == Phase::Handshake,
        ensures
            r.0.wf(),
            (r.0@, r.1@) == handshake_step(session@),
    {
        let mut session = session;
        match session.client.recv(Expect::Handshake) {
            Err(e) => session.close(Vec::new(), SessionError::Connection(e)),
            Ok(None) => session.idle(Request::Read),
            Ok(Some(Incoming::Handshake { protocol_version, server_address, server_port, next_state })) => {
                session.phase = match next_state {
                    NextState::Status => Phase::Status,
                    NextState::Login => Phase::Login,
                };
                session.protocol_version = protocol_version;
                session.hostname = server_address;
                session.idle(Request::Again)
            },
            Ok(Some(_)) => unreached(),
        }
    }

    /// Answers the status request, if it is there, with the status of the
    /// proxy; or the ping that follows it, with the same payload, which ends the
    /// session.
    pub fn handle_status(&self, session: Session) -> (r: (Session, Step))
        requires
            self.wf(),
            session.wf(),
            session.phase == Phase::Status || session.phase == Phase::Ping,
        ensures
            r.0.wf(),
            (r.0@, r.1@) == (if session.phase == Phase::Status {
                status_step(*self, session@)
            } else {
                ping_step(session@)
            }),
    {
        let mut session = session;
        if session.phase == Phase::Status {
            match session.client.recv(Expect::StatusRequest) {
                Err(e) => session.close(Vec::new(), SessionError::Connection(e)),
                Ok(None) => session.idle(Request::Read),
                Ok(Some(_)) => {
                    let empty = String::new();
                    let favicon: &str = match &self.favicon {
                        Some(icon) => icon.as_str(),
                        None => empty.as_str(),
                    };
                    match status_json(
                        session.protocol_version,
                        self.config.proxy.max_players,
                        self.config.proxy.motd.as_str(),
                        favicon,
                    ) {
                        Some(json) => session.reply(
                            &Outgoing::StatusResponse { json },
                            Phase::Ping,
                            Request::Again,
                        ),
                        None => session.close(
                            Vec::new(),
                            SessionError::Login(LoginError::Json),
                        ),
                    }
                },
            }
        } else {
            match session.client.recv(Expect::PingRequest) {
                Err(e) => session.close(Vec::new(), SessionError::Connection(e)),
                Ok(None) => session.idle(Request::Read),
                Ok(Some(Incoming::PingRequest { payload })) => session.reply(
                    &Outgoing::PingResponse { payload },
                    Phase::Closed,
                    Request::Finish,
                ),
                Ok(Some(_)) => unreached(),
            }
        }
    }

    /// Finishes a login that holds: sends the client the compression threshold,
    /// where one is configured, and the login success; then looks up the
    /// client's backend.
    pub fn finish_login(&self, session: Session) -> (r: (Session, Step))
        requires
            self.wf(),
            session.wf(),
            !before_encryption(session.phase) || session.phase == Phase::Login,
        ensures
            r.0.wf(),
            (r.0@, r.1@) == logged_in(*self, session@),
    {
        let ghost start = session@;
        let mut session = session;
        let mut out: Vec<u8> = Vec::new();
        let threshold = self.config.proxy.compression_threshold;
        let mut failed: Option<ConnectionError> = None;
        if threshold > 0 {
            match session.client.set_compression(threshold) {
                Ok(bytes) => {
                    out.extend_from_slice(bytes.as_slice());
                    assert(out@ =~= Seq::<u8>::empty() + bytes@);
                },
                Err(e) => {
                    failed = Some(e);
                },
            }
        }
        if failed.is_none() {
            let success = Outgoing::LoginSuccess {
                uuid: session.uuid,
                username: session.username.clone(),
                properties: session.client_info().properties,
            };
            failed = send_to(&mut session.client, &mut out, &success);
        }
        proof {
            let sending = login_sent(*self, start);
            assert(sending.connection == session.client@);
            assert(sending.out == out@);
            assert(sending.failed == failed);
            assert(session@ == (SessionState { client: session.client@, ..start }));
        }
        match failed {
            Some(e) => session.close(out, SessionError::Connection(e)),
            None => {
                let (last, step) = self.handle_play(session);
                let Step { to_client, to_backend, request } = step;
                out.extend_from_slice(to_client.as_slice());
                assert(out@ =~= login_sent(*self, start).out + to_client@);
                (last, Step { to_client: out, to_backend, request })
            },
        }
    }

    /// Looks up the backend of a client that has logged in, and asks for the
    /// backend to be dialled, or tells the client that there is none.
    pub fn handle_play(&self, session: Session) -> (r: (Session, Step))
        requires
            self.wf(),
            session.wf(),
            !before_encryption(session.phase) || session.phase == Phase::Login,
        ensures
            r.0.wf(),
            (r.0@, r.1@) == routed(*self, session@),
    {
        let mut session = session;
        let mut out: Vec<u8> = Vec::new();
        let server = match self.get_default_server(session.hostname.clone()) {
            Some(server) => server,
            None => {
                let failed = send_to(
                    &mut session.client,
                    &mut out,
                    &Outgoing::DisconnectPlay {
                        message: "No host found".to_owned(),
                        color: "red".to_owned(),
                    },
                );
                return session.close_after(out, failed, SessionError::NoHost);
            },
        };
        match self.get_server(server.clone()) {
            None => {
                let mut message = "Default server ".to_owned();
                message.append(server.as_str());
                message.append(" for host ");
                message.append(session.hostname.as_str());
                message.append(" doesnt exist.");
                let failed = send_to(
                    &mut session.client,
                    &mut out,
                    &Outgoing::DisconnectPlay { message, color: "red".to_owned() },
                );
                session.close_after(out, failed, SessionError::NoServer)
            },
            Some(address) => {
                session.phase = Phase::Dial;
                session.server = server.clone();
                session.idle(Request::Dial { server, address })
            },
        }
    }

    /// Reads the login start, if it is there. Online, the client is sent the
    /// encryption request. Offline, the login holds as it is and is finished.
    pub fn handle_login(&self, session: Session) -> (r: (Session, Step))
        requires
            self.wf(),
            session.wf(),
            session.phase == Phase::Login,
        ensures
            r.0.wf(),
            (r.0@, r.1@) == login_step(*self, session@),
    {
        let mut session = session;
        match session.client.recv(Expect::LoginStart) {
            Err(e) => session.close(Vec::new(), SessionError::Connection(e)),
            Ok(None) => session.idle(Request::Read),
            Ok(Some(Incoming::LoginStart { username, profile_id })) => {
                if !is_valid_username(username.as_str()) {
                    return session.close(
                        Vec::new(),
                        SessionError::Login(LoginError::BadUsername),
                    );
                }
                if self.config.proxy.online_mode {
                    session.username = username;
                    let request = Outgoing::EncryptionRequest {
                        server_id: String::new(),
                        public_key: self.keypair.public_key.clone(),
                        verify_token: session.verify_token.clone(),
                    };
                    session.reply(&request, Phase::Encryption, Request::Again)
                } else {
                    let info = self.login_offline(username, session.client.address.clone());
                    session.username = info.username;
                    session.uuid = info.uuid;
                    session.properties = info.properties;
                    assert(property_views(session.properties@) =~= Seq::<PropertyView>::empty());
                    self.finish_login(session)
                }
            },
            Ok(Some(_)) => unreached(),
        }
    }

    /// Reads the client's answer to the encryption request, if it is there.
    /// Where the answer holds, encryption is turned on and the session server
    /// is to be asked whether the player has joined.
    pub fn login_online(&self, session: Session) -> (r: (Session, Step))
        requires
            session.wf(),
            session.phase == Phase::Encryption,
        ensures
            r.0.wf(),
            (r.0@, r.1@) == online_step(*self, session@),
    {
        let mut session = session;
        match session.client.recv(Expect::EncryptionResponse) {
            Err(e) => session.close(Vec::new(), SessionError::Connection(e)),
            Ok(None) => session.idle(Request::Read),
            Ok(Some(Incoming::EncryptionResponse { shared_secret, verify_token })) => {
                let secret = self.keypair.decrypt(shared_secret.as_slice());
                let token = self.keypair.decrypt(verify_token.as_slice());
                match check_encryption_response(session.verify_token.as_slice(), secret, token) {
                    Err(e) => session.close(Vec::new(), SessionError::Login(e)),
                    Ok(key) => {
                        session.client.enable_encryption(&key);
                        let digest = session_digest(
                            String::new().as_str().as_bytes(),
                            key.as_slice(),
                            self.keypair.public_key.as_slice(),
                        );
                        let url = if self.config.proxy.prevent_proxy_connections {
                            session_url(
                                session.username.as_str(),
                                digest.as_str(),
                                Some(session.client.address.as_str()),
                            )
                        } else {
                            session_url(session.username.as_str(), digest.as_str(), None)
                        };
                        session.phase = Phase::Profile;
                        session.idle(Request::Fetch { url })
                    },
                }
            },
            Ok(Some(_)) => unreached(),
        }
    }

    /// Takes the session server's answer. Where it names the player, the login
    /// holds and is finished. Where the session server does not know of the
    /// login, the client is told so. The session ends otherwise.
    pub fn handle_profile(&self, session: Session, status: u16, profile: Option<GameProfile>) -> (r: (
        Session,
        Step,
    ))
        requires
            self.wf(),
            session.wf(),
            session.phase == Phase::Profile,
        ensures
            r.0.wf(),
            (r.0@, r.1@) == profile_step(*self, session@, status, profile),
    {
        let mut session = session;
        match check_profile(status, profile, &session.username) {
            Ok(p) => {
                session.uuid = p.id;
                session.properties = p.properties;
                self.finish_login(session)
            },
            Err(LoginError::Unverified) => {
                let mut out: Vec<u8> = Vec::new();
                let failed = send_to(
                    &mut session.client,
                    &mut out,
                    &Outgoing::DisconnectLogin {
                        key: "multiplayer.disconnect.unverified_username".to_owned(),
                    },
                );
                session.close_after(out, failed, SessionError::Login(LoginError::Unverified))
            },
            Err(e) => session.close(Vec::new(), SessionError::Login(e)),
        }
    }

    /// Logs in to the backend that was reached at `ip` and `port`: sends it a
    /// handshake that asks for login, and a login start in the player's name.
    pub fn handle_dialed(&self, session: Session, ip: String, port: u16) -> (r: (Session, Step))
        requires
            session.wf(),
            session.phase == Phase::Dial,
        ensures
            r.0.wf(),
            (r.0@, r.1@) == dialed_step(*self, session@, ip@, port),
    {
        let mut session = session;
        let address = match forwarded_address(
            &self.config.proxy.player_forward_mode,
            ip.as_str(),
            session.client.address.as_str(),
            session.uuid,
            &session.properties,
        ) {
            Some(address) => address,
            None => {
                return session.close(Vec::new(), SessionError::Login(LoginError::Json));
            },
        };
        session.backend = Connection::new(ip);
        let mut out: Vec<u8> = Vec::new();
        let handshake = Outgoing::Handshake {
            protocol_version: session.protocol_version,
            server_address: address,
            server_port: port,
            next_state: NextState::Login,
        };
        let mut failed = send_to(&mut session.backend, &mut out, &handshake);
        if failed.is_none() {
            let login = Outgoing::LoginStart {
                username: session.username.clone(),
                profile_id: Some(session.uuid),
            };
            failed = send_to(&mut session.backend, &mut out, &login);
        }
        match failed {
            Some(e) => {
                session.phase = Phase::Closed;
                (
                    session,
                    Step {
                        to_client: Vec::new(),
                        to_backend: out,
                        request: Request::Abort(SessionError::Connection(e)),
                    },
                )
            },
            None => {
                session.phase = Phase::Backend;
                (
                    session,
                    Step { to_client: Vec::new(), to_backend: out, request: Request::Read },
                )
            },
        }
    }

    /// Tells the client that its backend could not be reached, for the reason
    /// `error`, and ends the session.
    pub fn handle_dial_failed(&self, session: Session, error: String) -> (r: (Session, Step))
        requires
            session.wf(),
            session.phase == Phase::Dial,
        ensures
            r.0.wf(),
            (r.0@, r.1@) == dial_failed_step(session@, error@),
    {
        let mut session = session;
        let mut message = "Cannot connect to server ".to_owned();
        message.append(session.server.as_str());
        message.append(":\n\n");
        message.append(error.as_str());
        let mut out: Vec<u8> = Vec::new();
        let failed = send_to(
            &mut session.client,
            &mut out,
            &Outgoing::DisconnectPlay { message, color: "red".to_owned() },
        );
        session.close_after(out, failed, SessionError::Dial)
    }

    /// Reads the backend's answer to the login, if it is there: a compression
    /// threshold, which is taken over, or the login success, with which play
    /// begins.
    pub fn handle_backend(&self, session: Session) -> (r: (Session, Step))
        requires
            session.wf(),
            session.phase == Phase::Backend || session.phase == Phase::BackendCompressed,
        ensures
            r.0.wf(),
            (r.0@, r.1@) == backend_step(session@),
    {
        let mut session = session;
        match session.backend.next_frame() {
            Err(e) => session.close(Vec::new(), SessionError::Connection(e)),
            Ok(None) => session.idle(Request::Read),
            Ok(Some(body)) => {
                if session.phase == Phase::Backend {
                    match decode_incoming(Expect::SetCompression, body.as_slice()) {
                        Ok(Incoming::SetCompression { threshold }) => {
                            session.backend.enable_compression(to_unsigned(threshold));
                            session.phase = Phase::BackendCompressed;
                            return session.idle(Request::Again);
                        },
                        _ => {},
                    }
                }
                match decode_incoming(Expect::LoginSuccess, body.as_slice()) {
                    Ok(_) => {
                        let Session {
                            phase,
                            client,
                            backend,
                            verify_token,
                            protocol_version,
                            hostname,
                            username,
                            uuid,
                            properties,
                            server,
                        } = session;
                        let (to_backend, to_client) = cross(client, backend);
                        let playing = Session {
                            phase: Phase::Play,
                            client: to_backend,
                            backend: to_client,
                            verify_token,
                            protocol_version,
                            hostname,
                            username,
                            uuid,
                            properties,
                            server,
                        };
                        playing.idle(Request::Again)
                    },
                    Err(e) => session.close(
                        Vec::new(),
                        SessionError::Connection(ConnectionError::Packet(e)),
                    ),
                }
            },
        }
    }

    /// Passes one frame on: from the client to the backend, if a whole frame
    /// from the client is there, else from the backend to the client.
    pub fn handle_pipe(&self, session: Session) -> (r: (Session, Step))
        requires
            session.wf(),
            session.phase == Phase::Play,
        ensures
            r.0.wf(),
            (r.0@, r.1@) == play_step(session@),
    {
        let mut session = session;
        match session.client.pipe() {
            Err(e) => session.close(Vec::new(), SessionError::Connection(e)),
            Ok(Some(bytes)) => (
                session,
                Step { to_client: Vec::new(), to_backend: bytes, request: Request::Again },
            ),
            Ok(None) => match session.backend.pipe() {
                Err(e) => session.close(Vec::new(), SessionError::Connection(e)),
                Ok(Some(bytes)) => (
                    session,
                    Step { to_client: bytes, to_backend: Vec::new(), request: Request::Again },
                ),
                Ok(None) => session.idle(Request::Read),
            },
        }
    }

    /// Moves the session on by one step: takes in `event` and says what is to
    /// be written and what is to be done next.
    pub fn advance(&self, session: Session, event: Event) -> (r: (Session, Step))
        requires
            self.wf(),
            session.wf(),
        ensures
            r.0.wf(),
            (r.0@, r.1@) == stepped(*self, session@, event),
    {
        if session.phase == Phase::Closed {
            return session.idle(Request::Abort(SessionError::UnexpectedEvent));
        }
        let mut session = session;
        match event {
            Event::Client(bytes) => match session.client.read(bytes.as_slice()) {
                Ok(()) => session.idle(Request::Again),
                Err(e) => session.close(Vec::new(), SessionError::Connection(e)),
            },
            Event::Backend(bytes) => {
                if session.phase == Phase::Backend || session.phase == Phase::BackendCompressed
                    || session.phase == Phase::Play {
                    match session.backend.read(bytes.as_slice()) {
                        Ok(()) => session.idle(Request::Again),
                        Err(e) => session.close(Vec::new(), SessionError::Connection(e)),
                    }
                } else {
                    session.close(Vec::new(), SessionError::UnexpectedEvent)
                }
            },
            Event::Fetched { status, profile } => {
                if session.phase == Phase::Profile {
                    self.handle_profile(session, status, profile)
                } else {
                    session.close(Vec::new(), SessionError::UnexpectedEvent)
                }
            },
            Event::Dialed { ip, port } => {
                if session.phase == Phase::Dial {
                    self.handle_dialed(session, ip, port)
                } else {
                    session.close(Vec::new(), SessionError::UnexpectedEvent)
                }
            },
            Event::DialFailed { error } => {
                if session.phase == Phase::Dial {
                    self.handle_dial_failed(session, error)
                } else {
                    session.close(Vec::new(), SessionError::UnexpectedEvent)
                }
            },
            Event::Poll => match session.phase {
                Phase::Handshake => self.handle_handshake(session),
                Phase::Status => self.handle_status(session),
                Phase::Ping => self.handle_status(session),
                Phase::Login => self.handle_login(session),
                Phase::Encryption => self.login_online(session),
                Phase::Profile => session.idle(Request::Read),
                Phase::Dial => session.idle(Request::Read),
                Phase::Backend => self.handle_backend(session),
                Phase::BackendCompressed => self.handle_backend(session),
                Phase::Play => self.handle_pipe(session),
                Phase::Closed => session.idle(Request::Abort(SessionError::UnexpectedEvent)),
            },
        }
    }
}

/// A session that is over stays over: whatever is handed in, nothing is
/// written and the session is to be ended.
pub proof fn lemma_closed_is_final(lure: Lure, s: SessionState, event: Event)
    requires
        s.phase == Phase::Closed,
    ensures
        stepped(lure, s, event) == (s, quiet(RequestView::Abort(SessionError::UnexpectedEvent))),
{
}

/// The session server is asked only on behalf of a client whose answer
/// decrypts, under the proxy's key, to the verify token that was sent and to a
/// shared secret of sixteen bytes; and it is asked under the address that
/// belongs to that secret.
pub proof fn lemma_fetch_follows_the_token(lure: Lure, s: SessionState, event: Event)
    requires
        stepped(lure, s, event).1.request is Fetch,
    ensures
        s.phase == Phase::Encryption,
        event == Event::Poll,
        answer_decrypted(lure, s).1 == Some(s.verify_token),
        answer_decrypted(lure, s).0 matches Some(key) && key.len() == 16 && stepped(
            lure,
            s,
            event,
        ).1.request == (RequestView::Fetch {
            url: session_url_of(
                s.username,
                session_digest_of(Seq::empty(), key, lure.keypair.public_key@),
                checked_ip(lure, s),
            ),
        }),
{
}

} // verus!

//! The proxy: what it is configured with, and the rules by which it answers a
//! status request, checks a login and finds the backend of a player.

use crate::config::LureConfig;
use crate::connection::client_info::ClientInfo;
use crate::digest::{offline_uuid, offline_uuid_of};
use crate::keypair::KeyPair;
use crate::packets::{property_views, signature_view, Property, PropertyView};
use crate::text::{
    decimal, json_quoted, push_decimal, push_json_string, push_uuid_hyphenated,
    push_uuid_simple, uuid_hyphenated, uuid_simple,
};
use crate::utils::{favicon_of, file_view, is_png_uri, read_favicon, text_view};
use vstd::prelude::*;
use vstd::string::{StrSliceExecFns, StringExecFns};

verus! {

/// What the session server knows of a player.
#[derive(Clone, Debug, PartialEq, Eq)]
pub struct GameProfile {
    pub id: u128,
    pub name: String,
    pub properties: Vec<Property>,
}

/// Why a session came to an end before play.
#[derive(Clone, Copy, Debug, PartialEq, Eq, Structural)]
pub enum LoginError {
    /// The name is not made of 3 to 16 printable characters.
    BadUsername,
    /// The shared secret could not be decrypted.
    Decrypt,
    /// The verify token could not be decrypted.
    InvalidSession,
    /// The verify token that came back is not the one that was sent.
    TokenMismatch,
    /// The shared secret is not sixteen bytes long.
    SecretLength,
    /// The session server does not know of the login.
    Unverified,
    /// The session server answered with this status, which is neither 200 nor
    /// 204.
    SessionServer(u16),
    /// The session server's answer holds no profile that can be read.
    BadProfile,
    /// The session server's profile is under another name.
    UsernameMismatch,
    /// A JSON document could not be written.
    Json,
}

/// The key of the table of hosts that stands for every other host name.
pub open spec fn any_host() -> Seq<char> {
    "*"@
}

/// The server that the table `hosts` names for `hostname`: the entry of the
/// host name, else the entry of `"*"`.
pub open spec fn default_server_of(hosts: Map<Seq<char>, Seq<char>>, hostname: Seq<char>) -> Option<
    Seq<char>,
> {
    if hosts.contains_key(hostname) {
        Some(hosts[hostname])
    } else if hosts.contains_key(any_host()) {
        Some(hosts[any_host()])
    } else {
        None
    }
}

/// Fallback. A host name that has no entry of its own is routed by the entry of
/// `"*"`, and a host name that has one is routed by its own.
pub proof fn lemma_routing_fallback(hosts: Map<Seq<char>, Seq<char>>, hostname: Seq<char>)
    ensures
        !hosts.contains_key(hostname) && hosts.contains_key(any_host()) ==> default_server_of(
            hosts,
            hostname,
        ) == Some(hosts[any_host()]),
        hosts.contains_key(hostname) ==> default_server_of(hosts, hostname) == Some(
            hosts[hostname],
        ),
        !hosts.contains_key(hostname) && !hosts.contains_key(any_host()) ==> default_server_of(
            hosts,
            hostname,
        ) is None,
{
}

/// The entry of `name` in the table `servers`.
pub open spec fn server_of(servers: Map<Seq<char>, Seq<char>>, name: Seq<char>) -> Option<
    Seq<char>,
> {
    if servers.contains_key(name) {
        Some(servers[name])
    } else {
        None
    }
}

/// Whether `c` is a printable character: a visible character of ASCII.
pub open spec fn printable(c: char) -> bool {
    '!' <= c <= '~'
}

/// Whether `name` may be a player's name: 3 to 16 printable characters.
pub open spec fn valid_username(name: Seq<char>) -> bool {
    3 <= name.len() <= 16 && forall|i: int| 0 <= i < name.len() ==> printable(#[trigger] name[i])
}

/// The shared secret of a login, if the client's answer to the encryption
/// request holds: `secret` and `token` are what the client's answer decrypts
/// to, `None` where it does not decrypt, and `sent` is the token that the
/// proxy sent.
pub open spec fn accepted_secret(sent: Seq<u8>, secret: Option<Seq<u8>>, token: Option<Seq<u8>>) -> Result<
    Seq<u8>,
    LoginError,
> {
    match (secret, token) {
        (None, _) => Err(LoginError::Decrypt),
        (Some(_), None) => Err(LoginError::InvalidSession),
        (Some(s), Some(t)) => if t != sent {
            Err(LoginError::TokenMismatch)
        } else if s.len() != 16 {
            Err(LoginError::SecretLength)
        } else {
            Ok(s)
        },
    }
}

/// The address under which the session server is asked whether `username` has
/// joined with the digest `digest`; `ip` is the client's address where the
/// session server is to check it.
pub open spec fn session_url_of(username: Seq<char>, digest: Seq<char>, ip: Option<Seq<char>>) -> Seq<
    char,
> {
    let base = "https://sessionserver.mojang.com/session/minecraft/hasJoined?username="@
        + username + "&serverId="@ + digest;
    match ip {
        Some(address) => base + "&ip="@ + address,
        None => base,
    }
}

/// What the session server's answer means for the login of `username`:
/// `status` is the status of the answer and `profile` the profile in it, `None`
/// where it holds none that can be read.
pub open spec fn verified_profile(status: u16, profile: Option<GameProfile>, username: Seq<char>) -> Result<
    GameProfile,
    LoginError,
> {
    if status == 200 {
        match profile {
            Some(p) => if p.name@ == username {
                Ok(p)
            } else {
                Err(LoginError::UsernameMismatch)
            },
            None => Err(LoginError::BadProfile),
        }
    } else if status == 204 {
        Err(LoginError::Unverified)
    } else {
        Err(LoginError::SessionServer(status))
    }
}

/// One property as a JSON object.
pub open spec fn property_json(property: PropertyView) -> Option<Seq<char>> {
    match (json_quoted(property.0), json_quoted(property.1)) {
        (Some(name), Some(value)) => match property.2 {
            None => Some("{\"name\":"@ + name + ",\"value\":"@ + value + ",\"signature\":null}"@),
            Some(signature) => match json_quoted(signature) {
                Some(s) => Some(
                    "{\"name\":"@ + name + ",\"value\":"@ + value + ",\"signature\":"@ + s + "}"@,
                ),
                None => None,
            },
        },
        _ => None,
    }
}

/// The JSON objects of `properties` with commas between them.
pub open spec fn property_list(properties: Seq<PropertyView>) -> Option<Seq<char>>
    decreases properties.len(),
{
    if properties.len() == 0 {
        Some(Seq::empty())
    } else {
        match (property_list(properties.drop_last()), property_json(properties.last())) {
            (Some(before), Some(last)) => if properties.len() == 1 {
                Some(last)
            } else {
                Some(before + ","@ + last)
            },
            _ => None,
        }
    }
}

/// `properties` as a JSON array.
pub open spec fn properties_json(properties: Seq<PropertyView>) -> Option<Seq<char>> {
    match property_list(properties) {
        Some(list) => Some("["@ + list + "]"@),
        None => None,
    }
}

/// The server address of the handshake that is sent to a backend. Where the
/// forwarding mode is `"bungeecord"` it carries, with zero characters between
/// them, the backend's address, the client's address, the player's identifier
/// without hyphens and the player's properties as JSON. Otherwise it is the
/// backend's address.
pub open spec fn forwarded_address_of(
    mode: Seq<char>,
    backend_ip: Seq<char>,
    client_ip: Seq<char>,
    uuid: u128,
    properties: Seq<PropertyView>,
) -> Option<Seq<char>> {
    if mode == "bungeecord"@ {
        match properties_json(properties) {
            Some(json) => Some(
                backend_ip + seq!['\0'] + client_ip + seq!['\0'] + uuid_simple(uuid) + seq!['\0']
                    + json,
            ),
            None => None,
        }
    } else {
        Some(backend_ip)
    }
}

/// The identifier of the player that every status names as a sample.
pub const SAMPLE_ID: u128 = 12345;

/// The JSON document of a status: the version with the protocol that the
/// client declared, the players with the configured maximum and one sample,
/// the message of the day as a chat component, and the icon.
pub open spec fn status_json_of(
    protocol: i32,
    max_players: i32,
    motd: Seq<char>,
    favicon: Seq<char>,
) -> Option<Seq<char>> {
    match (json_quoted(motd), json_quoted(favicon)) {
        (Some(description), Some(icon)) => Some(
            "{\"description\":{\"text\":"@ + description + "},\"favicon\":"@ + icon
                + ",\"players\":{\"max\":"@ + decimal(max_players as int)
                + ",\"online\":0,\"sample\":[{\"id\":\""@ + uuid_hyphenated(SAMPLE_ID)
                + "\",\"name\":\"foobar\"}]},\"version\":{\"name\":\"Lure\",\"protocol\":"@
                + decimal(protocol as int) + "}}"@,
        ),
        _ => None,
    }
}

/// The colour in which a player is shown why play does not begin.
pub open spec fn failure_color() -> Seq<char> {
    "red"@
}

/// What is shown to a player for whom no host was found.
pub open spec fn no_host_message() -> Seq<char> {
    "No host found"@
}

/// What is shown to a player whose host names a server that is not there.
pub open spec fn no_server_message(server: Seq<char>, hostname: Seq<char>) -> Seq<char> {
    "Default server "@ + server + " for host "@ + hostname + " doesnt exist."@
}

/// What is shown to a player whose backend could not be reached.
pub open spec fn dial_message(server: Seq<char>, error: Seq<char>) -> Seq<char> {
    "Cannot connect to server "@ + server + ":\n\n"@ + error
}

/// Whether `a` and `b` hold the same bytes.
pub fn same_bytes(a: &[u8], b: &[u8]) -> (same: bool)
    ensures
        same == (a@ == b@),
{
    if a.len() != b.len() {
        return false;
    }
    let mut i: usize = 0;
    while i < a.len()
        invariant
            a@.len() == b@.len(),
            i <= a@.len(),
            forall|j: int| 0 <= j < i ==> a@[j] == b@[j],
        decreases a@.len() - i,
    {
        if a[i] != b[i] {
            return false;
        }
        i = i + 1;
    }
    assert(a@ =~= b@);
    true
}

/// Whether `name` may be a player's name.
pub fn is_valid_username(name: &str) -> (valid: bool)
    ensures
        valid == valid_username(name@),
{
    let len = name.unicode_len();
    if len < 3 || len > 16 {
        return false;
    }
    let mut i: usize = 0;
    while i < len
        invariant
            len == name@.len(),
            i <= len,
            forall|j: int| 0 <= j < i ==> printable(#[trigger] name@[j]),
        decreases len - i,
    {
        let c = name.get_char(i);
        if c < '!' || c > '~' {
            return false;
        }
        i = i + 1;
    }
    true
}

/// The plain value of bytes that may be missing.
pub open spec fn bytes_option_view(bytes: Option<Vec<u8>>) -> Option<Seq<u8>> {
    match bytes {
        Some(b) => Some(b@),
        None => None,
    }
}

/// Checks a client's answer to the encryption request. `secret` and `token`
/// are what the answer decrypts to, and `sent` is the token that the proxy
/// sent. Gives the key of the connection.
pub fn check_encryption_response(sent: &[u8], secret: Option<Vec<u8>>, token: Option<Vec<u8>>) -> (r:
    Result<[u8; 16], LoginError>)
    ensures
        match accepted_secret(sent@, bytes_option_view(secret), bytes_option_view(token)) {
            Ok(s) => r matches Ok(key) && key@ == s,
            Err(e) => r == Err::<[u8; 16], LoginError>(e),
        },
{
    let secret = match secret {
        Some(s) => s,
        None => {
            return Err(LoginError::Decrypt);
        },
    };
    let token = match token {
        Some(t) => t,
        None => {
            return Err(LoginError::InvalidSession);
        },
    };
    if !same_bytes(token.as_slice(), sent) {
        return Err(LoginError::TokenMismatch);
    }
    if secret.len() != 16 {
        return Err(LoginError::SecretLength);
    }
    let mut key: [u8; 16] = [0u8; 16];
    let mut i: usize = 0;
    while i < 16
        invariant
            secret@.len() == 16,
            i <= 16,
            forall|j: int| 0 <= j < i ==> key@[j] == secret@[j],
        decreases 16 - i,
    {
        key[i] = secret[i];
        i = i + 1;
    }
    assert(key@ =~= secret@);
    Ok(key)
}

/// The address under which the session server is asked about a login.
pub fn session_url(username: &str, digest: &str, ip: Option<&str>) -> (url: String)
    ensures
        url@ == session_url_of(
            username@,
            digest@,
            match ip {
                Some(a) => Some(a@),
                None => None,
            },
        ),
{
    let mut url = "https://sessionserver.mojang.com/session/minecraft/hasJoined?username=".to_owned();
    url.append(username);
    url.append("&serverId=");
    url.append(digest);
    match ip {
        Some(address) => {
            url.append("&ip=");
            url.append(address);
        },
        None => {},
    }
    url
}

/// Judges the session server's answer to the question whether `username` has
/// joined.
pub fn check_profile(status: u16, profile: Option<GameProfile>, username: &String) -> (r: Result<
    GameProfile,
    LoginError,
>)
    ensures
        r == verified_profile(status, profile, username@),
{
    if status == 200 {
        match profile {
            Some(p) => {
                if p.name == *username {
                    Ok(p)
                } else {
                    Err(LoginError::UsernameMismatch)
                }
            },
            None => Err(LoginError::BadProfile),
        }
    } else if status == 204 {
        Err(LoginError::Unverified)
    } else {
        Err(LoginError::SessionServer(status))
    }
}

/// Appends one property as a JSON object to `out`.
fn push_property_json(property: &Property, out: &mut String) -> (ok: bool)
    ensures
        match property_json((property.name@, property.value@, signature_view(
            property.signature,
        ))) {
            Some(json) => ok && final(out)@ == old(out)@ + json,
            None => !ok,
        },
{
    out.append("{\"name\":");
    if !push_json_string(property.name.as_str(), out) {
        return false;
    }
    out.append(",\"value\":");
    if !push_json_string(property.value.as_str(), out) {
        return false;
    }
    match &property.signature {
        None => {
            out.append(",\"signature\":null}");
        },
        Some(signature) => {
            out.append(",\"signature\":");
            if !push_json_string(signature.as_str(), out) {
                return false;
            }
            out.append("}");
        },
    }
    proof {
        let name = json_quoted(property.name@)->Some_0;
        let value = json_quoted(property.value@)->Some_0;
        match signature_view(property.signature) {
            None => {
                assert(out@ =~= old(out)@ + ("{\"name\":"@ + name + ",\"value\":"@ + value
                    + ",\"signature\":null}"@));
            },
            Some(signature) => {
                let s = json_quoted(signature)->Some_0;
                assert(out@ =~= old(out)@ + ("{\"name\":"@ + name + ",\"value\":"@ + value
                    + ",\"signature\":"@ + s + "}"@));
            },
        }
    }
    true
}

/// Appends `properties` as a JSON array to `out`.
pub fn push_properties_json(properties: &Vec<Property>, out: &mut String) -> (ok: bool)
    ensures
        match properties_json(property_views(properties@)) {
            Some(json) => ok && final(out)@ == old(out)@ + json,
            None => !ok,
        },
{
    let ghost views = property_views(properties@);
    out.append("[");
    let ghost opened = out@;
    let mut i: usize = 0;
    assert(views.take(0) =~= Seq::<PropertyView>::empty());
    while i < properties.len()
        invariant
            i <= properties@.len(),
            views == property_views(properties@),
            opened == old(out)@ + "["@,
            property_list(views.take(i as int)) matches Some(list) && out@ == opened + list,
        decreases properties@.len() - i,
    {
        let ghost before = property_list(views.take(i as int))->Some_0;
        proof {
            assert(views.take(i + 1).drop_last() =~= views.take(i as int));
            assert(views.take(i + 1).last() == views[i as int]);
        }
        if i > 0 {
            out.append(",");
        }
        if !push_property_json(&properties[i], out) {
            proof {
                lemma_property_list_fails(views, i + 1);
                assert(views.take(views.len() as int) =~= views);
            }
            return false;
        }
        proof {
            let json = property_json(views[i as int])->Some_0;
            if i > 0 {
                assert(out@ =~= opened + (before + ","@ + json));
            } else {
                assert(before =~= Seq::<char>::empty());
                assert(out@ =~= opened + json);
            }
        }
        i = i + 1;
    }
    out.append("]");
    proof {
        assert(views.take(i as int) =~= views);
        let list = property_list(views)->Some_0;
        assert(out@ =~= old(out)@ + ("["@ + list + "]"@));
    }
    true
}

/// Where a front part of a list cannot be written, neither can the list.
proof fn lemma_property_list_fails(views: Seq<PropertyView>, count: int)
    requires
        0 <= count <= views.len(),
        property_list(views.take(count)) is None,
    ensures
        property_list(views) is None,
    decreases views.len() - count,
{
    if count < views.len() {
        assert(views.take(count + 1).drop_last() =~= views.take(count));
        lemma_property_list_fails(views, count + 1);
    } else {
        assert(views.take(count) =~= views);
    }
}

/// The server address of the handshake that is sent to a backend.
pub fn forwarded_address(
    mode: &String,
    backend_ip: &str,
    client_ip: &str,
    uuid: u128,
    properties: &Vec<Property>,
) -> (address: Option<String>)
    ensures
        text_view(address) == forwarded_address_of(
            mode@,
            backend_ip@,
            client_ip@,
            uuid,
            property_views(properties@),
        ),
{
    let mut address = backend_ip.to_owned();
    if *mode == "bungeecord".to_owned() {
        address.push('\0');
        address.append(client_ip);
        address.push('\0');
        push_uuid_simple(uuid, &mut address);
        address.push('\0');
        if push_properties_json(properties, &mut address) {
            proof {
                let json = properties_json(property_views(properties@))->Some_0;
                assert(address@ =~= backend_ip@ + seq!['\0'] + client_ip@ + seq!['\0']
                    + uuid_simple(uuid) + seq!['\0'] + json);
            }
            Some(address)
        } else {
            None
        }
    } else {
        Some(address)
    }
}

/// The JSON document of a status.
pub fn status_json(protocol: i32, max_players: i32, motd: &str, favicon: &str) -> (json: Option<
    String,
>)
    ensures
        text_view(json) == status_json_of(protocol, max_players, motd@, favicon@),
{
    let mut json = "{\"description\":{\"text\":".to_owned();
    if !push_json_string(motd, &mut json) {
        return None;
    }
    json.append("},\"favicon\":");
    if !push_json_string(favicon, &mut json) {
        return None;
    }
    json.append(",\"players\":{\"max\":");
    push_decimal(max_players, &mut json);
    json.append(",\"online\":0,\"sample\":[{\"id\":\"");
    push_uuid_hyphenated(SAMPLE_ID, &mut json);
    json.append("\",\"name\":\"foobar\"}]},\"version\":{\"name\":\"Lure\",\"protocol\":");
    push_decimal(protocol, &mut json);
    json.append("}}");
    proof {
        let description = json_quoted(motd@)->Some_0;
        let icon = json_quoted(favicon@)->Some_0;
        assert(json@ =~= status_json_of(protocol, max_players, motd@, favicon@)->Some_0);
    }
    Some(json)
}

/// What a turnstile is, as plain values.
pub struct AdmissionState {
    /// How many clients may be in session at once.
    pub limit: nat,
    /// How many clients are in session.
    pub active: nat,
}

/// The turnstile through which clients are admitted: it counts the sessions that
/// are open and admits no more than its limit at once.
#[derive(Clone, Copy, Debug)]
pub struct Admission {
    limit: usize,
    active: usize,
}

impl View for Admission {
    type V = AdmissionState;

    closed spec fn view(&self) -> AdmissionState {
        AdmissionState { limit: self.limit as nat, active: self.active as nat }
    }
}

/// The turnstile `turnstile` after one more client has asked to be admitted: the client
/// is admitted if fewer sessions are open than the limit allows.
pub open spec fn asked(turnstile: AdmissionState) -> AdmissionState {
    if turnstile.active < turnstile.limit {
        AdmissionState { active: turnstile.active + 1, ..turnstile }
    } else {
        turnstile
    }
}

/// The turnstile `turnstile` after `attempts` clients have asked to be admitted and no
/// session has ended.
pub open spec fn asked_times(turnstile: AdmissionState, attempts: nat) -> AdmissionState
    decreases attempts,
{
    if attempts == 0 {
        turnstile
    } else {
        asked(asked_times(turnstile, (attempts - 1) as nat))
    }
}

impl Admission {
    /// What holds of every turnstile: no more sessions are open than its limit
    /// allows.
    pub open spec fn wf(&self) -> bool {
        self@.active <= self@.limit
    }

    /// A turnstile that admits `limit` clients at once, with no session open.
    pub fn new(limit: usize) -> (turnstile: Admission)
        ensures
            turnstile.wf(),
            turnstile@ == (AdmissionState { limit: limit as nat, active: 0 }),
    {
        Admission { limit, active: 0 }
    }

    /// Asks for one client to be admitted. The client is admitted, and its
    /// session counted, if fewer sessions are open than the limit allows.
    pub fn try_acquire(&mut self) -> (admitted: bool)
        requires
            old(self).wf(),
        ensures
            final(self).wf(),
            admitted == (old(self)@.active < old(self)@.limit),
            final(self)@ == asked(old(self)@),
    {
        if self.active < self.limit {
            self.active = self.active + 1;
            true
        } else {
            false
        }
    }

    /// Whether a session is open.
    pub fn is_held(&self) -> (held: bool)
        ensures
            held == (self@.active > 0),
    {
        self.active > 0
    }

    /// Takes note that one session has ended.
    pub fn release(&mut self)
        requires
            old(self).wf(),
            old(self)@.active > 0,
        ensures
            final(self).wf(),
            final(self)@ == (AdmissionState {
                active: (old(self)@.active - 1) as nat,
                ..old(self)@
            }),
    {
        self.active = self.active - 1;
    }

    /// How many more clients would be admitted now.
    pub fn available(&self) -> (free: usize)
        requires
            self.wf(),
        ensures
            free == self@.limit - self@.active,
    {
        self.limit - self.active
    }
}

/// The cap on admission. Of the clients that ask a turnstile with no session open,
/// as many are admitted as the limit allows and no more: of `limit + 1` clients
/// exactly `limit` are admitted. The one that was refused is admitted once a
/// session has ended.
pub proof fn lemma_admission_cap(limit: nat, attempts: nat)
    ensures
        ({
            let turnstile = asked_times(AdmissionState { limit, active: 0 }, attempts);
            &&& turnstile.limit == limit
            &&& turnstile.active == if attempts <= limit {
                attempts
            } else {
                limit
            }
            &&& attempts > limit ==> asked(turnstile) == turnstile
            &&& attempts > limit && limit > 0 ==> asked(
                AdmissionState { active: (turnstile.active - 1) as nat, ..turnstile },
            ).active == limit
        }),
    decreases attempts,
{
    if attempts > 0 {
        lemma_admission_cap(limit, (attempts - 1) as nat);
    }
}

/// The proxy.
pub struct Lure {
    pub config: LureConfig,
    pub favicon: Option<String>,
    pub keypair: KeyPair,
}

impl Lure {
    /// What holds of every proxy: its configuration is well formed, and its
    /// icon, where it has one, is a data URI of a PNG image.
    pub open spec fn wf(&self) -> bool {
        &&& self.config.wf()
        &&& self.favicon matches Some(icon) ==> is_png_uri(icon@)
    }

    /// A proxy that runs with `config` and with what the making of a key pair
    /// gave: `None` where no key pair was made, else the proxy with that key
    /// pair, which has no icon yet.
    pub fn from_keypair(config: LureConfig, keypair: Option<KeyPair>) -> (lure: Option<Lure>)
        requires
            config.wf(),
        ensures
            match keypair {
                Some(pair) => lure matches Some(l) && l.wf() && l.config == config
                    && l.favicon is None && l.keypair == pair,
                None => lure is None,
            },
    {
        match keypair {
            Some(keypair) => Some(Lure { config, favicon: None, keypair }),
            None => None,
        }
    }

    /// A proxy that runs with `config`, with a key pair of its own, which it
    /// makes. `None` where no key pair could be made. The proxy has no icon
    /// yet, its private key has a modulus of exactly `KEY_BITS` bits, and its
    /// public key is the DER form of that key's modulus and exponent.
    pub fn new(config: LureConfig) -> (lure: Option<Lure>)
        requires
            config.wf(),
        ensures
            lure matches Some(l) ==> l.wf() && l.config == config && l.favicon is None
                && l.keypair.matched() && l.keypair.sized(),
    {
        Lure::from_keypair(config, KeyPair::new())
    }

    /// Makes the proxy ready to listen: its icon is made from the icon file
    /// `icon`, `None` where there is no file, and the turnstile through which clients
    /// are admitted is sized as configured.
    pub fn start(&mut self, icon: Option<&[u8]>) -> (turnstile: Admission)
        requires
            old(self).wf(),
        ensures
            final(self).wf(),
            final(self).config == old(self).config,
            final(self).keypair == old(self).keypair,
            text_view(final(self).favicon) == favicon_of(file_view(icon)),
            turnstile.wf(),
            turnstile@ == (AdmissionState {
                limit: old(self).config.listener.max_connections as nat,
                active: 0,
            }),
    {
        self.favicon = read_favicon(icon);
        Admission::new(self.config.listener.max_connections)
    }

    /// The server that the table of hosts names for `hostname`: the entry of
    /// the host name, else the entry of `"*"`.
    pub fn get_default_server(&self, hostname: String) -> (server: Option<String>)
        requires
            self.wf(),
        ensures
            text_view(server) == default_server_of(self.config.hosts@, hostname@),
    {
        if self.config.hosts.contains_key(&hostname) {
            self.config.hosts.get(&hostname)
        } else {
            self.config.hosts.get(&"*".to_owned())
        }
    }

    /// The address of the server `name`.
    pub fn get_server(&self, name: String) -> (address: Option<String>)
        requires
            self.wf(),
        ensures
            text_view(address) == server_of(self.config.servers@, name@),
    {
        self.config.servers.get(&name)
    }

    /// The icon that the status shows, made from the icon file `file`; `None`
    /// where there is no file or where it is no PNG image of 64 by 64 pixels.
    pub fn get_favicon(&self, file: Option<&[u8]>) -> (favicon: Option<String>)
        ensures
            text_view(favicon) == favicon_of(file_view(file)),
            favicon matches Some(icon) ==> is_png_uri(icon@),
    {
        read_favicon(file)
    }

    /// The client that logs in offline as `username` from `ip`.
    pub fn login_offline(&self, username: String, ip: String) -> (info: ClientInfo)
        ensures
            info.username == username,
            info.ip == ip,
            info.uuid == offline_uuid_of(username@),
            info.properties@ == Seq::<Property>::empty(),
            info.protocol_version == 0,
            info.hostname@ == Seq::<char>::empty(),
    {
        let uuid = offline_uuid(username.as_str());
        ClientInfo {
            username,
            uuid,
            ip,
            properties: Vec::new(),
            protocol_version: 0,
            hostname: String::new(),
        }
    }
}

} // verus!

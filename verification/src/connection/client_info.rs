//! What is known of a client once it has logged in.

use crate::packets::Property;
use vstd::prelude::*;

verus! {

/// A client that has logged in.
#[derive(Clone, Debug, PartialEq, Eq)]
pub struct ClientInfo {
    /// The name that the client logged in under.
    pub username: String,
    /// The client's identifier.
    pub uuid: u128,
    /// The address that the client connected from, without its port.
    pub ip: String,
    /// The properties of the client's profile: those that the session server
    /// gave, or none where the login was offline.
    pub properties: Vec<Property>,
    /// The protocol version that the client declared in its handshake.
    pub protocol_version: i32,
    /// The host name that the client asked for in its handshake.
    pub hostname: String,
}

} // verus!

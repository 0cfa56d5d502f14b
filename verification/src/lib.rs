//! The core of a reverse proxy for the Minecraft Java Edition protocol: the
//! packet framer with its compression and encryption layers, and the rules by
//! which a session is authenticated and routed to a backend.

pub mod cipher;
pub mod config;
pub mod connection;
pub mod digest;
pub mod frame;
pub mod keypair;
pub mod lure;
pub mod packets;
pub mod session;
pub mod text;
pub mod utils;
pub mod varint;
pub mod zlib;

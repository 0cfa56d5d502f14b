//! What one connection holds: its framer and what is known of its client.

pub mod client_info;
pub mod codec;
pub mod connection;

//! Vuvuzela: metadata-private messaging through dead drops, a mixnet of
//! onion-peeling servers, and cover traffic.
pub mod bytes;
pub mod crypto;
pub mod onion;
pub mod primitives;
pub mod types;
pub mod dead_drop;
pub mod x25519;
pub mod codec;
pub mod protocol;
pub mod config;
pub mod server;
pub mod client;
pub mod demo;

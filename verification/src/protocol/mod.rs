//! The Vuvuzela protocols: conversations, dialing and cover traffic.
pub mod conversation;
pub mod dialing;
pub mod cover_traffic;

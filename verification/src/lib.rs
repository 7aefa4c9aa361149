//! A real-time matchmaking lobby core: sessions, lobbies, a lobby registry,
//! and the wire codec for the pre-game protocol, with verified contracts.

pub mod codec;
pub mod handler;
pub mod lobby;
pub mod messages;
pub mod session;
pub mod text;

//! The part of a node that looks after its peers.

pub mod handshake;
pub mod handshake_laws;
pub mod inbox;
pub mod inbox_laws;
pub mod laws;
pub mod messages;
pub mod peer;
pub mod punishment;
pub mod requests_of_user;
pub mod retry;
pub mod retry_laws;
pub mod sending;
pub mod sending_laws;
pub mod state;
pub mod upkeep;
pub mod upkeep_laws;

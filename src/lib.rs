//! Line grammar, message mapping and handshake commands of a small IRC client.
pub mod grammar;
pub mod irc;
pub mod lemmas;

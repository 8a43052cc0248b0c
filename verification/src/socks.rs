//! The SOCKS5 protocol: wire messages and the handshake that exchanges them.

pub mod data;
pub mod handler;
pub mod handshake_laws;
pub mod wire_laws;

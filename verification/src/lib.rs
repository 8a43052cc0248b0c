//! The core of a SOCKS5 proxy server: the wire codec, the handshake state
//! machine that runs on each connection, the dispatcher that routes bytes to
//! the machines, and the bookkeeping of the event loop around them.

pub mod conn;
pub mod dispatcher;
pub mod evloop;
pub mod socks;

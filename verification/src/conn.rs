//! One accepted client connection, as the protocol layer sees it.
//!
//! A [`Connection`] names the client and queues the bytes that are owed to it.
//! Whoever owns the socket sends the queue when the socket is ready, and
//! reports back how much of it went out, so nothing here waits for a socket.

use vstd::prelude::*;

verus! {

/// The address and port of one end of a TCP stream.
#[derive(Clone, Copy, Debug, PartialEq, Eq)]
pub enum SockAddr {
    /// An IPv4 address, as four octets in network order, and a port.
    V4([u8; 4], u16),
    /// An IPv6 address, as sixteen octets in network order, and a port.
    V6([u8; 16], u16),
}

/// Why a connection took no bytes.
#[derive(Clone, Copy, Debug, PartialEq, Eq, Structural)]
pub enum WriteError {
    /// The connection was closed for writing.
    Closed,
}

/// One accepted client connection.
#[derive(Debug)]
pub struct Connection {
    id: usize,
    listener: Option<usize>,
    addr: SockAddr,
    outbound: Vec<u8>,
    open: bool,
}

/// Mathematical value of a [`Connection`].
pub struct ConnectionView {
    /// The identifier under which the connection is registered.
    pub id: usize,
    /// The listener that accepted it, if one did.
    pub listener: Option<usize>,
    /// The client's address.
    pub addr: SockAddr,
    /// The bytes written to the connection and not yet sent, oldest first.
    pub outbound: Seq<u8>,
    /// Whether the connection still takes bytes.
    pub open: bool,
}

impl ConnectionView {
    /// The connection after `bytes` were written to it.
    pub open spec fn write(self, bytes: Seq<u8>) -> ConnectionView {
        ConnectionView { outbound: self.outbound + bytes, ..self }
    }
}

impl View for Connection {
    type V = ConnectionView;

    closed spec fn view(&self) -> ConnectionView {
        ConnectionView {
            id: self.id,
            listener: self.listener,
            addr: self.addr,
            outbound: self.outbound@,
            open: self.open,
        }
    }
}

/// Appends `bytes` to `out`.
pub fn append_bytes(out: &mut Vec<u8>, bytes: &[u8])
    ensures
        final(out)@ == old(out)@ + bytes@,
{
    let mut i: usize = 0;
    while i < bytes.len()
        invariant
            i <= bytes.len(),
            out@ =~= old(out)@ + bytes@.subrange(0, i as int),
        decreases bytes.len() - i,
    {
        out.push(bytes[i]);
        i = i + 1;
    }
}

impl Connection {
    /// A connection that `listener` accepted from `addr`, registered under
    /// `id`: open, with nothing queued.
    pub fn new(id: usize, listener: usize, addr: SockAddr) -> (conn: Connection)
        ensures
            conn@ == (ConnectionView {
                id,
                listener: Some(listener),
                addr,
                outbound: Seq::<u8>::empty(),
                open: true,
            }),
    {
        Connection { id, listener: Some(listener), addr, outbound: Vec::new(), open: true }
    }

    /// The client's address.
    pub fn addr(&self) -> (addr: &SockAddr)
        ensures
            *addr == self@.addr,
    {
        &self.addr
    }

    /// The identifier under which the connection is registered.
    pub fn id(&self) -> (id: usize)
        ensures
            id == self@.id,
    {
        self.id
    }

    /// The listener that accepted the connection.
    pub fn listener(&self) -> (listener: Option<usize>)
        ensures
            listener == self@.listener,
    {
        self.listener
    }

    /// Whether the connection still takes bytes.
    pub fn is_open(&self) -> (open: bool)
        ensures
            open == self@.open,
    {
        self.open
    }

    /// The bytes written to the connection and not yet sent, oldest first.
    pub fn outbound(&self) -> (bytes: &[u8])
        ensures
            bytes@ == self@.outbound,
    {
        self.outbound.as_slice()
    }

    /// Queues all of `buf` behind what is already queued and returns its
    /// length. A closed connection takes nothing.
    pub fn write(&mut self, buf: &[u8]) -> (r: Result<usize, WriteError>)
        ensures
            match r {
                Ok(n) => old(self)@.open && n == buf@.len() && final(self)@ == old(self)@.write(
                    buf@,
                ),
                Err(e) => !old(self)@.open && e == WriteError::Closed && final(self)@ == old(self)@,
            },
    {
        if !self.open {
            return Err(WriteError::Closed);
        }
        append_bytes(&mut self.outbound, buf);
        Ok(buf.len())
    }

    /// Drops the first `n` queued bytes, once they have been sent; all of
    /// them when fewer than `n` are queued.
    pub fn mark_sent(&mut self, n: usize)
        ensures
            final(self)@ == (ConnectionView {
                outbound: if n <= old(self)@.outbound.len() {
                    old(self)@.outbound.skip(n as int)
                } else {
                    Seq::<u8>::empty()
                },
                ..old(self)@
            }),
    {
        if n <= self.outbound.len() {
            let rest: Vec<u8> = self.outbound.split_off(n);
            self.outbound = rest;
        } else {
            self.outbound = Vec::new();
        }
    }

    /// Closes the connection for writing. What is queued stays queued.
    pub fn close(&mut self)
        ensures
            final(self)@ == (ConnectionView { open: false, ..old(self)@ }),
    {
        self.open = false;
    }
}

} // verus!

//! Routes the bytes of each connection to the handler of that connection,
//! and turns what the handlers ask for into what is to happen to the
//! connections.

use crate::conn::Connection;
use crate::socks::data::{NetAddr, NetAddrView};
use crate::socks::handler::{
    spec_consume, spec_requests, HandlerRequest, HandlerRequestView, SocksHandler,
    SocksHandlerFactory, SocksHandlerState, SocksHandlerView,
};
use std::collections::HashMap;
use vstd::prelude::*;

verus! {

broadcast use vstd::std_specs::hash::group_hash_axioms;

/// What is to happen after a connection's bytes were handled.
#[derive(Debug, PartialEq, Eq)]
pub enum DispatcherRequest {
    /// Drop the connection with this identifier: its handler is gone.
    Drop(usize),
    /// The client asks to be connected to this address and port.
    Connect(NetAddr, u16),
}

/// Mathematical value of a [`DispatcherRequest`].
pub enum DispatcherRequestView {
    Drop(usize),
    Connect(NetAddrView, u16),
}

impl View for DispatcherRequest {
    type V = DispatcherRequestView;

    open spec fn view(&self) -> DispatcherRequestView {
        match self {
            DispatcherRequest::Drop(id) => DispatcherRequestView::Drop(*id),
            DispatcherRequest::Connect(addr, port) => DispatcherRequestView::Connect(addr@, *port),
        }
    }
}

/// The values of a list of requests, in order.
pub open spec fn spec_dispatcher_requests(requests: Seq<DispatcherRequest>) -> Seq<
    DispatcherRequestView,
> {
    requests.map_values(|r: DispatcherRequest| r@)
}

/// What the dispatcher makes of a request of the handler of connection
/// `id`: to close is to drop that connection, and a wish to connect is
/// handed on as it is.
pub open spec fn spec_lifecycle(id: usize, request: HandlerRequestView) -> DispatcherRequestView {
    match request {
        HandlerRequestView::Close => DispatcherRequestView::Drop(id),
        HandlerRequestView::Connect(addr, port) => DispatcherRequestView::Connect(addr, port),
    }
}

/// What the dispatcher makes of the requests of the handler of connection
/// `id`, one for one and in their order.
pub open spec fn spec_lifecycle_all(id: usize, requests: Seq<HandlerRequestView>) -> Seq<
    DispatcherRequestView,
> {
    requests.map_values(|r: HandlerRequestView| spec_lifecycle(id, r))
}

/// The payload that the handler of connection `id` holds: what arrived
/// behind a handshake that is through.
pub open spec fn spec_payload(handlers: Map<usize, SocksHandlerView>, id: usize) -> Seq<u8> {
    if handlers.contains_key(id) && handlers[id].state == SocksHandlerState::Relaying {
        handlers[id].pending
    } else {
        Seq::empty()
    }
}

/// The handlers once the payload of connection `id` is handed over.
pub open spec fn spec_without_payload(handlers: Map<usize, SocksHandlerView>, id: usize) -> Map<
    usize,
    SocksHandlerView,
> {
    if handlers.contains_key(id) && handlers[id].state == SocksHandlerState::Relaying {
        handlers.insert(id, SocksHandlerView { pending: Seq::empty(), ..handlers[id] })
    } else {
        handlers
    }
}

/// The handlers of the live connections, by connection identifier.
pub struct Dispatcher {
    factory: SocksHandlerFactory,
    handlers: HashMap<usize, SocksHandler>,
}

impl View for Dispatcher {
    type V = Map<usize, SocksHandlerView>;

    closed spec fn view(&self) -> Map<usize, SocksHandlerView> {
        self.handlers@.map_values(|h: SocksHandler| h@)
    }
}

impl Dispatcher {
    /// A dispatcher without handlers.
    pub fn new(factory: SocksHandlerFactory) -> (dispatcher: Dispatcher)
        ensures
            dispatcher@ == Map::<usize, SocksHandlerView>::empty(),
    {
        let handlers: HashMap<usize, SocksHandler> = HashMap::new();
        Dispatcher { factory, handlers }
    }

    /// Removes every handler.
    pub fn clear(&mut self)
        ensures
            final(self)@ == Map::<usize, SocksHandlerView>::empty(),
    {
        self.handlers.clear();
    }

    /// Whether the connection with identifier `id` has a handler.
    pub fn has_handler(&self, id: usize) -> (found: bool)
        ensures
            found == self@.contains_key(id),
    {
        self.handlers.contains_key(&id)
    }

    /// Where the handshake of the connection `id` stands, if the connection
    /// has a handler.
    pub fn handshake_state(&self, id: usize) -> (state: Option<SocksHandlerState>)
        ensures
            match state {
                Some(state) => self@.contains_key(id) && state == self@[id].state,
                None => !self@.contains_key(id),
            },
    {
        match self.handlers.get(&id) {
            Some(handler) => Some(handler.state()),
            None => None,
        }
    }

    /// Gives the new connection `conn` a handler of its own. Whatever
    /// handler stood under its identifier before is gone.
    pub fn handle_new_connection(&mut self, conn: &Connection)
        ensures
            final(self)@ == old(self)@.insert(conn@.id, SocksHandlerView::fresh()),
    {
        let handler = self.factory.new_handler(conn);
        let _ = self.handlers.insert(conn.id(), handler);
    }

    /// Hands the bytes that arrived on `conn` to its handler and returns
    /// what is to happen next. A handler that closed its handshake is
    /// removed.
    pub fn handle_connection_data(&mut self, conn: &mut Connection, data: &[u8]) -> (requests: Vec<
        DispatcherRequest,
    >)
        requires
            old(self)@.contains_key(old(conn)@.id),
        ensures
            ({
                let id = old(conn)@.id;
                let handler = old(self)@[id];
                let out = spec_consume(handler.state, handler.pending + data@, old(conn)@.open);
                &&& final(conn)@ == old(conn)@.write(out.written)
                &&& spec_dispatcher_requests(requests@) == spec_lifecycle_all(id, out.requests)
                &&& final(self)@ == if out.requests.contains(HandlerRequestView::Close) {
                    old(self)@.remove(id)
                } else {
                    old(self)@.insert(
                        id,
                        SocksHandlerView { state: out.state, pending: out.pending },
                    )
                }
            }),
    {
        let id: usize = conn.id();
        let mut handler = match self.handlers.remove(&id) {
            Some(handler) => handler,
            // Not reached: the caller vouches for the handler.
            None => {
                return Vec::new();
            },
        };
        let ghost out = spec_consume(handler@.state, handler@.pending + data@, conn@.open);
        let handler_requests = handler.handle_connection_data(conn, data);
        let mut requests: Vec<DispatcherRequest> = Vec::new();
        assert(spec_dispatcher_requests(requests@) =~= spec_lifecycle_all(
            id,
            out.requests.subrange(0, 0),
        ));
        let mut dropped: bool = false;
        let mut i: usize = 0;
        while i < handler_requests.len()
            invariant
                i <= handler_requests.len(),
                spec_requests(handler_requests@) == out.requests,
                spec_dispatcher_requests(requests@) == spec_lifecycle_all(
                    id,
                    out.requests.subrange(0, i as int),
                ),
                dropped == out.requests.subrange(0, i as int).contains(HandlerRequestView::Close),
            decreases handler_requests.len() - i,
        {
            let ghost seen = out.requests.subrange(0, i as int);
            let ghost next = out.requests.subrange(0, i + 1);
            let request = match &handler_requests[i] {
                HandlerRequest::Close => {
                    dropped = true;
                    DispatcherRequest::Drop(id)
                },
                HandlerRequest::Connect(addr, port) => DispatcherRequest::Connect(
                    addr.clone(),
                    *port,
                ),
            };
            let ghost made = requests@;
            requests.push(request);
            proof {
                assert(spec_dispatcher_requests(requests@) =~= spec_dispatcher_requests(made).push(
                    spec_lifecycle(id, out.requests[i as int]),
                ));
                assert(spec_lifecycle_all(id, next) =~= spec_lifecycle_all(id, seen).push(
                    spec_lifecycle(id, out.requests[i as int]),
                ));
                assert(next.contains(HandlerRequestView::Close) <==> seen.contains(
                    HandlerRequestView::Close,
                ) || out.requests[i as int] == HandlerRequestView::Close) by {
                    if out.requests[i as int] == HandlerRequestView::Close {
                        assert(next[i as int] == HandlerRequestView::Close);
                    }
                }
            }
            i = i + 1;
        }
        assert(out.requests.subrange(0, i as int) =~= out.requests);
        if !dropped {
            let _ = self.handlers.insert(id, handler);
            assert(self@ =~= old(self)@.insert(
                id,
                SocksHandlerView { state: out.state, pending: out.pending },
            ));
        }
        requests
    }

    /// Hands over the payload that arrived on the connection `id` behind its
    /// handshake, and leaves none of it with the handler. There is none
    /// where the connection has no handler or its handshake is not through.
    pub fn take_payload(&mut self, id: usize) -> (payload: Vec<u8>)
        ensures
            payload@ == spec_payload(old(self)@, id),
            final(self)@ == spec_without_payload(old(self)@, id),
    {
        match self.handlers.remove(&id) {
            Some(handler) => {
                let mut handler = handler;
                let payload: Vec<u8> = handler.take_payload();
                let _ = self.handlers.insert(id, handler);
                assert(self@ =~= spec_without_payload(old(self)@, id));
                assert(payload@ =~= spec_payload(old(self)@, id));
                payload
            },
            None => {
                assert(self@ =~= old(self)@);
                Vec::new()
            },
        }
    }

    /// Removes the handler of `conn`, if it has one.
    pub fn handle_drop_connection(&mut self, conn: &Connection)
        ensures
            final(self)@ == old(self)@.remove(conn@.id),
    {
        let id: usize = conn.id();
        let _ = self.handlers.remove(&id);
    }
}

} // verus!

//! The bookkeeping of the event loop: which listeners and connections are
//! registered, under which identifiers, and what a readiness event means
//! for them.
//!
//! The loop itself, which waits for the sockets and reads and writes them,
//! lives with the sockets. It tells an [`EventLoop`] what happened and is
//! told what to do.

use crate::conn::{Connection, ConnectionView, SockAddr};
use crate::dispatcher::{
    spec_dispatcher_requests, spec_lifecycle, spec_lifecycle_all, spec_payload,
    spec_without_payload, Dispatcher, DispatcherRequest,
};
use crate::socks::data::{NetAddr, NetAddrView};
use crate::socks::handler::{
    spec_consume, HandlerRequestView, SocksHandlerState, SocksHandlerView,
};
use crate::socks::handshake_laws::lemma_requests_follow_state;
use slab::Slab;
use vstd::prelude::*;

verus! {

/// The size of the buffer into which the loop reads from a connection.
pub const BUFFER_SIZE: usize = 2048;

/// The table of an outside crate in which the listeners and the connections
/// are kept.
#[verifier::external_type_specification]
#[verifier::external_body]
#[verifier::reject_recursive_types(T)]
pub struct ExSlab<T>(Slab<T>);

/// The connections that a table holds, each under its key.
pub uninterp spec fn table_entries(table: Slab<Connection>) -> Map<usize, Connection>;

/// The key under which a table will store the next connection.
pub uninterp spec fn table_next_key(table: Slab<Connection>) -> usize;

/// `Slab::new`: a table that holds nothing.
#[verifier::external_body]
fn table_new() -> (fresh: Slab<Connection>)
    ensures
        table_entries(fresh) =~= Map::empty(),
{
    Slab::new()
}

/// `Slab::vacant_key`: the key that the next insertion will use. Nothing is
/// stored under it.
#[verifier::external_body]
fn table_vacant_key(table: &Slab<Connection>) -> (key: usize)
    ensures
        key == table_next_key(*table),
        !table_entries(*table).contains_key(key),
{
    table.vacant_key()
}

/// `Slab::contains`: whether something is stored under `key`.
#[verifier::external_body]
fn table_contains(table: &Slab<Connection>, key: usize) -> (found: bool)
    ensures
        found == table_entries(*table).contains_key(key),
{
    table.contains(key)
}

/// `Slab::insert`: stores `conn` under the next key and returns that key;
/// what was stored stays as it was. The crate's function gives up only when
/// the table's storage would pass `isize::MAX` bytes, which is to run out of
/// memory.
#[verifier::external_body]
fn table_insert(table: &mut Slab<Connection>, conn: Connection) -> (key: usize)
    ensures
        key == table_next_key(*old(table)),
        table_entries(*final(table)) == table_entries(*old(table)).insert(key, conn),
{
    table.insert(conn)
}

/// `Slab::get`: what is stored under `key`, if anything is.
#[verifier::external_body]
fn table_get(table: &Slab<Connection>, key: usize) -> (found: Option<&Connection>)
    ensures
        match found {
            Some(conn) => table_entries(*table).contains_key(key) && *conn == table_entries(
                *table,
            )[key],
            None => !table_entries(*table).contains_key(key),
        },
{
    table.get(key)
}

/// `Slab::get_mut`: access to what is stored under `key`, if anything is.
/// Whatever the caller leaves there is what the table then holds under
/// `key`; nothing else changes.
#[verifier::external_body]
fn table_get_mut(table: &mut Slab<Connection>, key: usize) -> (found: Option<&mut Connection>)
    ensures
        table_next_key(*final(table)) == table_next_key(*old(table)),
        match found {
            Some(conn) => table_entries(*old(table)).contains_key(key) && *conn == table_entries(
                *old(table),
            )[key] && table_entries(*final(table)) == table_entries(*old(table)).insert(
                key,
                *final(conn),
            ),
            None => !table_entries(*old(table)).contains_key(key) && table_entries(*final(table))
                == table_entries(*old(table)),
        },
{
    table.get_mut(key)
}

/// `Slab::remove`: takes out and returns what is stored under `key`; the
/// rest stays. The crate's function panics when nothing is stored there.
#[verifier::external_body]
fn table_remove(table: &mut Slab<Connection>, key: usize) -> (conn: Connection)
    requires
        table_entries(*old(table)).contains_key(key),
    ensures
        conn == table_entries(*old(table))[key],
        table_entries(*final(table)) == table_entries(*old(table)).remove(key),
{
    table.remove(key)
}

/// A listening socket, as the bookkeeping sees it.
#[derive(Clone, Copy, Debug, PartialEq, Eq)]
pub struct Listener {
    /// The identifier under which the listener is registered.
    pub id: usize,
    /// The address the socket is bound to.
    pub addr: SockAddr,
}

/// The listeners that a table holds, each under its key.
pub uninterp spec fn listener_entries(table: Slab<Listener>) -> Map<usize, Listener>;

/// The key under which a table will store the next listener.
pub uninterp spec fn listener_next_key(table: Slab<Listener>) -> usize;

/// `Slab::new`, for the table of the listeners: a table that holds nothing.
#[verifier::external_body]
fn listener_table_new() -> (fresh: Slab<Listener>)
    ensures
        listener_entries(fresh) =~= Map::empty(),
{
    Slab::new()
}

/// `Slab::vacant_key`, for the table of the listeners: the key that the next
/// insertion will use. Nothing is stored under it.
#[verifier::external_body]
fn listener_table_vacant_key(table: &Slab<Listener>) -> (key: usize)
    ensures
        key == listener_next_key(*table),
        !listener_entries(*table).contains_key(key),
{
    table.vacant_key()
}

/// `Slab::insert`, for the table of the listeners: stores `listener` under
/// the next key and returns that key; what was stored stays as it was. The
/// crate's function gives up only when the table's storage would pass
/// `isize::MAX` bytes, which is to run out of memory.
#[verifier::external_body]
fn listener_table_insert(table: &mut Slab<Listener>, listener: Listener) -> (key: usize)
    ensures
        key == listener_next_key(*old(table)),
        listener_entries(*final(table)) == listener_entries(*old(table)).insert(key, listener),
{
    table.insert(listener)
}

/// `Slab::get`, for the table of the listeners: what is stored under `key`,
/// if anything is.
#[verifier::external_body]
fn listener_table_get(table: &Slab<Listener>, key: usize) -> (found: Option<&Listener>)
    ensures
        match found {
            Some(listener) => listener_entries(*table).contains_key(key) && *listener
                == listener_entries(*table)[key],
            None => !listener_entries(*table).contains_key(key),
        },
{
    table.get(key)
}

/// What a token of the poller names.
#[derive(Clone, Copy, Debug, PartialEq, Eq, Structural)]
pub enum Source {
    /// The listener with this identifier: a client waits to be accepted.
    Listener(usize),
    /// The connection with this identifier: bytes wait to be read.
    Connection(usize),
}

/// Why a client was not admitted.
#[derive(Clone, Copy, Debug, PartialEq, Eq, Structural)]
pub enum AcceptError {
    /// No listener is registered under the identifier given.
    UnknownListener,
    /// The identifier that the table gives next is too large to have a
    /// token.
    NoToken,
}

/// What the loop is to do after an event was handled.
#[derive(Debug)]
pub enum Action {
    /// The connection is no longer registered: send what is left in its
    /// queue if the socket takes it, then close the socket.
    Close(Connection),
    /// The client of the connection with this identifier asks to be
    /// connected to this address and port.
    Connect(usize, NetAddr, u16),
    /// These bytes arrived on the connection with this identifier behind its
    /// handshake: they are for the target of the connection.
    Payload(usize, Vec<u8>),
}

/// Mathematical value of an [`Action`].
pub enum ActionView {
    Close(ConnectionView),
    Connect(usize, NetAddrView, u16),
    Payload(usize, Seq<u8>),
}

impl View for Action {
    type V = ActionView;

    open spec fn view(&self) -> ActionView {
        match self {
            Action::Close(conn) => ActionView::Close(conn@),
            Action::Connect(id, addr, port) => ActionView::Connect(*id, addr@, *port),
            Action::Payload(id, bytes) => ActionView::Payload(*id, bytes@),
        }
    }
}

/// The values of a list of actions, in order.
pub open spec fn spec_actions(actions: Seq<Action>) -> Seq<ActionView> {
    actions.map_values(|a: Action| a@)
}

/// The action that follows from a request of the handler of connection
/// `id`, when `conn` is that connection after the handler wrote to it.
pub open spec fn spec_action_of(
    id: usize,
    conn: ConnectionView,
    request: HandlerRequestView,
) -> ActionView {
    match request {
        HandlerRequestView::Close => ActionView::Close(conn),
        HandlerRequestView::Connect(addr, port) => ActionView::Connect(id, addr, port),
    }
}

/// The token under which the listener `id` is registered with the poller.
pub open spec fn spec_listener_token(id: usize) -> int {
    2 * id
}

/// The token under which the connection `id` is registered with the poller.
pub open spec fn spec_connection_token(id: usize) -> int {
    2 * id + 1
}

/// The token of the listener `id`, unless it is too large for a token.
pub fn listener_token(id: usize) -> (token: Option<usize>)
    ensures
        match token {
            Some(token) => token == spec_listener_token(id),
            None => spec_listener_token(id) > usize::MAX,
        },
{
    id.checked_mul(2)
}

/// The token of the connection `id`, unless it is too large for a token.
pub fn connection_token(id: usize) -> (token: Option<usize>)
    ensures
        match token {
            Some(token) => token == spec_connection_token(id),
            None => spec_connection_token(id) > usize::MAX,
        },
{
    match id.checked_mul(2) {
        Some(twice) => twice.checked_add(1),
        None => None,
    }
}

/// What `token` names: an even token a listener, an odd one a connection.
pub fn classify(token: usize) -> (source: Source)
    ensures
        match source {
            Source::Listener(id) => token == spec_listener_token(id),
            Source::Connection(id) => token == spec_connection_token(id),
        },
{
    if token % 2 == 0 {
        Source::Listener(token / 2)
    } else {
        Source::Connection((token - 1) / 2)
    }
}

/// The registered listeners and connections, and the handlers of the
/// connections.
pub struct EventLoop {
    dispatcher: Dispatcher,
    listeners: Slab<Listener>,
    connections: Slab<Connection>,
}

/// Mathematical value of an [`EventLoop`].
pub struct EventLoopView {
    /// The listeners, by identifier.
    pub listeners: Map<usize, Listener>,
    /// The live connections, by identifier.
    pub connections: Map<usize, ConnectionView>,
    /// The handshakes of the live connections, by connection identifier.
    pub handlers: Map<usize, SocksHandlerView>,
}

impl EventLoopView {
    /// The books agree: every listener and every connection is stored under
    /// its own identifier, and the identifier has a token. Every connection
    /// was accepted by a registered listener. The connections that have a
    /// handler are the live ones, and no handshake of a live connection is
    /// closed.
    pub open spec fn coherent(self) -> bool {
        &&& forall|id: usize| #[trigger]
            self.listeners.contains_key(id) ==> {
                &&& self.listeners[id].id == id
                &&& spec_listener_token(id) <= usize::MAX
            }
        &&& self.handlers.dom() == self.connections.dom()
        &&& forall|id: usize| #[trigger]
            self.connections.contains_key(id) ==> {
                &&& self.connections[id].id == id
                &&& spec_connection_token(id) <= usize::MAX
                &&& self.connections[id].listener matches Some(l) && self.listeners.contains_key(l)
                &&& self.handlers[id].state != SocksHandlerState::Closed
            }
    }

    /// What holds of every event loop: its books agree, and no handler
    /// holds payload.
    pub open spec fn well_formed(self) -> bool {
        &&& self.coherent()
        &&& forall|id: usize| #[trigger]
            self.handlers.contains_key(id) ==> spec_payload(self.handlers, id).len() == 0
    }

    /// The loop without the connection `id` and its handler.
    pub open spec fn without(self, id: usize) -> EventLoopView {
        EventLoopView {
            connections: self.connections.remove(id),
            handlers: self.handlers.remove(id),
            ..self
        }
    }

    /// The loop after `listener` accepted a client from `addr`, which is
    /// registered as connection `id`.
    pub open spec fn accept(self, id: usize, listener: usize, addr: SockAddr) -> EventLoopView {
        EventLoopView {
            connections: self.connections.insert(
                id,
                ConnectionView {
                    id,
                    listener: Some(listener),
                    addr,
                    outbound: Seq::empty(),
                    open: true,
                },
            ),
            handlers: self.handlers.insert(id, SocksHandlerView::fresh()),
            ..self
        }
    }

    /// The loop after the transport of the connection `id` failed, and what
    /// is then to be done: the connection and its handler are removed, and
    /// the connection is handed over to be closed. Nothing happens for a
    /// connection that is not registered.
    pub open spec fn failed(self, id: usize) -> (EventLoopView, Seq<ActionView>) {
        if !self.connections.contains_key(id) {
            (self, Seq::empty())
        } else {
            (self.without(id), seq![ActionView::Close(self.connections[id])])
        }
    }

    /// The loop after the bytes `data` were read from the connection `id`,
    /// and what is then to be done.
    ///
    /// Nothing happens for a connection that is not registered. No bytes
    /// mean that the client closed its end: the connection is removed. Else
    /// the connection's handler takes the bytes, and the connection is
    /// removed if the handler asks to close it. What arrived behind a
    /// handshake that is through is handed over as payload, so that no
    /// handler keeps it.
    pub open spec fn readable(self, id: usize, data: Seq<u8>) -> (EventLoopView, Seq<ActionView>) {
        let (handled, actions) = self.handled(id, data);
        let payload = spec_payload(handled.handlers, id);
        (
            EventLoopView { handlers: spec_without_payload(handled.handlers, id), ..handled },
            if payload.len() > 0 {
                actions.push(ActionView::Payload(id, payload))
            } else {
                actions
            },
        )
    }

    /// The loop after the handler of the connection `id` took the bytes
    /// `data`, before the payload is handed over.
    pub open spec fn handled(self, id: usize, data: Seq<u8>) -> (EventLoopView, Seq<ActionView>) {
        if !self.connections.contains_key(id) {
            (self, Seq::empty())
        } else if data.len() == 0 {
            (self.without(id), seq![ActionView::Close(self.connections[id])])
        } else {
            let handler = self.handlers[id];
            let out = spec_consume(
                handler.state,
                handler.pending + data,
                self.connections[id].open,
            );
            let conn = self.connections[id].write(out.written);
            let actions = out.requests.map_values(
                |r: HandlerRequestView| spec_action_of(id, conn, r),
            );
            if out.requests.contains(HandlerRequestView::Close) {
                (self.without(id), actions)
            } else {
                (
                    EventLoopView {
                        connections: self.connections.insert(id, conn),
                        handlers: self.handlers.insert(
                            id,
                            SocksHandlerView { state: out.state, pending: out.pending },
                        ),
                        ..self
                    },
                    actions,
                )
            }
        }
    }
}

/// The values of the connections of a table.
pub open spec fn spec_views(table: Map<usize, Connection>) -> Map<usize, ConnectionView> {
    table.map_values(|c: Connection| c@)
}

impl View for EventLoop {
    type V = EventLoopView;

    closed spec fn view(&self) -> EventLoopView {
        EventLoopView {
            listeners: listener_entries(self.listeners),
            connections: spec_views(table_entries(self.connections)),
            handlers: self.dispatcher@,
        }
    }
}

impl EventLoop {
    /// The identifier that the next accepted connection gets.
    pub closed spec fn spec_next_id(&self) -> usize {
        table_next_key(self.connections)
    }

    /// The identifier that the next listener gets.
    pub closed spec fn spec_next_listener_id(&self) -> usize {
        listener_next_key(self.listeners)
    }

    /// An event loop without listeners and connections. It starts without
    /// handlers: those that `dispatcher` brings are removed.
    pub fn new(dispatcher: Dispatcher) -> (evloop: EventLoop)
        ensures
            evloop@.well_formed(),
            evloop@ == (EventLoopView {
                listeners: Map::empty(),
                connections: Map::empty(),
                handlers: Map::empty(),
            }),
    {
        let mut dispatcher = dispatcher;
        dispatcher.clear();
        let evloop = EventLoop {
            dispatcher,
            listeners: listener_table_new(),
            connections: table_new(),
        };
        assert(evloop@.connections =~= Map::empty());
        evloop
    }

    /// Registers a listener bound to `addr` and returns its identifier.
    /// No listener is registered when its identifier would be too large to
    /// have a token.
    pub fn add_listener(&mut self, addr: SockAddr) -> (id: Option<usize>)
        requires
            old(self)@.well_formed(),
        ensures
            final(self)@.well_formed(),
            final(self).spec_next_id() == old(self).spec_next_id(),
            match id {
                Some(id) => {
                    &&& id == old(self).spec_next_listener_id()
                    &&& !old(self)@.listeners.contains_key(id)
                    &&& spec_listener_token(id) <= usize::MAX
                    &&& final(self)@ == (EventLoopView {
                        listeners: old(self)@.listeners.insert(id, Listener { id, addr }),
                        ..old(self)@
                    })
                },
                None => {
                    &&& spec_listener_token(old(self).spec_next_listener_id()) > usize::MAX
                    &&& final(self)@ == old(self)@
                    &&& final(self).spec_next_listener_id() == old(self).spec_next_listener_id()
                },
            },
    {
        let id: usize = listener_table_vacant_key(&self.listeners);
        if listener_token(id).is_none() {
            return None;
        }
        let key: usize = listener_table_insert(&mut self.listeners, Listener { id, addr });
        Some(key)
    }

    /// The listener registered under `id`, if there is one.
    pub fn listener(&self, id: usize) -> (found: Option<Listener>)
        ensures
            match found {
                Some(listener) => self@.listeners.contains_key(id) && listener
                    == self@.listeners[id],
                None => !self@.listeners.contains_key(id),
            },
    {
        match listener_table_get(&self.listeners, id) {
            Some(listener) => Some(*listener),
            None => None,
        }
    }

    /// The connection registered under `id`, if there is one.
    pub fn connection(&self, id: usize) -> (found: Option<&Connection>)
        ensures
            match found {
                Some(conn) => self@.connections.contains_key(id) && conn@ == self@.connections[id],
                None => !self@.connections.contains_key(id),
            },
    {
        table_get(&self.connections, id)
    }

    /// Where the handshake of the connection `id` stands, if the connection
    /// is registered.
    pub fn handshake_state(&self, id: usize) -> (state: Option<SocksHandlerState>)
        ensures
            match state {
                Some(state) => self@.handlers.contains_key(id) && state == self@.handlers[id].state,
                None => !self@.handlers.contains_key(id),
            },
    {
        self.dispatcher.handshake_state(id)
    }

    /// Admits a client that the listener `listener_id` accepted from
    /// `addr`: registers a connection for it, gives the connection a fresh
    /// handler, and returns the connection's identifier.
    pub fn handle_new_connection(&mut self, listener_id: usize, addr: SockAddr) -> (r: Result<
        usize,
        AcceptError,
    >)
        requires
            old(self)@.well_formed(),
        ensures
            final(self)@.well_formed(),
            match r {
                Ok(id) => {
                    &&& old(self)@.listeners.contains_key(listener_id)
                    &&& id == old(self).spec_next_id()
                    &&& spec_connection_token(id) <= usize::MAX
                    &&& !old(self)@.connections.contains_key(id)
                    &&& final(self)@ == old(self)@.accept(id, listener_id, addr)
                },
                Err(AcceptError::UnknownListener) => !old(self)@.listeners.contains_key(
                    listener_id,
                ) && final(self)@ == old(self)@,
                Err(AcceptError::NoToken) => {
                    &&& old(self)@.listeners.contains_key(listener_id)
                    &&& spec_connection_token(old(self).spec_next_id()) > usize::MAX
                    &&& final(self)@ == old(self)@
                },
            },
            r is Err ==> final(self).spec_next_id() == old(self).spec_next_id(),
    {
        if listener_table_get(&self.listeners, listener_id).is_none() {
            return Err(AcceptError::UnknownListener);
        }
        let id: usize = table_vacant_key(&self.connections);
        if connection_token(id).is_none() {
            return Err(AcceptError::NoToken);
        }
        let conn = Connection::new(id, listener_id, addr);
        self.dispatcher.handle_new_connection(&conn);
        let key: usize = table_insert(&mut self.connections, conn);
        proof {
            assert(self@.connections =~= old(self)@.accept(id, listener_id, addr).connections);
        }
        Ok(key)
    }

    /// Takes the bytes `data` that were read from the connection `id`, none
    /// if the client closed its end, and returns what is to be done.
    pub fn handle_connection_readable(&mut self, id: usize, data: &[u8]) -> (actions: Vec<Action>)
        requires
            old(self)@.well_formed(),
        ensures
            final(self)@.well_formed(),
            final(self)@ == old(self)@.readable(id, data@).0,
            spec_actions(actions@) == old(self)@.readable(id, data@).1,
            final(self)@.connections.dom() == old(self)@.connections.dom()
                ==> final(self).spec_next_id() == old(self).spec_next_id(),
    {
        let mut actions: Vec<Action> = self.handle_connection_bytes(id, data);
        let ghost handled = actions@;
        let ghost before = self@;
        let payload: Vec<u8> = self.dispatcher.take_payload(id);
        if payload.len() > 0 {
            actions.push(Action::Payload(id, payload));
            proof {
                assert(spec_actions(actions@) =~= spec_actions(handled).push(
                    ActionView::Payload(id, payload@),
                ));
            }
        }
        proof {
            assert(self@.handlers.dom() =~= before.handlers.dom());
        }
        actions
    }

    /// Hands the bytes `data` that were read from the connection `id` to
    /// its handler, and removes the connection if its client closed its end
    /// or its handler asks for it.
    #[verifier::loop_isolation(false)]
    fn handle_connection_bytes(&mut self, id: usize, data: &[u8]) -> (actions: Vec<Action>)
        requires
            old(self)@.well_formed(),
        ensures
            final(self)@.coherent(),
            final(self)@ == old(self)@.handled(id, data@).0,
            spec_actions(actions@) == old(self)@.handled(id, data@).1,
            forall|other: usize|
                other != id && final(self)@.handlers.contains_key(other) ==> #[trigger] spec_payload(
                    final(self)@.handlers,
                    other,
                ).len() == 0,
            final(self)@.connections.dom() == old(self)@.connections.dom()
                ==> final(self).spec_next_id() == old(self).spec_next_id(),
    {
        let mut actions: Vec<Action> = Vec::new();
        if !table_contains(&self.connections, id) {
            return actions;
        }
        if data.len() == 0 {
            let conn = table_remove(&mut self.connections, id);
            self.dispatcher.handle_drop_connection(&conn);
            actions.push(Action::Close(conn));
            proof {
                assert(self@.connections =~= old(self)@.connections.remove(id));
                assert(spec_actions(actions@) =~= seq![
                    ActionView::Close(old(self)@.connections[id]),
                ]);
                assert(old(self)@.connections.dom().contains(id));
            }
            return actions;
        }
        let ghost handler = self@.handlers[id];
        let ghost before = self@.connections[id];
        let ghost out = spec_consume(handler.state, handler.pending + data@, before.open);
        let ghost after = before.write(out.written);
        let ghost expected = out.requests.map_values(
            |r: HandlerRequestView| spec_action_of(id, after, r),
        );
        proof {
            lemma_requests_follow_state(handler.state, handler.pending + data@, before.open);
            assert(old(self)@.connections.contains_key(id));
        }
        let requests = match table_get_mut(&mut self.connections, id) {
            Some(conn) => self.dispatcher.handle_connection_data(conn, data),
            // Not reached: the connection was found above.
            None => {
                return actions;
            },
        };
        let ghost asked = requests@;
        proof {
            assert(spec_dispatcher_requests(asked)
                == spec_lifecycle_all(id, out.requests));
            assert(spec_dispatcher_requests(asked).len() == asked.len());
            assert forall|j: int| 0 <= j < asked.len() implies (#[trigger] asked[j])@
                == spec_lifecycle(id, out.requests[j]) by {
                assert(spec_dispatcher_requests(asked)[j] == asked[j]@);
            }
        }
        let mut i: usize = 0;
        for request in it: requests
            invariant
                i == it.index(),
                it.seq() == asked,
                it.seq().len() == out.requests.len(),
                it.seq().len() <= 1,
                forall|j: int|
                    0 <= j < it.seq().len() ==> (#[trigger] it.seq()[j])@
                        == spec_lifecycle(id, out.requests[j]),
                self@.listeners == old(self)@.listeners,
                i == 0 ==> self@.connections == old(self)@.connections.insert(id, after)
                    && spec_actions(actions@) == Seq::<ActionView>::empty(),
                i == 0 ==> self@.handlers == old(self)@.handled(id, data@).0.handlers,
                i == 0 ==> table_entries(self.connections).contains_key(id) && table_entries(
                    self.connections,
                )[id]@ == after,
                i == 0 || !out.requests.contains(HandlerRequestView::Close) ==> table_next_key(
                    self.connections,
                ) == table_next_key(old(self).connections),
                i == 1 && out.requests.contains(HandlerRequestView::Close)
                    ==> !self@.connections.dom().contains(id),
                i == 1 ==> self@ == old(self)@.handled(id, data@).0 && spec_actions(actions@)
                    == expected,
        {
            let ghost made = actions@;
            let ghost table = table_entries(self.connections);
            match request {
                DispatcherRequest::Drop(dropped) => {
                    if table_contains(&self.connections, dropped) {
                        let conn = table_remove(&mut self.connections, dropped);
                        actions.push(Action::Close(conn));
                        proof {
                            assert(spec_views(table.remove(id)) =~= spec_views(table).remove(id));
                            assert(self@.connections =~= old(self)@.connections.remove(id));
                            assert(spec_actions(actions@) =~= spec_actions(made).push(
                                ActionView::Close(after),
                            ));
                        }
                    }
                },
                DispatcherRequest::Connect(addr, port) => {
                    actions.push(Action::Connect(id, addr, port));
                    proof {
                        assert(spec_actions(actions@) =~= spec_actions(made).push(
                            ActionView::Connect(id, addr@, port),
                        ));
                    }
                },
            }
            proof {
                assert(out.requests.contains(HandlerRequestView::Close) <==> out.requests[0]
                    == HandlerRequestView::Close);
            }
            i = i + 1;
        }
        actions
    }

    /// Takes note that the transport of the connection `id` failed: a read
    /// or a write on its socket ended in an error. The connection and its
    /// handler are removed, and the connection is handed over to be closed.
    pub fn handle_connection_error(&mut self, id: usize) -> (actions: Vec<Action>)
        requires
            old(self)@.well_formed(),
        ensures
            final(self)@.well_formed(),
            final(self)@ == old(self)@.failed(id).0,
            spec_actions(actions@) == old(self)@.failed(id).1,
            final(self)@.connections.dom() == old(self)@.connections.dom()
                ==> final(self).spec_next_id() == old(self).spec_next_id(),
    {
        let mut actions: Vec<Action> = Vec::new();
        match self.drop_connection(id) {
            Some(conn) => {
                actions.push(Action::Close(conn));
                assert(spec_actions(actions@) =~= seq![
                    ActionView::Close(old(self)@.connections[id]),
                ]);
                assert(old(self)@.connections.dom().contains(id));
            },
            None => {
                assert(spec_actions(actions@) =~= Seq::empty());
            },
        }
        actions
    }

    /// Removes the connection `id` and its handler, and hands the
    /// connection over, if it was registered.
    pub fn drop_connection(&mut self, id: usize) -> (dropped: Option<Connection>)
        requires
            old(self)@.well_formed(),
        ensures
            final(self)@.well_formed(),
            match dropped {
                Some(conn) => {
                    &&& old(self)@.connections.contains_key(id)
                    &&& conn@ == old(self)@.connections[id]
                    &&& final(self)@ == old(self)@.without(id)
                },
                None => !old(self)@.connections.contains_key(id) && final(self)@ == old(self)@
                    && final(self).spec_next_id() == old(self).spec_next_id(),
            },
    {
        if !table_contains(&self.connections, id) {
            return None;
        }
        let conn = table_remove(&mut self.connections, id);
        self.dispatcher.handle_drop_connection(&conn);
        proof {
            assert(self@.connections =~= old(self)@.connections.remove(id));
        }
        Some(conn)
    }

    /// Notes that the first `n` queued bytes of the connection `id` were
    /// sent.
    pub fn mark_sent(&mut self, id: usize, n: usize)
        requires
            old(self)@.well_formed(),
        ensures
            final(self)@.well_formed(),
            final(self).spec_next_id() == old(self).spec_next_id(),
            !old(self)@.connections.contains_key(id) ==> final(self)@ == old(self)@,
            old(self)@.connections.contains_key(id) ==> final(self)@ == (EventLoopView {
                connections: old(self)@.connections.insert(
                    id,
                    ConnectionView {
                        outbound: if n <= old(self)@.connections[id].outbound.len() {
                            old(self)@.connections[id].outbound.skip(n as int)
                        } else {
                            Seq::empty()
                        },
                        ..old(self)@.connections[id]
                    },
                ),
                ..old(self)@
            }),
    {
        match table_get_mut(&mut self.connections, id) {
            Some(conn) => {
                conn.mark_sent(n);
            },
            None => {},
        }
        proof {
            if old(self)@.connections.contains_key(id) {
                assert(self@.connections =~= old(self)@.connections.insert(
                    id,
                    ConnectionView {
                        outbound: if n <= old(self)@.connections[id].outbound.len() {
                            old(self)@.connections[id].outbound.skip(n as int)
                        } else {
                            Seq::empty()
                        },
                        ..old(self)@.connections[id]
                    },
                ));
            }
            assert(self@.handlers.dom() =~= self@.connections.dom());
        }
    }
}

/// A token names one thing: no listener shares its token with a connection,
/// and what [`classify`] reads from the token of a listener or of a
/// connection is that listener or that connection.
pub proof fn lemma_tokens_distinct(listener: usize, connection: usize)
    ensures
        spec_listener_token(listener) != spec_connection_token(connection),
        spec_listener_token(listener) % 2 == 0 && spec_listener_token(listener) / 2 == listener,
        spec_connection_token(connection) % 2 == 1 && (spec_connection_token(connection) - 1) / 2
            == connection,
{
}

/// No two live connections share an identifier: the connections stored
/// under two keys have two identifiers.
pub proof fn lemma_identifiers_unique(evloop: EventLoopView, a: usize, b: usize)
    requires
        evloop.well_formed(),
        evloop.connections.contains_key(a),
        evloop.connections.contains_key(b),
        a != b,
    ensures
        evloop.connections[a].id != evloop.connections[b].id,
{
}

/// Identifier reuse: once the connection `id` is removed, neither it nor its
/// handler is registered, and a client that is then accepted under the same
/// identifier starts with a handler of its own, which awaits the methods and
/// has kept nothing, and with an empty queue. The loop stays well formed.
pub proof fn lemma_identifier_reuse(
    evloop: EventLoopView,
    id: usize,
    listener: usize,
    addr: SockAddr,
)
    requires
        evloop.well_formed(),
        evloop.connections.contains_key(id),
        evloop.listeners.contains_key(listener),
    ensures
        ({
            let removed = evloop.without(id);
            let again = removed.accept(id, listener, addr);
            &&& removed.well_formed()
            &&& !removed.connections.contains_key(id)
            &&& !removed.handlers.contains_key(id)
            &&& again.well_formed()
            &&& again.handlers[id] == SocksHandlerView::fresh()
            &&& again.connections[id].outbound.len() == 0
            &&& forall|other: usize|
                other != id ==> again.handlers.contains_key(other) == evloop.handlers.contains_key(
                    other,
                ) && (again.handlers.contains_key(other) ==> again.handlers[other]
                    == evloop.handlers[other])
        }),
{
    let removed = evloop.without(id);
    let again = removed.accept(id, listener, addr);
}

} // verus!

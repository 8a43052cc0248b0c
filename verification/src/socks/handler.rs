//! The handshake state machine: one per connection.
//!
//! A [`SocksHandler`] takes the bytes that arrive on its connection, in
//! whatever pieces they arrive, answers the client through the connection,
//! and tells its caller what the client asked for. A message that has not
//! arrived whole is kept until the rest comes; a message that cannot be
//! valid closes the handshake.

use crate::conn::{append_bytes, Connection};
use crate::socks::data::{
    spec_parse_auth, spec_parse_request, spec_reply_bytes, AuthMethod, AuthReply, AuthRequest,
    AuthRequestView, NetAddr, NetAddrView, ParseError, SocksCommand, SocksReply, SocksReplyStatus,
    SocksReplyView, SocksRequest, SocksRequestView, METHOD_NONE_ACCEPTABLE, METHOD_UNAUTHORIZED,
    SOCKS_VERSION,
};
use crate::socks::wire_laws::lemma_parsed_host_encodable;
use vstd::prelude::*;
use vstd::slice::slice_to_vec;

verus! {

/// Makes the handler of each new connection.
#[derive(Debug)]
pub struct SocksHandlerFactory {}

/// Where a handshake stands. It only ever moves forward in the order of the
/// variants, and [`SocksHandlerState::Closed`] is final.
#[derive(Clone, Copy, Debug, PartialEq, Eq, Structural)]
pub enum SocksHandlerState {
    /// Nothing agreed yet: the client's offer of methods is awaited.
    AwaitingAuth,
    /// A method is agreed: the client's request is awaited.
    AwaitingRequest,
    /// The request was granted: what arrives now is payload.
    Relaying,
    /// The handshake failed: nothing more is read.
    Closed,
}

/// What a handler asks of its caller.
#[derive(Debug, PartialEq, Eq)]
pub enum HandlerRequest {
    /// Open a connection to this address and port for the client.
    Connect(NetAddr, u16),
    /// Drop the client's connection.
    Close,
}

/// Mathematical value of a [`HandlerRequest`].
pub enum HandlerRequestView {
    Connect(NetAddrView, u16),
    Close,
}

impl View for HandlerRequest {
    type V = HandlerRequestView;

    open spec fn view(&self) -> HandlerRequestView {
        match self {
            HandlerRequest::Connect(addr, port) => HandlerRequestView::Connect(addr@, *port),
            HandlerRequest::Close => HandlerRequestView::Close,
        }
    }
}

/// The values of a list of requests, in order.
pub open spec fn spec_requests(requests: Seq<HandlerRequest>) -> Seq<HandlerRequestView> {
    requests.map_values(|r: HandlerRequest| r@)
}

/// What a handler did with a buffer of bytes.
pub struct Outcome {
    /// The state it ended in.
    pub state: SocksHandlerState,
    /// The bytes it keeps for later.
    pub pending: Seq<u8>,
    /// The bytes it wrote to the connection.
    pub written: Seq<u8>,
    /// The requests it made, in order.
    pub requests: Seq<HandlerRequestView>,
}

impl Outcome {
    /// Nothing done: `pending` is kept in `state`.
    pub open spec fn hold(state: SocksHandlerState, pending: Seq<u8>) -> Outcome {
        Outcome { state, pending, written: Seq::empty(), requests: Seq::empty() }
    }

    /// The handshake is refused after `written` went to the client: nothing
    /// is kept and the connection is to be dropped.
    pub open spec fn reject(written: Seq<u8>) -> Outcome {
        Outcome {
            state: SocksHandlerState::Closed,
            pending: Seq::empty(),
            written,
            requests: seq![HandlerRequestView::Close],
        }
    }

    /// First `self`, then `next` on what `self` kept.
    pub open spec fn followed_by(self, next: Outcome) -> Outcome {
        Outcome {
            state: next.state,
            pending: next.pending,
            written: self.written + next.written,
            requests: self.requests + next.requests,
        }
    }
}

/// Whether the server goes on with a client that sent `request`: the version
/// is 5 and "no authentication" is among the methods offered.
pub open spec fn spec_auth_acceptable(request: AuthRequestView) -> bool {
    request.version == SOCKS_VERSION && request.methods.contains(AuthMethod::Unauthorized)
}

/// Whether the server grants `request`: the version is 5 and the command is
/// CONNECT.
pub open spec fn spec_request_acceptable(request: SocksRequestView) -> bool {
    request.version == SOCKS_VERSION && request.command == SocksCommand::Connect
}

/// The reply that grants `request`: it echoes the address and the port.
pub open spec fn spec_success_reply(request: SocksRequestView) -> SocksReplyView {
    SocksReplyView {
        version: SOCKS_VERSION,
        reply: SocksReplyStatus::Success,
        address: request.address,
        port: request.port,
    }
}

/// One step of a handshake that awaits the client's methods, on the bytes
/// `buf`, with a connection that takes bytes or not.
///
/// An offer that has not arrived whole is kept. An unacceptable one is
/// refused, after the refusal went out if the connection took it. An
/// acceptable one is answered, and the request is awaited; if the answer
/// cannot be written, the handshake is closed.
pub open spec fn spec_auth_step(buf: Seq<u8>, writable: bool) -> Outcome {
    match spec_parse_auth(buf) {
        Err(ParseError::Incomplete) => Outcome::hold(SocksHandlerState::AwaitingAuth, buf),
        Err(ParseError::Malformed) => Outcome::reject(Seq::empty()),
        Ok((request, rest)) => if !spec_auth_acceptable(request) {
            Outcome::reject(
                if writable {
                    seq![SOCKS_VERSION, METHOD_NONE_ACCEPTABLE]
                } else {
                    Seq::empty()
                },
            )
        } else if !writable {
            Outcome::reject(Seq::empty())
        } else {
            Outcome {
                state: SocksHandlerState::AwaitingRequest,
                pending: rest,
                written: seq![SOCKS_VERSION, METHOD_UNAUTHORIZED],
                requests: Seq::empty(),
            }
        },
    }
}

/// One step of a handshake that awaits the client's request.
///
/// A request that has not arrived whole is kept. A malformed one, one of
/// another version or with another command than CONNECT closes the
/// handshake, and so does a reply that cannot be written. Otherwise the
/// reply goes out, the caller is asked to connect, and what follows the
/// request is payload.
pub open spec fn spec_request_step(buf: Seq<u8>, writable: bool) -> Outcome {
    match spec_parse_request(buf) {
        Err(ParseError::Incomplete) => Outcome::hold(SocksHandlerState::AwaitingRequest, buf),
        Err(ParseError::Malformed) => Outcome::reject(Seq::empty()),
        Ok((request, rest)) => if !spec_request_acceptable(request) || !writable {
            Outcome::reject(Seq::empty())
        } else {
            Outcome {
                state: SocksHandlerState::Relaying,
                pending: rest,
                written: spec_reply_bytes(spec_success_reply(request)),
                requests: seq![HandlerRequestView::Connect(request.address, request.port)],
            }
        },
    }
}

/// What a handler in `state` does with the bytes `buf`: those it kept
/// before, followed by those that arrived.
///
/// It takes one message after the other for as long as whole messages are
/// there and the handshake goes on. Payload is kept as it is, and a closed
/// handshake keeps nothing.
pub open spec fn spec_consume(state: SocksHandlerState, buf: Seq<u8>, writable: bool) -> Outcome {
    match state {
        SocksHandlerState::AwaitingAuth => {
            let first = spec_auth_step(buf, writable);
            if first.state == SocksHandlerState::AwaitingRequest {
                first.followed_by(spec_request_step(first.pending, writable))
            } else {
                first
            }
        },
        SocksHandlerState::AwaitingRequest => spec_request_step(buf, writable),
        SocksHandlerState::Relaying => Outcome::hold(SocksHandlerState::Relaying, buf),
        SocksHandlerState::Closed => Outcome::hold(SocksHandlerState::Closed, Seq::empty()),
    }
}

/// The handshake state machine of one connection.
#[derive(Debug)]
pub struct SocksHandler {
    state: SocksHandlerState,
    pending: Vec<u8>,
}

/// Mathematical value of a [`SocksHandler`].
pub struct SocksHandlerView {
    /// Where the handshake stands.
    pub state: SocksHandlerState,
    /// The bytes that arrived and were not consumed: the start of a message
    /// during the handshake, payload after it.
    pub pending: Seq<u8>,
}

impl SocksHandlerView {
    /// The handler of a connection on which nothing has arrived.
    pub open spec fn fresh() -> SocksHandlerView {
        SocksHandlerView { state: SocksHandlerState::AwaitingAuth, pending: Seq::empty() }
    }

    /// What holds of every handler: during the handshake it keeps only the
    /// start of an unfinished message, and once closed it keeps nothing.
    pub open spec fn well_formed(self) -> bool {
        match self.state {
            SocksHandlerState::AwaitingAuth => spec_parse_auth(self.pending) == Err::<
                (AuthRequestView, Seq<u8>),
                _,
            >(ParseError::Incomplete),
            SocksHandlerState::AwaitingRequest => spec_parse_request(self.pending) == Err::<
                (SocksRequestView, Seq<u8>),
                _,
            >(ParseError::Incomplete),
            SocksHandlerState::Relaying => true,
            SocksHandlerState::Closed => self.pending.len() == 0,
        }
    }
}

impl View for SocksHandler {
    type V = SocksHandlerView;

    closed spec fn view(&self) -> SocksHandlerView {
        SocksHandlerView { state: self.state, pending: self.pending@ }
    }
}

/// How one step of the handshake ended.
enum Step<'a> {
    /// The message has not arrived whole.
    Hold,
    /// The message was taken; these bytes follow it.
    Next(&'a [u8]),
    /// The handshake cannot go on.
    Failure,
}

/// How many more steps a handshake in `state` can take, counting one more
/// while its loop has not been told to stop.
spec fn spec_steps_left(state: SocksHandlerState, running: bool) -> nat {
    let steps: nat = match state {
        SocksHandlerState::AwaitingAuth => 4,
        SocksHandlerState::AwaitingRequest => 2,
        _ => 0,
    };
    if running {
        steps + 1
    } else {
        steps
    }
}

/// Whether `methods` holds "no authentication".
fn offers_unauthorized(methods: &Vec<AuthMethod>) -> (found: bool)
    ensures
        found == methods@.contains(AuthMethod::Unauthorized),
{
    let mut i: usize = 0;
    while i < methods.len()
        invariant
            i <= methods.len(),
            forall|j: int| 0 <= j < i ==> methods@[j] != AuthMethod::Unauthorized,
        decreases methods.len() - i,
    {
        if methods[i] == AuthMethod::Unauthorized {
            return true;
        }
        i = i + 1;
    }
    false
}

impl SocksHandlerFactory {
    /// A factory. It has nothing to remember: every handler starts alike.
    pub fn new() -> SocksHandlerFactory {
        SocksHandlerFactory {  }
    }

    /// The handler of the new connection `conn`.
    pub fn new_handler(&self, conn: &Connection) -> (handler: SocksHandler)
        ensures
            handler@ == SocksHandlerView::fresh(),
    {
        SocksHandler::new(conn)
    }
}

impl SocksHandler {
    #[verifier::type_invariant]
    closed spec fn inv(&self) -> bool {
        self@.well_formed()
    }

    /// The handler of the new connection `conn`: it awaits the client's
    /// methods and has kept nothing.
    pub fn new(conn: &Connection) -> (handler: SocksHandler)
        ensures
            handler@ == SocksHandlerView::fresh(),
    {
        SocksHandler { state: SocksHandlerState::AwaitingAuth, pending: Vec::new() }
    }

    /// Where the handshake stands.
    pub fn state(&self) -> (state: SocksHandlerState)
        ensures
            state == self@.state,
            self@.well_formed(),
    {
        proof {
            use_type_invariant(self);
        }
        self.state
    }

    /// The bytes that arrived and were not consumed.
    pub fn pending(&self) -> (bytes: &[u8])
        ensures
            bytes@ == self@.pending,
    {
        self.pending.as_slice()
    }

    /// Hands over the payload that arrived behind the handshake, and keeps
    /// none of it. Before the handshake is through there is no payload.
    pub fn take_payload(&mut self) -> (payload: Vec<u8>)
        ensures
            old(self)@.state == SocksHandlerState::Relaying ==> payload@ == old(self)@.pending
                && final(self)@ == (SocksHandlerView { pending: Seq::empty(), ..old(self)@ }),
            old(self)@.state != SocksHandlerState::Relaying ==> payload@.len() == 0
                && final(self)@ == old(self)@,
    {
        match self.state {
            SocksHandlerState::Relaying => {
                let payload: Vec<u8> = slice_to_vec(self.pending.as_slice());
                self.pending = Vec::new();
                payload
            },
            _ => Vec::new(),
        }
    }

    /// Takes the bytes that arrived on `conn` and returns what the client
    /// asked for.
    pub fn handle_connection_data(&mut self, conn: &mut Connection, data: &[u8]) -> (requests: Vec<
        HandlerRequest,
    >)
        ensures
            old(self)@.well_formed(),
            final(self)@.well_formed(),
            ({
                let out = spec_consume(
                    old(self)@.state,
                    old(self)@.pending + data@,
                    old(conn)@.open,
                );
                &&& final(self)@.state == out.state
                &&& final(self)@.pending == out.pending
                &&& final(conn)@ == old(conn)@.write(out.written)
                &&& spec_requests(requests@) == out.requests
            }),
    {
        proof {
            use_type_invariant(&*self);
        }
        let mut requests: Vec<HandlerRequest> = Vec::new();
        match self.state {
            SocksHandlerState::Closed => {
                return requests;
            },
            SocksHandlerState::Relaying => {
                let mut payload: Vec<u8> = Vec::new();
                core::mem::swap(&mut self.pending, &mut payload);
                append_bytes(&mut payload, data);
                self.pending = payload;
                return requests;
            },
            _ => {},
        }
        let mut buffer: Vec<u8> = Vec::new();
        append_bytes(&mut buffer, self.pending.as_slice());
        append_bytes(&mut buffer, data);
        self.pending = Vec::new();

        let ghost writable = conn@.open;
        let ghost total = spec_consume(self@.state, buffer@, writable);
        let ghost mut written: Seq<u8> = Seq::empty();
        let mut rest: &[u8] = buffer.as_slice();
        let mut running: bool = true;
        while running && rest.len() > 0
            invariant
                self@.pending.len() == 0,
                conn@ == old(conn)@.write(written),
                conn@.open == writable,
                running ==> total == (Outcome {
                    state: self@.state,
                    pending: rest@,
                    written,
                    requests: spec_requests(requests@),
                }).followed_by(spec_consume(self@.state, rest@, writable)),
                !running ==> total == (Outcome {
                    state: self@.state,
                    pending: if self@.state == SocksHandlerState::Closed {
                        Seq::empty()
                    } else {
                        rest@
                    },
                    written,
                    requests: spec_requests(requests@),
                }),
                !running ==> (SocksHandlerView { state: self@.state, pending: rest@ }).well_formed()
                    || self@.state == SocksHandlerState::Closed,
            decreases spec_steps_left(self@.state, running),
        {
            let ghost so_far = Outcome {
                state: self@.state,
                pending: rest@,
                written,
                requests: spec_requests(requests@),
            };
            let ghost one = match self@.state {
                SocksHandlerState::AwaitingAuth => spec_auth_step(rest@, writable),
                SocksHandlerState::AwaitingRequest => spec_request_step(rest@, writable),
                _ => Outcome::hold(self@.state, rest@),
            };
            let ghost before = requests@;
            let step = match self.state {
                SocksHandlerState::AwaitingAuth => self.handle_auth_data(conn, rest),
                SocksHandlerState::AwaitingRequest => self.handle_request_data(
                    conn,
                    rest,
                    &mut requests,
                ),
                _ => Step::Hold,
            };
            proof {
                assert(conn@.outbound =~= old(conn)@.outbound + (written + one.written));
                written = written + one.written;
            }
            match step {
                Step::Hold => {
                    running = false;
                    proof {
                        assert(so_far.requests + Seq::<HandlerRequestView>::empty()
                            =~= so_far.requests);
                    }
                },
                Step::Next(after) => {
                    rest = after;
                    proof {
                        let next = spec_consume(self@.state, after@, writable);
                        assert((so_far.written + one.written) + next.written =~= so_far.written + (
                        one.written + next.written));
                        assert((so_far.requests + one.requests) + next.requests
                            =~= so_far.requests + (one.requests + next.requests));
                    }
                },
                Step::Failure => {
                    self.state = SocksHandlerState::Closed;
                    requests.push(HandlerRequest::Close);
                    running = false;
                    proof {
                        assert(spec_requests(requests@) =~= spec_requests(before) + seq![
                            HandlerRequestView::Close,
                        ]);
                    }
                },
            }
        }
        proof {
            if running {
                assert(spec_requests(requests@) + Seq::<HandlerRequestView>::empty()
                    =~= spec_requests(requests@));
            }
        }
        if self.state != SocksHandlerState::Closed {
            self.pending = slice_to_vec(rest);
        }
        requests
    }

    /// Takes the client's offer of methods from the front of `data`, if it
    /// is all there, and answers it.
    fn handle_auth_data<'a>(&mut self, conn: &mut Connection, data: &'a [u8]) -> (step: Step<'a>)
        requires
            old(self)@.state == SocksHandlerState::AwaitingAuth,
            old(self)@.pending.len() == 0,
        ensures
            final(self)@.pending == old(self)@.pending,
            ({
                let out = spec_auth_step(data@, old(conn)@.open);
                &&& final(conn)@ == old(conn)@.write(out.written)
                &&& match step {
                    Step::Hold => out == Outcome::hold(SocksHandlerState::AwaitingAuth, data@)
                        && final(self)@.state == SocksHandlerState::AwaitingAuth,
                    Step::Next(rest) => out.state == SocksHandlerState::AwaitingRequest
                        && out.pending == rest@ && out.requests == Seq::<
                        HandlerRequestView,
                    >::empty() && final(self)@.state == SocksHandlerState::AwaitingRequest,
                    Step::Failure => out == Outcome::reject(out.written) && final(self)@.state
                        == SocksHandlerState::AwaitingAuth,
                }
            }),
    {
        let (request, rest) = match AuthRequest::parse(data) {
            Ok(found) => found,
            Err(ParseError::Incomplete) => {
                return Step::Hold;
            },
            Err(ParseError::Malformed) => {
                return Step::Failure;
            },
        };
        if request.version != SOCKS_VERSION || !offers_unauthorized(&request.methods) {
            let reply = AuthReply { version: SOCKS_VERSION, method: AuthMethod::NoMethod };
            let bytes: [u8; 2] = reply.to_bytes();
            let _ = conn.write(bytes.as_slice());
            return Step::Failure;
        }
        let reply = AuthReply { version: SOCKS_VERSION, method: AuthMethod::Unauthorized };
        let bytes: [u8; 2] = reply.to_bytes();
        match conn.write(bytes.as_slice()) {
            Ok(_) => {},
            Err(_) => {
                return Step::Failure;
            },
        }
        self.state = SocksHandlerState::AwaitingRequest;
        Step::Next(rest)
    }

    /// Takes the client's request from the front of `data`, if it is all
    /// there, answers it and asks the caller to connect.
    fn handle_request_data<'a>(
        &mut self,
        conn: &mut Connection,
        data: &'a [u8],
        requests: &mut Vec<HandlerRequest>,
    ) -> (step: Step<'a>)
        requires
            old(self)@.state == SocksHandlerState::AwaitingRequest,
            old(self)@.pending.len() == 0,
        ensures
            final(self)@.pending == old(self)@.pending,
            ({
                let out = spec_request_step(data@, old(conn)@.open);
                &&& final(conn)@ == old(conn)@.write(out.written)
                &&& match step {
                    Step::Hold => out == Outcome::hold(SocksHandlerState::AwaitingRequest, data@)
                        && final(self)@.state == SocksHandlerState::AwaitingRequest
                        && final(requests)@ == old(requests)@,
                    Step::Next(rest) => out.state == SocksHandlerState::Relaying && out.pending
                        == rest@ && spec_requests(final(requests)@) == spec_requests(
                        old(requests)@,
                    ) + out.requests && final(self)@.state == SocksHandlerState::Relaying,
                    Step::Failure => out == Outcome::reject(Seq::empty()) && final(self)@.state
                        == SocksHandlerState::AwaitingRequest && final(requests)@ == old(requests)@,
                }
            }),
    {
        let (request, rest) = match SocksRequest::parse(data) {
            Ok(found) => found,
            Err(ParseError::Incomplete) => {
                return Step::Hold;
            },
            Err(ParseError::Malformed) => {
                return Step::Failure;
            },
        };
        if request.version != SOCKS_VERSION {
            return Step::Failure;
        }
        match request.command {
            SocksCommand::Connect => {},
            _ => {
                return Step::Failure;
            },
        }
        let reply = SocksReply {
            version: SOCKS_VERSION,
            reply: SocksReplyStatus::Success,
            address: request.address.clone(),
            port: request.port,
        };
        proof {
            lemma_parsed_host_encodable(data@.skip(3));
        }
        let bytes: Vec<u8> = match reply.to_bytes() {
            Ok(bytes) => bytes,
            Err(_) => {
                return Step::Failure;
            },
        };
        match conn.write(bytes.as_slice()) {
            Ok(_) => {},
            Err(_) => {
                return Step::Failure;
            },
        }
        let ghost before = requests@;
        requests.push(HandlerRequest::Connect(request.address, request.port));
        assert(spec_requests(requests@) =~= spec_requests(before) + seq![
            HandlerRequestView::Connect(request@.address, request@.port),
        ]);
        self.state = SocksHandlerState::Relaying;
        Step::Next(rest)
    }
}

} // verus!

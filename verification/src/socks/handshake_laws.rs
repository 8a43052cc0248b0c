//! Laws of the handshake: what holds of every handler, whatever arrives.

use crate::socks::data::{
    spec_parse_auth, spec_parse_request, AuthRequestView, ParseError, SocksRequestView,
    SOCKS_VERSION,
};
use crate::socks::handler::{
    spec_auth_step, spec_consume, spec_request_step, HandlerRequestView, Outcome,
    SocksHandlerState, SocksHandlerView,
};
use crate::socks::wire_laws::{
    lemma_incomplete_is_short, lemma_parse_auth_extend, lemma_parse_request_extend,
};
use vstd::prelude::*;

verus! {

/// The place of a state in the order in which a handshake passes through
/// the states.
pub open spec fn spec_state_rank(state: SocksHandlerState) -> nat {
    match state {
        SocksHandlerState::AwaitingAuth => 0,
        SocksHandlerState::AwaitingRequest => 1,
        SocksHandlerState::Relaying => 2,
        SocksHandlerState::Closed => 3,
    }
}

/// Doing three things in a row is the same however they are grouped.
proof fn lemma_followed_by_assoc(a: Outcome, b: Outcome, c: Outcome)
    ensures
        a.followed_by(b).followed_by(c) == a.followed_by(b.followed_by(c)),
{
    assert((a.written + b.written) + c.written =~= a.written + (b.written + c.written));
    assert((a.requests + b.requests) + c.requests =~= a.requests + (b.requests + c.requests));
}

/// Doing nothing after `a` leaves what `a` did.
proof fn lemma_followed_by_hold(a: Outcome)
    ensures
        a.followed_by(Outcome::hold(a.state, a.pending)) == a,
{
    assert(a.written + Seq::<u8>::empty() =~= a.written);
    assert(a.requests + Seq::<HandlerRequestView>::empty() =~= a.requests);
}

/// Doing `b` after nothing is doing `b`.
proof fn lemma_hold_followed_by(state: SocksHandlerState, pending: Seq<u8>, b: Outcome)
    ensures
        Outcome::hold(state, pending).followed_by(b) == b,
{
    assert(Seq::<u8>::empty() + b.written =~= b.written);
    assert(Seq::<HandlerRequestView>::empty() + b.requests =~= b.requests);
}

/// A step that took the client's methods, or refused them, does the same
/// when more bytes follow, and hands those bytes on if the handshake goes
/// on. A step that took nothing has kept its input.
proof fn lemma_auth_step_extend(buf: Seq<u8>, more: Seq<u8>, writable: bool)
    ensures
        ({
            let a = spec_auth_step(buf, writable);
            let e = spec_auth_step(buf + more, writable);
            if a.state == SocksHandlerState::AwaitingAuth {
                a == Outcome::hold(SocksHandlerState::AwaitingAuth, buf)
            } else {
                &&& e.state == a.state
                &&& e.written == a.written
                &&& e.requests == a.requests
                &&& a.state == SocksHandlerState::AwaitingRequest ==> e.pending == a.pending + more
                &&& a.state != SocksHandlerState::AwaitingRequest ==> a == Outcome::reject(
                    a.written,
                ) && e == a
            }
        }),
{
    lemma_parse_auth_extend(buf, more);
}

/// A step that took the client's request, or refused it, does the same when
/// more bytes follow, and keeps those bytes as payload if it relays. A step
/// that took nothing has kept its input.
proof fn lemma_request_step_extend(buf: Seq<u8>, more: Seq<u8>, writable: bool)
    ensures
        ({
            let a = spec_request_step(buf, writable);
            let e = spec_request_step(buf + more, writable);
            if a.state == SocksHandlerState::AwaitingRequest {
                a == Outcome::hold(SocksHandlerState::AwaitingRequest, buf)
            } else {
                &&& e.state == a.state
                &&& e.written == a.written
                &&& e.requests == a.requests
                &&& a.state == SocksHandlerState::Relaying ==> e.pending == a.pending + more
                &&& a.state != SocksHandlerState::Relaying ==> a == Outcome::reject(Seq::empty())
                    && e == a
            }
        }),
{
    lemma_parse_request_extend(buf, more);
}

/// A handler that awaits the request does with `buf + more` what it does
/// with `buf` and then, from where that left it, with `more`.
proof fn lemma_request_split(buf: Seq<u8>, more: Seq<u8>, writable: bool)
    ensures
        ({
            let a = spec_request_step(buf, writable);
            let b = spec_consume(a.state, a.pending + more, writable);
            a.followed_by(b) == spec_request_step(buf + more, writable)
        }),
{
    let a = spec_request_step(buf, writable);
    let b = spec_consume(a.state, a.pending + more, writable);
    let e = spec_request_step(buf + more, writable);
    lemma_request_step_extend(buf, more, writable);
    if a.state == SocksHandlerState::AwaitingRequest {
        assert(b == e);
        lemma_hold_followed_by(a.state, a.pending, b);
    } else if a.state == SocksHandlerState::Relaying {
        assert(b == Outcome::hold(SocksHandlerState::Relaying, a.pending + more));
        lemma_followed_by_hold(e);
        assert(a.followed_by(b) == e.followed_by(Outcome::hold(e.state, e.pending)));
    } else {
        assert(b == Outcome::hold(SocksHandlerState::Closed, Seq::empty()));
        lemma_followed_by_hold(a);
    }
}

/// A handler that awaits the methods does with `buf + more` what it does
/// with `buf` and then, from where that left it, with `more`.
proof fn lemma_auth_split(buf: Seq<u8>, more: Seq<u8>, writable: bool)
    ensures
        ({
            let a = spec_consume(SocksHandlerState::AwaitingAuth, buf, writable);
            let b = spec_consume(a.state, a.pending + more, writable);
            a.followed_by(b) == spec_consume(SocksHandlerState::AwaitingAuth, buf + more, writable)
        }),
{
    let a = spec_consume(SocksHandlerState::AwaitingAuth, buf, writable);
    let b = spec_consume(a.state, a.pending + more, writable);
    let whole = spec_consume(SocksHandlerState::AwaitingAuth, buf + more, writable);
    let step = spec_auth_step(buf, writable);
    let step_whole = spec_auth_step(buf + more, writable);
    lemma_auth_step_extend(buf, more, writable);
    if step.state == SocksHandlerState::AwaitingAuth {
        assert(a == step);
        assert(b == whole);
        lemma_hold_followed_by(a.state, a.pending, b);
    } else if step.state == SocksHandlerState::AwaitingRequest {
        let next = spec_request_step(step.pending, writable);
        let next_whole = spec_request_step(step.pending + more, writable);
        assert(a == step.followed_by(next));
        assert(whole == step_whole.followed_by(next_whole));
        assert(step_whole.followed_by(next_whole) == step.followed_by(next_whole));
        lemma_request_split(step.pending, more, writable);
        assert(next.followed_by(b) == next_whole);
        lemma_followed_by_assoc(step, next, b);
    } else {
        assert(a == step);
        assert(whole == step);
        assert(b == Outcome::hold(SocksHandlerState::Closed, Seq::empty()));
        lemma_followed_by_hold(a);
    }
}

/// A handler in any state does with `buf + more` what it does with `buf`
/// and then, from where that left it, with `more`.
proof fn lemma_consume_split(state: SocksHandlerState, buf: Seq<u8>, more: Seq<u8>, writable: bool)
    ensures
        ({
            let a = spec_consume(state, buf, writable);
            let b = spec_consume(a.state, a.pending + more, writable);
            a.followed_by(b) == spec_consume(state, buf + more, writable)
        }),
{
    let a = spec_consume(state, buf, writable);
    let b = spec_consume(a.state, a.pending + more, writable);
    match state {
        SocksHandlerState::AwaitingAuth => {
            lemma_auth_split(buf, more, writable);
        },
        SocksHandlerState::AwaitingRequest => {
            lemma_request_split(buf, more, writable);
        },
        SocksHandlerState::Relaying => {
            lemma_hold_followed_by(a.state, a.pending, b);
        },
        SocksHandlerState::Closed => {
            lemma_followed_by_hold(a);
        },
    }
}

/// Partial delivery: a handler does with two pieces that arrive one after
/// the other what it does with both delivered at once. It ends in the same
/// state, keeps the same bytes, has written the same bytes to the
/// connection and has made the same requests, wherever the stream is cut.
pub proof fn lemma_split_delivery(
    handler: SocksHandlerView,
    first: Seq<u8>,
    second: Seq<u8>,
    writable: bool,
)
    ensures
        ({
            let whole = spec_consume(handler.state, handler.pending + (first + second), writable);
            let a = spec_consume(handler.state, handler.pending + first, writable);
            let b = spec_consume(a.state, a.pending + second, writable);
            a.followed_by(b) == whole
        }),
{
    assert(handler.pending + (first + second) =~= (handler.pending + first) + second);
    lemma_consume_split(handler.state, handler.pending + first, second, writable);
}

/// Version guard: a message that has arrived whole and whose version byte
/// is not 5 closes the handshake, in the phase that awaits the methods as in
/// the one that awaits the request, whatever the rest of the message holds
/// and whether or not it is valid. The caller is asked to drop the
/// connection and nothing is kept.
pub proof fn lemma_version_guard(state: SocksHandlerState, buf: Seq<u8>, writable: bool)
    requires
        state == SocksHandlerState::AwaitingAuth || state == SocksHandlerState::AwaitingRequest,
        buf.len() > 0,
        buf[0] != SOCKS_VERSION,
        state == SocksHandlerState::AwaitingAuth ==> spec_parse_auth(buf) != Err::<
            (AuthRequestView, Seq<u8>),
            _,
        >(ParseError::Incomplete),
        state == SocksHandlerState::AwaitingRequest ==> spec_parse_request(buf) != Err::<
            (SocksRequestView, Seq<u8>),
            _,
        >(ParseError::Incomplete),
    ensures
        spec_consume(state, buf, writable).state == SocksHandlerState::Closed,
        spec_consume(state, buf, writable).requests == seq![HandlerRequestView::Close],
        spec_consume(state, buf, writable).pending == Seq::<u8>::empty(),
{
}

/// A handshake never goes back: the state a handler ends in is the one it
/// started in or a later one. A closed handshake stays closed, writes
/// nothing and asks for nothing.
pub proof fn lemma_transitions_forward(state: SocksHandlerState, buf: Seq<u8>, writable: bool)
    ensures
        spec_state_rank(state) <= spec_state_rank(spec_consume(state, buf, writable).state),
        state == SocksHandlerState::Closed ==> spec_consume(state, buf, writable) == Outcome::hold(
            SocksHandlerState::Closed,
            Seq::empty(),
        ),
{
}

/// What a handler ends with is well formed, and during the handshake it
/// keeps fewer than 262 bytes, however many a client announces or sends.
pub proof fn lemma_pending_bounded(state: SocksHandlerState, buf: Seq<u8>, writable: bool)
    ensures
        ({
            let out = spec_consume(state, buf, writable);
            &&& (SocksHandlerView { state: out.state, pending: out.pending }).well_formed()
            &&& out.state == SocksHandlerState::AwaitingAuth || out.state
                == SocksHandlerState::AwaitingRequest ==> out.pending.len() < 262
        }),
{
    let out = spec_consume(state, buf, writable);
    lemma_incomplete_is_short(out.pending);
}

/// A handler asks at most one thing in one call, and it asks to connect
/// only as it starts relaying, and to close only as it closes.
pub proof fn lemma_requests_follow_state(state: SocksHandlerState, buf: Seq<u8>, writable: bool)
    ensures
        ({
            let out = spec_consume(state, buf, writable);
            &&& out.requests.len() <= 1
            &&& out.requests.len() == 1 ==> state != out.state
            &&& out.requests.len() == 1 && out.requests[0] is Close <==> state
                != SocksHandlerState::Closed && out.state == SocksHandlerState::Closed
            &&& out.requests.len() == 1 && out.requests[0] is Connect <==> state
                != SocksHandlerState::Relaying && out.state == SocksHandlerState::Relaying
        }),
{
}

} // verus!

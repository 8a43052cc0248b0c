use socks_proxy::conn::{Connection, SockAddr};
use socks_proxy::dispatcher::Dispatcher;
use socks_proxy::evloop::{
    classify, connection_token, listener_token, AcceptError, Action, EventLoop, Listener, Source,
    BUFFER_SIZE,
};
use socks_proxy::socks::data::NetAddr;
use socks_proxy::socks::handler::{SocksHandlerFactory, SocksHandlerState};

const AUTH: [u8; 3] = [0x05, 0x01, 0x00];
const CONNECT: [u8; 10] = [0x05, 0x01, 0x00, 0x01, 0x7f, 0x00, 0x00, 0x01, 0x00, 0x50];
const CONNECT_REPLY: [u8; 9] = [0x05, 0x00, 0x01, 0x7f, 0x00, 0x00, 0x01, 0x00, 0x50];

fn bind() -> SockAddr {
    SockAddr::V4([0, 0, 0, 0], 1080)
}

fn peer(n: u8) -> SockAddr {
    SockAddr::V4([203, 0, 113, n], 50000)
}

fn event_loop() -> EventLoop {
    let mut evloop = EventLoop::new(Dispatcher::new(SocksHandlerFactory::new()));
    assert_eq!(evloop.add_listener(bind()), Some(0));
    evloop
}

#[test]
fn tokens_tell_listeners_from_connections() {
    assert_eq!(listener_token(0), Some(0));
    assert_eq!(connection_token(0), Some(1));
    assert_eq!(listener_token(3), Some(6));
    assert_eq!(connection_token(3), Some(7));
    assert_eq!(classify(0), Source::Listener(0));
    assert_eq!(classify(1), Source::Connection(0));
    assert_eq!(classify(6), Source::Listener(3));
    assert_eq!(classify(7), Source::Connection(3));
    for id in 0..1000usize {
        assert_eq!(classify(listener_token(id).unwrap()), Source::Listener(id));
        assert_eq!(classify(connection_token(id).unwrap()), Source::Connection(id));
    }
}

#[test]
fn tokens_at_the_end_of_the_range() {
    let half = usize::MAX / 2;
    assert_eq!(listener_token(half), Some(usize::MAX - 1));
    assert_eq!(connection_token(half), Some(usize::MAX));
    assert_eq!(listener_token(half + 1), None);
    assert_eq!(connection_token(half + 1), None);
    assert_eq!(connection_token(usize::MAX), None);
    assert_eq!(classify(usize::MAX), Source::Connection(half));
    assert_eq!(classify(usize::MAX - 1), Source::Listener(half));
}

#[test]
fn scratch_buffer_size() {
    assert_eq!(BUFFER_SIZE, 2048);
}

#[test]
fn listeners_are_numbered_in_order() {
    let mut evloop = EventLoop::new(Dispatcher::new(SocksHandlerFactory::new()));
    assert_eq!(evloop.listener(0), None);
    assert_eq!(evloop.add_listener(bind()), Some(0));
    let second = SockAddr::V6([0; 16], 1081);
    assert_eq!(evloop.add_listener(second), Some(1));
    assert_eq!(evloop.listener(0), Some(Listener { id: 0, addr: bind() }));
    assert_eq!(evloop.listener(1), Some(Listener { id: 1, addr: second }));
    assert_eq!(evloop.listener(2), None);
}

#[test]
fn many_listeners_are_registered() {
    let mut evloop = EventLoop::new(Dispatcher::new(SocksHandlerFactory::new()));
    for id in 0..5000usize {
        assert_eq!(evloop.add_listener(bind()), Some(id));
    }
    assert_eq!(evloop.listener(4999), Some(Listener { id: 4999, addr: bind() }));
    assert_eq!(evloop.listener(5000), None);
    assert_eq!(evloop.handle_new_connection(4999, peer(1)), Ok(0));
    assert_eq!(evloop.connection(0).unwrap().listener(), Some(4999));
}

#[test]
fn accepted_connection_is_registered_with_a_fresh_handler() {
    let mut evloop = event_loop();
    assert_eq!(evloop.handle_new_connection(0, peer(1)), Ok(0));
    assert_eq!(evloop.handle_new_connection(0, peer(2)), Ok(1));
    let conn = evloop.connection(1).unwrap();
    assert_eq!(conn.id(), 1);
    assert_eq!(conn.listener(), Some(0));
    assert_eq!(*conn.addr(), peer(2));
    assert!(conn.outbound().is_empty());
    assert!(conn.is_open());
    assert_eq!(evloop.handshake_state(0), Some(SocksHandlerState::AwaitingAuth));
    assert_eq!(evloop.handshake_state(1), Some(SocksHandlerState::AwaitingAuth));
    assert!(evloop.connection(2).is_none());
    assert_eq!(evloop.handshake_state(2), None);
}

#[test]
fn unknown_listener_admits_nobody() {
    let mut evloop = event_loop();
    assert_eq!(evloop.handle_new_connection(1, peer(1)), Err(AcceptError::UnknownListener));
    assert!(evloop.connection(0).is_none());
    assert_eq!(evloop.handshake_state(0), None);
}

#[test]
fn connections_are_admitted_without_a_limit_of_the_table() {
    let mut evloop = event_loop();
    let many: usize = 0x10_0000 + 3;
    for id in 0..many {
        assert_eq!(evloop.handle_new_connection(0, peer(1)), Ok(id));
    }
    assert!(evloop.connection(many - 1).is_some());
    assert!(evloop.connection(many).is_none());
    assert_eq!(evloop.handshake_state(many - 1), Some(SocksHandlerState::AwaitingAuth));
    assert!(evloop.drop_connection(17).is_some());
    assert_eq!(evloop.handle_new_connection(0, peer(2)), Ok(17));
    assert_eq!(evloop.handle_new_connection(0, peer(3)), Ok(many));
}

#[test]
fn handshake_through_the_loop() {
    let mut evloop = event_loop();
    let id = evloop.handle_new_connection(0, peer(1)).unwrap();
    assert!(evloop.handle_connection_readable(id, &AUTH).is_empty());
    assert_eq!(evloop.connection(id).unwrap().outbound(), &[0x05u8, 0x00][..]);
    evloop.mark_sent(id, 2);
    assert!(evloop.connection(id).unwrap().outbound().is_empty());
    let actions = evloop.handle_connection_readable(id, &CONNECT);
    assert_eq!(actions.len(), 1);
    match &actions[0] {
        Action::Connect(from, addr, port) => {
            assert_eq!(*from, id);
            assert_eq!(*addr, NetAddr::V4([127, 0, 0, 1]));
            assert_eq!(*port, 80);
        },
        other => panic!("unexpected action {:?}", other),
    }
    assert_eq!(evloop.connection(id).unwrap().outbound(), &CONNECT_REPLY[..]);
    assert_eq!(evloop.handshake_state(id), Some(SocksHandlerState::Relaying));
}

#[test]
fn refused_client_is_removed_with_its_refusal_queued() {
    let mut evloop = event_loop();
    let keep = evloop.handle_new_connection(0, peer(1)).unwrap();
    let id = evloop.handle_new_connection(0, peer(2)).unwrap();
    let actions = evloop.handle_connection_readable(id, &[0x05, 0x01, 0x01]);
    assert_eq!(actions.len(), 1);
    match &actions[0] {
        Action::Close(conn) => {
            assert_eq!(conn.id(), id);
            assert_eq!(*conn.addr(), peer(2));
            assert_eq!(conn.outbound(), &[0x05u8, 0xff][..]);
        },
        other => panic!("unexpected action {:?}", other),
    }
    assert!(evloop.connection(id).is_none());
    assert_eq!(evloop.handshake_state(id), None);
    assert!(evloop.connection(keep).is_some());
    assert_eq!(evloop.handshake_state(keep), Some(SocksHandlerState::AwaitingAuth));
}

#[test]
fn end_of_stream_removes_the_connection() {
    let mut evloop = event_loop();
    let id = evloop.handle_new_connection(0, peer(1)).unwrap();
    evloop.handle_connection_readable(id, &AUTH);
    let actions = evloop.handle_connection_readable(id, &[]);
    assert_eq!(actions.len(), 1);
    match &actions[0] {
        Action::Close(conn) => {
            assert_eq!(conn.id(), id);
            assert_eq!(conn.outbound(), &[0x05u8, 0x00][..]);
        },
        other => panic!("unexpected action {:?}", other),
    }
    assert!(evloop.connection(id).is_none());
    assert_eq!(evloop.handshake_state(id), None);
}

#[test]
fn event_for_an_unknown_connection_does_nothing() {
    let mut evloop = event_loop();
    let id = evloop.handle_new_connection(0, peer(1)).unwrap();
    assert!(evloop.handle_connection_readable(id + 1, &AUTH).is_empty());
    assert!(evloop.handle_connection_readable(id + 1, &[]).is_empty());
    assert!(evloop.drop_connection(id + 1).is_none());
    evloop.mark_sent(id + 1, 10);
    assert_eq!(evloop.handshake_state(id), Some(SocksHandlerState::AwaitingAuth));
    assert!(evloop.connection(id).unwrap().outbound().is_empty());
}

#[test]
fn dropped_connection_is_handed_over() {
    let mut evloop = event_loop();
    let id = evloop.handle_new_connection(0, peer(9)).unwrap();
    evloop.handle_connection_readable(id, &AUTH);
    let conn = evloop.drop_connection(id).unwrap();
    assert_eq!(conn.id(), id);
    assert_eq!(*conn.addr(), peer(9));
    assert_eq!(conn.outbound(), &[0x05u8, 0x00][..]);
    assert!(evloop.connection(id).is_none());
    assert_eq!(evloop.handshake_state(id), None);
    assert!(evloop.drop_connection(id).is_none());
}

#[test]
fn identifier_is_reused_with_a_new_handshake() {
    let mut evloop = event_loop();
    let first = evloop.handle_new_connection(0, peer(1)).unwrap();
    let second = evloop.handle_new_connection(0, peer(2)).unwrap();
    evloop.handle_connection_readable(first, &AUTH);
    evloop.handle_connection_readable(first, &CONNECT[..5]);
    assert_eq!(evloop.handshake_state(first), Some(SocksHandlerState::AwaitingRequest));
    assert!(evloop.drop_connection(first).is_some());
    let third = evloop.handle_new_connection(0, peer(3)).unwrap();
    assert_eq!(third, first);
    assert_ne!(third, second);
    assert_eq!(evloop.handshake_state(third), Some(SocksHandlerState::AwaitingAuth));
    let conn = evloop.connection(third).unwrap();
    assert_eq!(*conn.addr(), peer(3));
    assert!(conn.outbound().is_empty());
    assert!(evloop.handle_connection_readable(third, &AUTH).is_empty());
    assert_eq!(evloop.connection(third).unwrap().outbound(), &[0x05u8, 0x00][..]);
    assert_eq!(evloop.handshake_state(third), Some(SocksHandlerState::AwaitingRequest));
    let actions = evloop.handle_connection_readable(third, &CONNECT);
    assert_eq!(actions.len(), 1);
    assert_eq!(evloop.handshake_state(third), Some(SocksHandlerState::Relaying));
}

#[test]
fn identifier_of_a_refused_client_is_reused() {
    let mut evloop = event_loop();
    let first = evloop.handle_new_connection(0, peer(1)).unwrap();
    let actions = evloop.handle_connection_readable(first, &[0x04, 0x01, 0x00]);
    assert_eq!(actions.len(), 1);
    let again = evloop.handle_new_connection(0, peer(2)).unwrap();
    assert_eq!(again, first);
    assert_eq!(evloop.handshake_state(again), Some(SocksHandlerState::AwaitingAuth));
    assert!(evloop.connection(again).unwrap().outbound().is_empty());
}

#[test]
fn handlers_of_a_previous_life_are_not_kept() {
    let mut dispatcher = Dispatcher::new(SocksHandlerFactory::new());
    let mut stale = Connection::new(0, 0, peer(1));
    dispatcher.handle_new_connection(&stale);
    dispatcher.handle_connection_data(&mut stale, &AUTH);
    let mut evloop = EventLoop::new(dispatcher);
    assert_eq!(evloop.handshake_state(0), None);
    evloop.add_listener(bind());
    let id = evloop.handle_new_connection(0, peer(2)).unwrap();
    assert_eq!(id, 0);
    assert_eq!(evloop.handshake_state(0), Some(SocksHandlerState::AwaitingAuth));
}

#[test]
fn mark_sent_through_the_loop() {
    let mut evloop = event_loop();
    let id = evloop.handle_new_connection(0, peer(1)).unwrap();
    evloop.handle_connection_readable(id, &AUTH);
    evloop.mark_sent(id, 1);
    assert_eq!(evloop.connection(id).unwrap().outbound(), &[0x00u8][..]);
    evloop.mark_sent(id, 5);
    assert!(evloop.connection(id).unwrap().outbound().is_empty());
}

#[test]
fn one_client_misbehaving_leaves_the_others() {
    let mut evloop = event_loop();
    let good = evloop.handle_new_connection(0, peer(1)).unwrap();
    let bad = evloop.handle_new_connection(0, peer(2)).unwrap();
    evloop.handle_connection_readable(good, &AUTH);
    evloop.handle_connection_readable(bad, &[0x05, 0x01, 0x00, 0x05, 0x07]);
    assert!(evloop.connection(bad).is_none());
    let actions = evloop.handle_connection_readable(good, &CONNECT);
    assert_eq!(actions.len(), 1);
    assert_eq!(evloop.handshake_state(good), Some(SocksHandlerState::Relaying));
}

#[test]
fn failed_transport_removes_the_connection() {
    let mut evloop = event_loop();
    let keep = evloop.handle_new_connection(0, peer(1)).unwrap();
    let id = evloop.handle_new_connection(0, peer(2)).unwrap();
    evloop.handle_connection_readable(id, &AUTH);
    evloop.handle_connection_readable(keep, &AUTH);
    let actions = evloop.handle_connection_error(id);
    assert_eq!(actions.len(), 1);
    match &actions[0] {
        Action::Close(conn) => {
            assert_eq!(conn.id(), id);
            assert_eq!(*conn.addr(), peer(2));
            assert_eq!(conn.outbound(), &[0x05u8, 0x00][..]);
        },
        other => panic!("unexpected action {:?}", other),
    }
    assert!(evloop.connection(id).is_none());
    assert_eq!(evloop.handshake_state(id), None);
    assert!(evloop.connection(keep).is_some());
    assert_eq!(evloop.handshake_state(keep), Some(SocksHandlerState::AwaitingRequest));
    assert_eq!(evloop.connection(keep).unwrap().outbound(), &[0x05u8, 0x00][..]);
}

#[test]
fn failed_transport_of_an_unknown_connection_does_nothing() {
    let mut evloop = event_loop();
    let id = evloop.handle_new_connection(0, peer(1)).unwrap();
    assert!(evloop.handle_connection_error(id + 1).is_empty());
    assert!(evloop.connection(id).is_some());
    assert_eq!(evloop.handshake_state(id), Some(SocksHandlerState::AwaitingAuth));
    assert_eq!(evloop.handle_connection_error(id).len(), 1);
    assert!(evloop.handle_connection_error(id).is_empty());
}

#[test]
fn identifier_is_reused_after_a_failed_transport() {
    let mut evloop = event_loop();
    let id = evloop.handle_new_connection(0, peer(1)).unwrap();
    evloop.handle_connection_readable(id, &AUTH);
    evloop.handle_connection_error(id);
    let again = evloop.handle_new_connection(0, peer(2)).unwrap();
    assert_eq!(again, id);
    assert_eq!(evloop.handshake_state(again), Some(SocksHandlerState::AwaitingAuth));
    assert!(evloop.connection(again).unwrap().outbound().is_empty());
}

#[test]
fn payload_behind_the_handshake_is_handed_over() {
    let mut evloop = event_loop();
    let id = evloop.handle_new_connection(0, peer(1)).unwrap();
    let mut bytes = AUTH.to_vec();
    bytes.extend_from_slice(&CONNECT);
    bytes.extend_from_slice(b"GET /");
    let actions = evloop.handle_connection_readable(id, &bytes);
    assert_eq!(actions.len(), 2);
    match &actions[0] {
        Action::Connect(from, addr, port) => {
            assert_eq!(*from, id);
            assert_eq!(*addr, NetAddr::V4([127, 0, 0, 1]));
            assert_eq!(*port, 80);
        },
        other => panic!("unexpected action {:?}", other),
    }
    match &actions[1] {
        Action::Payload(from, payload) => {
            assert_eq!(*from, id);
            assert_eq!(payload, &b"GET /".to_vec());
        },
        other => panic!("unexpected action {:?}", other),
    }
    assert_eq!(evloop.handshake_state(id), Some(SocksHandlerState::Relaying));
}

#[test]
fn payload_is_handed_over_as_it_arrives() {
    let mut evloop = event_loop();
    let id = evloop.handle_new_connection(0, peer(1)).unwrap();
    evloop.handle_connection_readable(id, &AUTH);
    let actions = evloop.handle_connection_readable(id, &CONNECT);
    assert_eq!(actions.len(), 1);
    for round in 0..3u8 {
        let chunk = [0x05u8, 0x09, round];
        let actions = evloop.handle_connection_readable(id, &chunk);
        assert_eq!(actions.len(), 1);
        match &actions[0] {
            Action::Payload(from, payload) => {
                assert_eq!(*from, id);
                assert_eq!(payload, &chunk.to_vec());
            },
            other => panic!("unexpected action {:?}", other),
        }
        assert_eq!(evloop.handshake_state(id), Some(SocksHandlerState::Relaying));
    }
}

#[test]
fn no_payload_before_the_handshake_is_through() {
    let mut evloop = event_loop();
    let id = evloop.handle_new_connection(0, peer(1)).unwrap();
    assert!(evloop.handle_connection_readable(id, &AUTH[..2]).is_empty());
    assert!(evloop.handle_connection_readable(id, &AUTH[2..]).is_empty());
    assert!(evloop.handle_connection_readable(id, &CONNECT[..7]).is_empty());
    let actions = evloop.handle_connection_readable(id, &CONNECT[7..]);
    assert_eq!(actions.len(), 1);
    assert!(matches!(actions[0], Action::Connect(..)));
}

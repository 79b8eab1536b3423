use snowpack::pool::{
    expect_peer, LinkState, Reconnect, ReconnectStep, WaitConnected, WaitStep,
    MAX_BACKOFF_MILLIS,
};
use snowpack::{
    accept, connect, AuthDetails, AuthHeader, BadAuth, ConnectionError, ConnectionPool, NodeId,
    NotReady, SignatureKeypair, Transport, TransportKeypair,
};

fn details(id: u32) -> AuthDetails {
    AuthDetails { node_id: NodeId::from(id), role: None }
}

// ── Reconnecting ──────────────────────────────────────────────────────────

#[test]
fn waits_double_up_to_the_limit() {
    let mut reconnect = Reconnect::new();
    let target = NodeId::from(2u32);
    let mut waits = Vec::new();
    for _ in 0..12 {
        match reconnect.on_attempt::<()>(&target, Err(ConnectionError::HandshakeTimeout)) {
            ReconnectStep::Retry { millis, error: ConnectionError::HandshakeTimeout } => {
                waits.push(millis)
            }
            step => panic!("unexpected: {step:?}"),
        }
    }
    assert_eq!(
        waits,
        vec![50, 100, 200, 400, 800, 1600, 3200, 6400, 12800, 25600, 30000, 30000]
    );
    assert_eq!(MAX_BACKOFF_MILLIS, 30000);
}

#[test]
fn the_right_peer_is_installed() {
    let mut reconnect = Reconnect::new();
    let step = reconnect.on_attempt(&NodeId::from(2u32), Ok(("link", details(2))));
    assert!(matches!(step, ReconnectStep::Install("link")));
}

#[test]
fn another_peer_is_retried() {
    let mut reconnect = Reconnect::new();
    let step = reconnect.on_attempt(&NodeId::from(2u32), Ok(((), details(3))));
    let ReconnectStep::Retry {
        millis: 50,
        error: ConnectionError::BadAuth(BadAuth::NodeIdMismatch { expected, actual }),
    } = step
    else {
        panic!("unexpected: {step:?}");
    };
    assert_eq!(expected, NodeId::from(2u32));
    assert_eq!(actual, NodeId::from(3u32));
    assert!(expect_peer(5, &details(2), &NodeId::from(2u32)).is_ok());
}

// ── Claims ────────────────────────────────────────────────────────────────

#[test]
fn acquire_succeeds_after_handshake() {
    let mut state = LinkState::Reconnecting;
    state.install(7);
    assert!(state.acquire().is_ok(), "should be Connected after handshake");
    *state.transport() = 8;
    assert_eq!(*state.transport(), 8);
}

#[test]
fn acquire_returns_not_ready_while_reconnecting() {
    let state: LinkState<()> = LinkState::Reconnecting;
    assert_eq!(state.acquire().err(), Some(NotReady));
}

#[test]
fn dirty_drop_resets_connection() {
    let mut state = LinkState::Connected(1);
    let guard = state.acquire().unwrap();
    assert!(guard.release(&mut state), "must be established anew");
    assert!(state.acquire().is_err(), "should be Reconnecting after dirty drop");
}

/// The two ends of a connection.
fn connected() -> (Transport, Transport) {
    let cluster = SignatureKeypair::generate().unwrap();
    let server = TransportKeypair::generate().unwrap();
    let client = TransportKeypair::generate().unwrap();
    let server_auth = AuthHeader::new(2u32, None, &server.public).sign(&cluster.private);
    let client_auth = AuthHeader::new(1u32, None, &client.public).sign(&cluster.private);
    let (connecting, hello) = connect(&client.private).unwrap();
    let (answered, answer) =
        accept(&server.private).unwrap().on_hello(&hello[2..], &server_auth).unwrap();
    let replied = connecting.on_reply(&answer[2..], &cluster.public).ok().unwrap();
    let (client, confirmation) = replied.confirm(&client_auth).ok().unwrap();
    let server = answered.on_reply(&confirmation[2..], &cluster.public).ok().unwrap();
    (server.finish().ok().unwrap(), client.finish().ok().unwrap())
}

/// Carries a message of one packet from one end to the other.
fn carry(from: &mut Transport, to: &mut Transport, payload: &[u8]) -> Vec<u8> {
    let mut sending = from.tx.send_message(1u8, payload).ok().unwrap();
    let frame = sending.next(&mut from.tx.packets, &mut from.session).unwrap().unwrap();
    assert!(sending.next(&mut from.tx.packets, &mut from.session).unwrap().is_none());
    let message = to.rx.read_message(&mut to.session, &frame[2..]).unwrap();
    assert!(message.read_bytes(&mut to.rx).is_complete());
    to.rx.bytes().to_vec()
}

#[test]
fn commit_keeps_connection_live() {
    let (mut server, client) = connected();
    let mut state = LinkState::Connected(client);
    // Two back-to-back successful exchanges on the same connection.
    for _ in 0..2 {
        let mut guard = state.acquire().expect("Connected");
        assert_eq!(carry(state.transport(), &mut server, &[42u8]), [42]);
        assert_eq!(carry(&mut server, state.transport(), &[99u8]), [99]);
        guard.commit();
        assert!(!guard.release(&mut state));
    }
    assert!(state.acquire().is_ok(), "should still be Connected");
}

// ── Waiting ───────────────────────────────────────────────────────────────

#[test]
fn wait_connected_does_not_reset_connection() {
    let state = LinkState::Connected(1);
    let wait = WaitConnected::new(1000, 100);
    assert_eq!(wait.check(&state, 1000), WaitStep::Ready);
    assert!(state.acquire().is_ok(), "waiting must not reset the connection");
}

#[test]
fn waiting_ends_at_the_deadline() {
    let state: LinkState<()> = LinkState::Reconnecting;
    let wait = WaitConnected::new(1000, 100);
    assert_eq!(wait.check(&state, 1000), WaitStep::Wait { nanos: 100 });
    assert_eq!(wait.check(&state, 1060), WaitStep::Wait { nanos: 40 });
    assert_eq!(wait.check(&state, 1100), WaitStep::Wait { nanos: 0 });
    assert_eq!(wait.check(&state, 5000), WaitStep::Wait { nanos: 0 });
    assert_eq!(wait.on_wake(true), Ok(()));
    assert_eq!(wait.on_wake(false), Err(NotReady));
}

#[test]
fn waits_longer_than_a_word_of_nanoseconds_are_kept() {
    let state: LinkState<()> = LinkState::Reconnecting;
    let longest = std::time::Duration::MAX.as_nanos();
    let wait = WaitConnected::new(1, longest);
    assert_eq!(wait.check(&state, 1), WaitStep::Wait { nanos: longest });
    assert_eq!(wait.check(&state, 2), WaitStep::Wait { nanos: longest - 1 });
}

// ── Peers ─────────────────────────────────────────────────────────────────

#[test]
fn a_link_is_made_once_per_peer() {
    let mut pool: ConnectionPool<&str> = ConnectionPool::new();
    assert_eq!(*pool.peer(NodeId::from(1u32), || "one"), "one");
    assert_eq!(*pool.peer(NodeId::from(2u32), || "two"), "two");
    assert_eq!(*pool.peer(NodeId::from(1u32), || unreachable!("should reuse")), "one");
    assert_eq!(*pool.peer(NodeId::from(2u32), || unreachable!("should reuse")), "two");
    assert_eq!(*pool.peer(NodeId::from(1u64), || "wide"), "wide");
}

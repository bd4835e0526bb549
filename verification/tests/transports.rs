use fips_browser::transport::links::{
    dial_result, Attempt, ConnectAction, DialOutcome, CONNECT_TIMEOUT_SECS,
};
use fips_browser::transport::websocket::stats::WebSocketStats;
use fips_browser::transport::websocket::{
    ws_rx_step, ListenOutcome, ReceiveAction, SocketEvent, WebSocketConfig, WebSocketTransport,
};
use fips_browser::transport::webtransport::stats::WebTransportStats;
use fips_browser::transport::webtransport::{
    datagram_rx_step, first_identity_step, fmp_payload, ipv6_fits, next_identity_step,
    DatagramEvent, IdentityStep, ServeOutcome, WebTransportConfig, WebTransportTransport,
};
use fips_browser::transport::{
    websocket, webtransport, ConnectionState, TransportAddr, TransportError, TransportId,
    TransportState,
};

fn addr(s: &str) -> TransportAddr {
    TransportAddr::from_string(s)
}

fn message<T>(r: Result<T, TransportError>) -> String {
    r.err().unwrap().message()
}

fn ws(bind: Option<&str>) -> WebSocketTransport {
    let config = WebSocketConfig {
        bind_addr: bind.map(|b| b.to_string()),
        accept_connections: None,
    };
    WebSocketTransport::new(TransportId(4), Some("main".to_string()), config)
}

fn wt(bind: Option<&str>) -> WebTransportTransport {
    let config = WebTransportConfig {
        bind_addr: bind.map(|b| b.to_string()),
        cert_file: None,
        key_file: Some("/tmp/key.pem".to_string()),
        mtu: None,
        accept_connections: Some(false),
    };
    WebTransportTransport::new(TransportId(5), None, config)
}

// --- addresses and states ---

#[test]
fn transport_addresses() {
    assert_eq!(addr("host:1").as_str().unwrap(), "host:1");
    assert_eq!(addr("host:1").shown(), "host:1");
    assert_eq!(addr("host:1").copy().bytes, b"host:1");
    let raw = TransportAddr {
        bytes: vec![0xff, 0x01],
    };
    assert!(raw.as_str().is_none());
    assert_eq!(raw.shown(), "ff01");
}

#[test]
fn states() {
    assert!(TransportState::Configured.can_start());
    assert!(TransportState::Down.can_start());
    assert!(!TransportState::Starting.can_start());
    assert!(!TransportState::Up.can_start());
    assert!(TransportState::Up.is_operational());
    assert!(!TransportState::Starting.is_operational());
}

#[test]
fn dialling() {
    assert_eq!(CONNECT_TIMEOUT_SECS, 10);
    assert!(dial_result(DialOutcome::Connected).is_ok());
    assert!(matches!(
        dial_result(DialOutcome::Refused),
        Err(TransportError::ConnectionRefused)
    ));
    assert!(matches!(
        dial_result(DialOutcome::TimedOut),
        Err(TransportError::Timeout)
    ));
    assert_eq!(
        message(dial_result(DialOutcome::NoEndpoint("why".to_string()))),
        "transport failed to start: client endpoint creation failed: why"
    );
}

// --- WebSocket ---

#[test]
fn websocket_properties() {
    let mut t = ws(None);
    assert_eq!(t.name(), Some("main"));
    assert_eq!(t.transport_id(), TransportId(4));
    assert_eq!(t.transport_type(), "websocket");
    assert_eq!(t.mtu(), 65535);
    assert!(t.accept_connections());
    assert_eq!(t.state(), TransportState::Configured);
    assert!(t.discover().ok().unwrap().is_empty());
    assert_eq!(
        message(t.start()),
        "not supported: use start_async() for WebSocket transport"
    );
    assert_eq!(
        message(t.stop()),
        "not supported: use stop_async() for WebSocket transport"
    );
    assert_eq!(
        message(t.send(&addr("x"), b"y")),
        "not supported: use send_async() for WebSocket transport"
    );
}

#[test]
fn websocket_life() {
    let mut t = ws(Some("127.0.0.1:8080"));
    assert_eq!(message(t.stop_async()), "transport not started");
    match t.start_async() {
        Ok(websocket::StartAction::Listen(a)) => assert_eq!(a, "127.0.0.1:8080"),
        _ => panic!("expected to listen"),
    }
    assert_eq!(t.state(), TransportState::Starting);
    assert!(t.listening(ListenOutcome::Listening).is_ok());
    assert_eq!(t.state(), TransportState::Up);
    assert_eq!(message(t.start_async()), "transport already started");

    let (peer, replaced) = t.session_accepted("10.0.0.1:5", 10);
    assert_eq!(peer.bytes, b"ws-10.0.0.1:5");
    assert_eq!(replaced, None);
    assert_eq!(t.session_accepted("10.0.0.1:5", 11).1, Some(10));
    assert!(matches!(
        t.connect_async(&addr("far:1"), 12),
        Ok(ConnectAction::Dial(_))
    ));
    let actions = t.stop_async().ok().unwrap();
    assert!(actions.listener);
    assert_eq!(actions.sessions, [11]);
    assert_eq!(actions.attempts, [12]);
    assert_eq!(t.state(), TransportState::Down);
    assert_eq!(t.stats().sessions_closed, 0);
    assert!(t.start_async().is_ok());
}

#[test]
fn websocket_that_cannot_listen() {
    let mut t = ws(Some("nonsense"));
    assert!(t.start_async().is_ok());
    assert_eq!(
        message(t.listening(ListenOutcome::BadAddress("e".to_string()))),
        "transport failed to start: invalid bind address: e"
    );
    assert_eq!(t.state(), TransportState::Starting);
    assert_eq!(
        message(t.listening(ListenOutcome::BindFailed("e".to_string()))),
        "transport failed to start: bind failed: e"
    );
    assert_eq!(message(t.start_async()), "transport already started");
}

#[test]
fn websocket_connections() {
    let mut t = ws(None);
    let far = addr("far:1");
    assert_eq!(message(t.connect_async(&far, 1)), "transport not started");
    assert_eq!(message(t.send_async(&far)), "transport not started");
    assert!(matches!(
        t.start_async(),
        Ok(websocket::StartAction::ClientOnly)
    ));
    assert_eq!(
        message(t.send_async(&far)),
        "send failed: no WebSocket session for far:1"
    );
    assert!(matches!(
        t.connection_state_sync(&far, Attempt::Running),
        ConnectionState::Absent
    ));
    match t.connect_async(&far, 1) {
        Ok(ConnectAction::Dial(url)) => assert_eq!(url, "ws://far:1"),
        _ => panic!("expected to dial"),
    }
    assert!(matches!(
        t.connect_async(&far, 2),
        Ok(ConnectAction::Nothing)
    ));
    assert_eq!(t.pending(&far), Some(1));
    assert!(matches!(
        t.connection_state_sync(&far, Attempt::Running),
        ConnectionState::Connecting
    ));
    assert!(matches!(
        t.connection_state_sync(&far, Attempt::Connected(None)),
        ConnectionState::Connected
    ));
    assert_eq!(t.pending(&far), None);
    assert_eq!(t.stats().sessions_connected, 1);
    assert_eq!(t.send_async(&far).ok().unwrap(), 1);
    assert!(matches!(
        t.connect_async(&far, 3),
        Ok(ConnectAction::Nothing)
    ));
    assert!(matches!(
        t.connection_state_sync(&far, Attempt::Running),
        ConnectionState::Connected
    ));

    assert_eq!(t.sent(100, None).ok().unwrap(), 100);
    assert_eq!(
        message(t.sent(7, Some("gone".to_string()))),
        "send failed: WebSocket send failed: gone"
    );
    assert_eq!(t.stats().messages_sent, 1);
    assert_eq!(t.stats().bytes_sent, 100);
    assert_eq!(t.stats().send_errors, 1);

    assert_eq!(t.close_connection_async(&far), Some(1));
    assert_eq!(t.close_connection_async(&far), None);
    assert_eq!(t.stats().sessions_closed, 1);
    assert!(t.send_async(&far).is_err());
}

#[test]
fn websocket_attempts_that_fail() {
    let mut t = ws(None);
    t.start_async().ok().unwrap();
    let far = addr("far:1");
    t.connect_async(&far, 1).ok().unwrap();
    match t.connection_state_sync(&far, Attempt::Failed(TransportError::Timeout)) {
        ConnectionState::Failed(m) => assert_eq!(m, "connection timed out"),
        _ => panic!("expected a failure"),
    }
    assert!(matches!(
        t.connection_state_sync(&far, Attempt::Running),
        ConnectionState::Absent
    ));
    t.connect_async(&far, 2).ok().unwrap();
    match t.connection_state_sync(&far, Attempt::Panicked("boom".to_string())) {
        ConnectionState::Failed(m) => assert_eq!(m, "connect task panicked: boom"),
        _ => panic!("expected a failure"),
    }
    let raw = TransportAddr { bytes: vec![0xff] };
    assert_eq!(
        message(t.connect_async(&raw, 3)),
        "invalid address: not valid UTF-8"
    );
}

#[test]
fn websocket_receive_loop() {
    let mut stats = WebSocketStats::default();
    let from = addr("ws-1");
    match ws_rx_step(&mut stats, TransportId(4), &from, SocketEvent::Binary(vec![1, 2, 3])) {
        ReceiveAction::Deliver(p) => {
            assert_eq!(p.transport_id, TransportId(4));
            assert_eq!(p.remote_addr.bytes, b"ws-1");
            assert_eq!(p.data, [1, 2, 3]);
        }
        _ => panic!("expected a packet"),
    }
    for event in [SocketEvent::Ping, SocketEvent::Pong, SocketEvent::Other] {
        assert!(matches!(
            ws_rx_step(&mut stats, TransportId(4), &from, event),
            ReceiveAction::Ignore
        ));
    }
    assert_eq!((stats.messages_recv, stats.bytes_recv), (1, 3));
    assert_eq!(stats.sessions_closed, 0);
    for event in [
        SocketEvent::Close,
        SocketEvent::End,
        SocketEvent::NodeGone,
        SocketEvent::Error,
    ] {
        assert!(matches!(
            ws_rx_step(&mut stats, TransportId(4), &from, event),
            ReceiveAction::Stop
        ));
    }
    assert_eq!((stats.sessions_closed, stats.recv_errors), (4, 1));

    let mut t = ws(None);
    assert!(matches!(
        t.received(&from, SocketEvent::Binary(vec![9])),
        ReceiveAction::Deliver(_)
    ));
    assert_eq!(t.stats().messages_recv, 1);
}

#[test]
fn websocket_receive_loop_keeps_the_order() {
    let mut stats = WebSocketStats::default();
    let mut delivered: Vec<Vec<u8>> = Vec::new();
    let mut stops = 0;
    for event in [
        SocketEvent::Binary(vec![1]),
        SocketEvent::Ping,
        SocketEvent::Binary(vec![]),
        SocketEvent::Binary(vec![2, 3]),
        SocketEvent::Error,
    ] {
        match ws_rx_step(&mut stats, TransportId(4), &addr("ws-1"), event) {
            ReceiveAction::Deliver(p) => delivered.push(p.data),
            ReceiveAction::Ignore => {}
            ReceiveAction::Stop => stops += 1,
        }
    }
    assert_eq!(delivered, [vec![1], vec![], vec![2, 3]]);
    assert_eq!(stops, 1);
    let s = stats.snapshot();
    assert_eq!((s.messages_recv, s.bytes_recv), (3, 3));
    assert_eq!((s.recv_errors, s.sessions_closed), (1, 1));
    assert_eq!((s.messages_sent, s.bytes_sent, s.send_errors), (0, 0, 0));
    assert_eq!((s.sessions_accepted, s.sessions_connected), (0, 0));
}

#[test]
fn websocket_statistics() {
    let mut stats = WebSocketStats::new();
    stats.record_send(10);
    stats.record_send(5);
    stats.record_recv(3);
    stats.record_send_error();
    stats.record_recv_error();
    stats.record_session_accepted();
    stats.record_session_connected();
    stats.record_session_closed();
    let s = stats.snapshot();
    assert_eq!((s.messages_sent, s.bytes_sent), (2, 15));
    assert_eq!((s.messages_recv, s.bytes_recv), (1, 3));
    assert_eq!((s.send_errors, s.recv_errors), (1, 1));
    assert_eq!(
        (s.sessions_accepted, s.sessions_connected, s.sessions_closed),
        (1, 1, 1)
    );
    stats.bytes_sent = u64::MAX;
    stats.record_send(2);
    assert_eq!(stats.bytes_sent, 1);
}

// --- WebTransport ---

#[test]
fn webtransport_properties() {
    let mut t = wt(None);
    assert_eq!(t.name(), None);
    assert_eq!(t.transport_id(), TransportId(5));
    assert_eq!(t.transport_type(), "webtransport");
    assert_eq!(t.mtu(), 1200);
    assert_eq!(t.cert_file(), "/etc/fips/wt-cert.pem");
    assert_eq!(t.key_file(), "/tmp/key.pem");
    assert!(!t.accept_connections());
    assert!(t.discover().ok().unwrap().is_empty());
    assert_eq!(
        message(t.start()),
        "not supported: use start_async() for WebTransport transport"
    );
    assert_eq!(
        message(t.stop()),
        "not supported: use stop_async() for WebTransport transport"
    );
    assert_eq!(
        message(t.send(&addr("x"), b"y")),
        "not supported: use send_async() for WebTransport transport"
    );
}

#[test]
fn webtransport_life() {
    let mut t = wt(Some("0.0.0.0:4433"));
    match t.start_async() {
        Ok(webtransport::StartAction::Serve(a)) => assert_eq!(a, "0.0.0.0:4433"),
        _ => panic!("expected to serve"),
    }
    assert_eq!(
        message(t.serving(ServeOutcome::BadAddress("e".to_string()))),
        "transport failed to start: invalid bind address: e"
    );
    assert_eq!(
        message(t.serving(ServeOutcome::NoEndpoint("e".to_string()))),
        "transport failed to start: endpoint creation failed: e"
    );
    let cause = TransportError::StartFailed("no identity".to_string());
    assert_eq!(
        message(t.serving(ServeOutcome::NoIdentity(cause))),
        "transport failed to start: no identity"
    );
    assert_eq!(t.state(), TransportState::Starting);
    assert!(t.serving(ServeOutcome::Serving).is_ok());

    let (peer, replaced) = t.session_accepted(40, 9, Some(1_400));
    assert_eq!(replaced, None);
    assert_eq!(peer.bytes, b"wt-session-40");
    assert_eq!(t.send_async(&peer).ok().unwrap(), 9);
    assert_eq!(t.link_mtu(&peer, None), 1_400);
    assert_eq!(t.link_mtu(&peer, Some(1_300)), 1_300);
    assert_eq!(t.link_mtu(&peer, Some(100_000)), 65535);
    assert_eq!(t.link_mtu(&addr("elsewhere"), Some(1_300)), 1_200);
    let (plain, _) = t.session_accepted(44, 10, None);
    assert_eq!(t.link_mtu(&plain, None), 1_200);
    assert_eq!(t.close_connection_async(&peer), Some(9));
    assert_eq!(t.link_mtu(&peer, None), 1_200);
    assert_eq!(
        (t.stats().sessions_accepted, t.stats().sessions_closed),
        (2, 1)
    );
    let actions = t.stop_async().ok().unwrap();
    assert_eq!(actions.sessions, [10]);
    assert!(actions.listener && actions.attempts.is_empty());
}

#[test]
fn webtransport_connections() {
    let mut t = wt(None);
    assert!(matches!(
        t.start_async(),
        Ok(webtransport::StartAction::ClientOnly)
    ));
    let far = addr("far:4433");
    assert_eq!(
        message(t.send_async(&far)),
        "send failed: no WebTransport session for far:4433"
    );
    match t.connect_async(&far, 6) {
        Ok(ConnectAction::Dial(url)) => assert_eq!(url, "https://far:4433"),
        _ => panic!("expected to dial"),
    }
    assert_eq!(t.pending(&far), Some(6));
    assert!(matches!(
        t.connection_state_sync(&far, Attempt::Connected(Some(1_350))),
        ConnectionState::Connected
    ));
    assert_eq!(t.link_mtu(&far, None), 1_350);
    assert_eq!(t.sent(12, None).ok().unwrap(), 12);
    assert_eq!(
        message(t.sent(12, Some("big".to_string()))),
        "send failed: datagram send failed: big"
    );
    let s = t.stats().snapshot();
    assert_eq!((s.datagrams_sent, s.bytes_sent, s.send_errors), (1, 12, 1));
    assert_eq!(s.sessions_connected, 1);
}

#[test]
fn webtransport_receive_loop() {
    let mut stats = WebTransportStats::default();
    let from = addr("wt-session-0");
    let event = DatagramEvent::Datagram(vec![1, 2]);
    let packet = datagram_rx_step(&mut stats, TransportId(5), &from, event).unwrap();
    assert_eq!(packet.data, [1, 2]);
    assert_eq!(packet.remote_addr.bytes, from.bytes);
    assert!(datagram_rx_step(&mut stats, TransportId(5), &from, DatagramEvent::Error).is_none());
    assert!(datagram_rx_step(&mut stats, TransportId(5), &from, DatagramEvent::NodeGone).is_none());
    assert_eq!((stats.datagrams_recv, stats.bytes_recv), (1, 2));
    assert_eq!((stats.recv_errors, stats.sessions_closed), (1, 2));
    let mut t = wt(None);
    assert!(t.received(&from, DatagramEvent::Datagram(vec![])).is_some());
    assert_eq!(t.stats().datagrams_recv, 1);
}

#[test]
fn webtransport_receive_loop_keeps_the_order() {
    let mut stats = WebTransportStats::default();
    let mut delivered: Vec<Vec<u8>> = Vec::new();
    for event in [
        DatagramEvent::Datagram(vec![1, 2]),
        DatagramEvent::Datagram(vec![3]),
        DatagramEvent::NodeGone,
    ] {
        if let Some(p) = datagram_rx_step(&mut stats, TransportId(5), &addr("wt-session-0"), event) {
            delivered.push(p.data);
        }
    }
    assert_eq!(delivered, [vec![1, 2], vec![3]]);
    let s = stats.snapshot();
    assert_eq!((s.datagrams_recv, s.bytes_recv), (2, 3));
    assert_eq!((s.recv_errors, s.sessions_closed), (0, 1));
    assert_eq!((s.datagrams_sent, s.bytes_sent, s.send_errors), (0, 0, 0));
}

#[test]
fn webtransport_statistics() {
    let mut stats = WebTransportStats::new();
    stats.record_send(10);
    stats.record_recv(3);
    stats.record_send_error();
    stats.record_recv_error();
    stats.record_session_accepted();
    stats.record_session_connected();
    stats.record_session_closed();
    let s = stats.snapshot();
    assert_eq!((s.datagrams_sent, s.bytes_sent), (1, 10));
    assert_eq!((s.datagrams_recv, s.bytes_recv), (1, 3));
    assert_eq!((s.send_errors, s.recv_errors), (1, 1));
    assert_eq!(
        (s.sessions_accepted, s.sessions_connected, s.sessions_closed),
        (1, 1, 1)
    );
}

#[test]
fn webtransport_sizes() {
    assert_eq!(fmp_payload(1_429), 1_392);
    assert_eq!(fmp_payload(36), 0);
    assert!(ipv6_fits(Some(1_317)));
    assert!(!ipv6_fits(Some(1_316)));
    assert!(!ipv6_fits(None));
}

#[test]
fn webtransport_identities() {
    assert_eq!(first_identity_step(true, true), IdentityStep::Load);
    assert_eq!(first_identity_step(true, false), IdentityStep::Generate);
    assert_eq!(first_identity_step(false, true), IdentityStep::Generate);
    let mut steps = vec![first_identity_step(false, false)];
    while *steps.last().unwrap() != IdentityStep::Ready {
        let next = next_identity_step(*steps.last().unwrap(), true, None);
        steps.push(next.ok().unwrap());
    }
    assert_eq!(
        steps,
        [
            IdentityStep::Generate,
            IdentityStep::CreateDirectory,
            IdentityStep::StoreCertificate,
            IdentityStep::StoreKey,
            IdentityStep::Ready
        ]
    );
    assert_eq!(
        next_identity_step(IdentityStep::Generate, false, None).ok(),
        Some(IdentityStep::StoreCertificate)
    );
    assert_eq!(
        next_identity_step(IdentityStep::Load, true, None).ok(),
        Some(IdentityStep::Ready)
    );
    for (step, words) in [
        (IdentityStep::Load, "failed to load TLS identity: e"),
        (IdentityStep::Generate, "cert generation failed: e"),
        (IdentityStep::CreateDirectory, "failed to create cert directory: e"),
        (IdentityStep::StoreCertificate, "failed to write cert file: e"),
        (IdentityStep::StoreKey, "failed to write key file: e"),
    ] {
        assert_eq!(
            message(next_identity_step(step, true, Some("e".to_string()))),
            format!("transport failed to start: {words}")
        );
    }
}

type Files = (Option<String>, Option<String>);

/// Takes the steps towards an identity on files that are kept in memory.
fn start_with(
    files: &mut Files,
    fresh: (&str, &str),
    failing: Option<IdentityStep>,
) -> Option<(String, String)> {
    let mut held: Option<(String, String)> = None;
    let mut step = first_identity_step(files.0.is_some(), files.1.is_some());
    while step != IdentityStep::Ready {
        if failing == Some(step) {
            assert!(next_identity_step(step, true, Some("e".to_string())).is_err());
            return None;
        }
        match step {
            IdentityStep::Load => held = files.0.clone().zip(files.1.clone()),
            IdentityStep::Generate => held = Some((fresh.0.to_string(), fresh.1.to_string())),
            IdentityStep::StoreCertificate => files.0 = held.clone().map(|h| h.0),
            IdentityStep::StoreKey => files.1 = held.clone().map(|h| h.1),
            _ => {}
        }
        step = next_identity_step(step, true, None).ok().unwrap();
    }
    held
}

#[test]
fn webtransport_identity_is_kept() {
    let pair = |c: &str, k: &str| Some((c.to_string(), k.to_string()));
    for before in [(None, None), (Some("old".to_string()), None), (None, Some("old".to_string()))] {
        let mut files: Files = before;
        assert_eq!(start_with(&mut files, ("cert", "key"), None), pair("cert", "key"));
        assert_eq!(files, (Some("cert".to_string()), Some("key".to_string())));
        // A later start finds both files and writes nothing.
        assert_eq!(start_with(&mut files, ("cert2", "key2"), None), pair("cert", "key"));
        assert_eq!(files, (Some("cert".to_string()), Some("key".to_string())));
        assert_eq!(start_with(&mut files, ("cert2", "key2"), Some(IdentityStep::Load)), None);
        assert_eq!(files, (Some("cert".to_string()), Some("key".to_string())));
    }
    for step in [
        IdentityStep::Generate,
        IdentityStep::CreateDirectory,
        IdentityStep::StoreCertificate,
        IdentityStep::StoreKey,
    ] {
        assert_eq!(start_with(&mut (None, None), ("cert", "key"), Some(step)), None);
    }
}

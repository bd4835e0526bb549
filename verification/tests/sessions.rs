use fips_browser::identity::{Identity, SecretKey};
use fips_browser::session::{SessionEventKind, SessionManager};
use fips_browser::wire;

struct Side {
    id: Identity,
    sessions: SessionManager,
    epoch: [u8; 8],
}

impl Side {
    fn new(n: u8) -> Side {
        let id = Identity::from_secret(SecretKey::from_bytes([n; 32]).unwrap());
        let sessions = SessionManager::new(*id.node_addr());
        Side {
            id,
            sessions,
            epoch: [n; 8],
        }
    }

    fn addr(&self) -> [u8; 16] {
        *self.id.node_addr()
    }

    fn initiate(&mut self, to: &Side, now: u64) -> Result<Vec<u8>, String> {
        let key = to.id.secret_key().public_key();
        self.sessions.initiate_at(
            to.addr(),
            &key,
            self.epoch,
            self.id.secret_key(),
            now,
            None,
        )
    }

    fn hear(
        &mut self,
        from: &Side,
        payload: &[u8],
        now: u64,
    ) -> Result<fips_browser::session::SessionEvent, String> {
        self.sessions.process_incoming_at(
            from.addr(),
            payload,
            self.epoch,
            self.id.secret_key(),
            now,
            None,
        )
    }
}

fn established() -> (Side, Side) {
    let mut a = Side::new(1);
    let mut b = Side::new(2);
    let setup = a.initiate(&b, 1_000).unwrap();
    let ack = b.hear(&a, &setup, 1_010).unwrap().fsp_responses.remove(0);
    let msg3 = a.hear(&b, &ack, 1_020).unwrap().fsp_responses.remove(0);
    b.hear(&a, &msg3, 1_030).unwrap();
    (a, b)
}

#[test]
fn a_session_establishes() {
    let mut a = Side::new(1);
    let mut b = Side::new(2);
    assert!(!a.sessions.is_established(&b.addr()));
    let setup = a.initiate(&b, 1_000).unwrap();
    assert_eq!(setup[0], wire::FSP_PHASE_SETUP);
    assert_eq!(
        a.initiate(&b, 1_000).err().unwrap(),
        "session handshake already in progress for this destination"
    );

    let got = b.hear(&a, &setup, 1_000).unwrap();
    assert_eq!(got.info, "SessionSetup received, sent SessionAck (XK msg2)");
    assert!(got.kind == SessionEventKind::Setup);
    assert_eq!(got.fsp_responses.len(), 1);
    assert_eq!(got.from, a.addr());
    assert!(!b.sessions.is_established(&a.addr()));

    let acked = a.hear(&b, &got.fsp_responses[0], 1_000).unwrap();
    assert_eq!(
        acked.info,
        "SessionAck received, sent msg3. Session ESTABLISHED!"
    );
    assert!(acked.kind == SessionEventKind::Ack);
    assert_eq!(acked.remote_npub, Some(b.id.npub()));
    assert!(a.sessions.is_established(&b.addr()));
    assert_eq!(a.sessions.established_destinations(), [b.addr()]);

    let done = b.hear(&a, &acked.fsp_responses[0], 1_000).unwrap();
    assert_eq!(done.info, "SessionMsg3 received. Session ESTABLISHED!");
    assert!(done.kind == SessionEventKind::Msg3);
    assert_eq!(done.remote_npub, Some(a.id.npub()));
    assert!(done.fsp_responses.is_empty());
    assert!(b.sessions.is_established(&a.addr()));

    assert_eq!(
        a.initiate(&b, 1_000).err().unwrap(),
        "session already established for this destination"
    );
}

#[test]
fn data_arrives_once() {
    let (mut a, mut b) = established();
    let sent = a
        .sessions
        .send_data_at(&b.addr(), 7, 1, b"hello", 2_000)
        .unwrap();
    let got = b.hear(&a, &sent, 2_100).unwrap();
    assert_eq!(got.payload, Some((1, b"hello".to_vec())));
    assert_eq!(got.info, "Session data: src_port=7 dst_port=1 5 bytes");
    assert!(got.kind == SessionEventKind::Data);

    let again = b.hear(&a, &sent, 2_200).unwrap();
    assert!(again.kind == SessionEventKind::Replay);
    assert_eq!(again.info, "Session replay detected: counter 0");
    assert_eq!(again.payload, None);

    let back = b.sessions.send_data(&a.addr(), 0, 0, b"").unwrap();
    let got = a.hear(&b, &back, 2_300).unwrap();
    assert_eq!(got.payload, Some((0, Vec::new())));
}

#[test]
fn data_behind_coordinates() {
    // The CP flag is part of what is authenticated: a message that gains it no longer opens, but
    // its coordinates are skipped first.
    let (mut a, mut b) = established();
    let sent = a.sessions.send_data_at(&b.addr(), 7, 1, b"x", 2_000).unwrap();
    let mut with_coords = sent[..12].to_vec();
    with_coords[1] |= 1;
    with_coords.extend_from_slice(&wire::encode_coords(&[[1; 16]]));
    with_coords.extend_from_slice(&wire::encode_coords(&[[2; 16]]));
    with_coords.extend_from_slice(&sent[12..]);
    assert_eq!(
        b.hear(&a, &with_coords, 2_000).err().unwrap(),
        "session decrypt failed: decryption failed"
    );
    assert_eq!(
        b.hear(&a, &with_coords[..30], 2_000).err().unwrap(),
        "invalid dest coords in CP"
    );
    let mut no_coords = sent[..12].to_vec();
    no_coords[1] |= 1;
    no_coords.extend_from_slice(&[0xff; 20]);
    assert_eq!(
        b.hear(&a, &no_coords, 2_000).err().unwrap(),
        "invalid src coords in CP"
    );
}

#[test]
fn reports_in_a_session() {
    let (mut a, mut b) = established();
    let inner = [wire::MSG_TYPE_SENDER_REPORT, 0, 1, 2];
    let sent = a
        .sessions
        .build_encrypted_session_message_at(&b.addr(), &inner, 2_000)
        .unwrap();
    let got = b.hear(&a, &sent, 2_000).unwrap();
    assert!(got.kind == SessionEventKind::SenderReport);
    assert_eq!(got.info, "Session SenderReport received");

    let report = b
        .sessions
        .build_session_receiver_report_at(&a.addr(), 2_500, 2_500)
        .unwrap();
    let got = a.hear(&b, &report, 2_600).unwrap();
    assert!(got.kind == SessionEventKind::ReceiverReport);
    assert_eq!(got.info, "Session ReceiverReport received");

    let other = a
        .sessions
        .build_encrypted_session_message(&b.addr(), &[0x0a, 0])
        .unwrap();
    let got = b.hear(&a, &other, 2_700).unwrap();
    assert!(got.kind == SessionEventKind::Other);
    assert_eq!(got.info, "Session msg_type 0x0a (6 bytes)");

    let short = a
        .sessions
        .build_encrypted_session_message(&b.addr(), &[wire::FSP_MSG_TYPE_DATA])
        .unwrap();
    assert_eq!(
        b.hear(&a, &short, 2_700).err().unwrap(),
        "FSP inner header too short"
    );
    let ports = a
        .sessions
        .build_encrypted_session_message(&b.addr(), &[wire::FSP_MSG_TYPE_DATA, 0, 1])
        .unwrap();
    assert_eq!(
        b.hear(&a, &ports, 2_700).err().unwrap(),
        "DataPacket too short for port header"
    );
}

#[test]
fn errors_of_incoming_payloads() {
    let mut a = Side::new(1);
    let mut b = Side::new(2);
    assert_eq!(a.hear(&b, &[0; 3], 0).err().unwrap(), "FSP payload too short");
    assert_eq!(
        a.hear(&b, &[0x0f, 0, 0, 0], 0).err().unwrap(),
        "unknown FSP phase: 0xf"
    );
    assert_eq!(
        a.hear(&b, &[1, 0, 0, 0], 0).err().unwrap(),
        "invalid SessionSetup body"
    );
    assert_eq!(
        a.hear(&b, &[2, 0, 0, 0], 0).err().unwrap(),
        "invalid SessionAck body"
    );
    assert_eq!(
        a.hear(&b, &[3, 0, 0, 0], 0).err().unwrap(),
        "invalid SessionMsg3 body"
    );
    assert_eq!(a.hear(&b, &[0; 27], 0).err().unwrap(), "invalid FSP header");
    assert_eq!(
        a.hear(&b, &[0; 28], 0).err().unwrap(),
        "no established session for this source"
    );
    let ack = wire::build_session_ack(&[], &[], &[0; 57]);
    assert_eq!(
        a.hear(&b, &ack, 0).err().unwrap(),
        "no session for this source (unexpected SessionAck)"
    );
    let msg3 = wire::build_session_msg3(&[0; 73]);
    assert_eq!(
        a.hear(&b, &msg3, 0).err().unwrap(),
        "no session for this source (unexpected SessionMsg3)"
    );

    let setup = a.initiate(&b, 0).unwrap();
    assert_eq!(
        a.hear(&b, &msg3, 0).err().unwrap(),
        "received SessionMsg3 but not in AwaitingMsg3 state"
    );
    assert_eq!(
        a.hear(&b, &[0; 28], 0).err().unwrap(),
        "session not in Established state for data"
    );
    b.hear(&a, &setup, 0).unwrap();
    assert_eq!(
        b.hear(&a, &ack, 0).err().unwrap(),
        "received SessionAck but not in Initiating state"
    );
    // A handshake that fails is given up.
    let bad = a.hear(&b, &ack, 0).err().unwrap();
    assert_eq!(bad, "invalid public key: crypto error");
    assert_eq!(
        a.hear(&b, &ack, 0).err().unwrap(),
        "no session for this source (unexpected SessionAck)"
    );
}

#[test]
fn errors_of_sending() {
    let mut a = Side::new(1);
    let b = Side::new(2);
    assert_eq!(
        a.sessions.send_data(&b.addr(), 1, 1, b"x").err().unwrap(),
        "no established session for this destination"
    );
    assert_eq!(
        a.sessions
            .build_session_receiver_report(&b.addr(), 0)
            .err()
            .unwrap(),
        "no session for this destination"
    );
    a.initiate(&b, 0).unwrap();
    assert_eq!(
        a.sessions.send_data(&b.addr(), 1, 1, b"x").err().unwrap(),
        "session not established"
    );
    assert_eq!(
        a.sessions
            .build_session_receiver_report(&b.addr(), 0)
            .err()
            .unwrap(),
        "session not established"
    );
    assert_eq!(
        a.sessions
            .build_encrypted_session_message(&b.addr(), b"x")
            .err()
            .unwrap(),
        "session not established"
    );
}

#[test]
fn sessions_are_listed_and_pruned() {
    let (mut a, b) = established();
    let c = Side::new(3);
    a.initiate(&c, 50_000).unwrap();
    let list = a.sessions.list_sessions_at(61_020);
    assert_eq!(list.len(), 2);
    for info in &list {
        if info.node_addr == b.addr() {
            assert_eq!(info.status, "established");
            assert_eq!((info.idle_secs, info.age_secs), (60, 60));
        } else {
            assert_eq!(info.node_addr, c.addr());
            assert_eq!(info.status, "initiating");
            assert_eq!((info.idle_secs, info.age_secs), (11, 11));
        }
    }
    assert_eq!(a.sessions.list_sessions().len(), 2);

    assert_eq!(a.sessions.prune_idle_at(60_001, 61_020), 0);
    assert_eq!(a.sessions.prune_idle_at(60_000, 61_020), 0);
    assert_eq!(a.sessions.prune_idle_at(59_999, 61_020), 1);
    assert!(!a.sessions.is_established(&b.addr()));
    assert_eq!(a.sessions.list_sessions_at(61_020).len(), 1);
    assert_eq!(a.sessions.prune_idle(0), 1);
    assert!(a.sessions.list_sessions_at(61_020).is_empty());
}

#[test]
fn datagram_envelopes() {
    let mut a = Side::new(1);
    let b = Side::new(2);
    let datagram = a.sessions.wrap_in_datagram(&b.addr(), b"fsp");
    assert_eq!(datagram[0], wire::MSG_TYPE_SESSION_DATAGRAM);
    let (ttl, mtu, src, dest, payload) = wire::parse_session_datagram_body(&datagram[1..]).unwrap();
    assert_eq!((ttl, mtu), (64, 65535));
    assert_eq!((src, dest), (a.addr(), b.addr()));
    assert_eq!(payload, b"fsp");

    a.sessions.update_coords(vec![a.addr(), [9; 16]]);
    let setup = a.initiate(&b, 0).unwrap();
    let (src_coords, dest_coords, _) = wire::parse_session_setup_body(&setup[4..]).unwrap();
    assert_eq!(src_coords, [a.addr(), [9; 16]]);
    assert_eq!(dest_coords, [b.addr()]);
}

#[test]
fn handshakes_by_the_clock() {
    // The variants that read the clock and draw keys do the same.
    let mut a = Side::new(1);
    let mut b = Side::new(2);
    let key = b.id.secret_key().public_key();
    let setup = a
        .sessions
        .initiate(b.addr(), &key, a.epoch, a.id.secret_key())
        .unwrap();
    let got = b
        .sessions
        .process_incoming(a.addr(), &setup, b.epoch, b.id.secret_key())
        .unwrap();
    let acked = a
        .sessions
        .process_incoming(b.addr(), &got.fsp_responses[0], a.epoch, a.id.secret_key())
        .unwrap();
    assert_eq!(acked.remote_npub, Some(b.id.npub()));
}

#[test]
fn many_messages_arrive_in_any_order() {
    let (mut a, mut b) = established();
    let mut packets = Vec::new();
    for i in 0..5u8 {
        packets.push(a.sessions.send_data_at(&b.addr(), 1, 1, &[i], 2_000).unwrap());
    }
    for i in [0usize, 2, 1, 4, 3] {
        let got = b.hear(&a, &packets[i], 2_100).unwrap();
        assert_eq!(got.payload, Some((1, vec![i as u8])));
    }
    for packet in &packets {
        assert!(b.hear(&a, packet, 2_200).unwrap().kind == SessionEventKind::Replay);
    }
    // Hearing from a peer counts as activity.
    assert_eq!(b.sessions.list_sessions_at(5_300)[0].idle_secs, 3);
}

#[test]
fn tampered_packets_do_not_spend_counters() {
    let (mut a, mut b) = established();
    let packet = a.sessions.send_data_at(&b.addr(), 1, 1, b"x", 2_000).unwrap();
    let mut tampered = packet.clone();
    tampered[13] ^= 1;
    assert_eq!(
        b.hear(&a, &tampered, 2_000).err().unwrap(),
        "session decrypt failed: decryption failed"
    );
    assert!(b.hear(&a, &packet, 2_000).unwrap().kind == SessionEventKind::Data);
}

use fips_browser::cipher::CipherState;
use fips_browser::identity::{
    ecdh, normalize_for_premessage, pubkey_from_bytes, Identity, SecretKey,
};
use fips_browser::ipv6;
use fips_browser::node::{epoch_of_draw, FipsNode};
use fips_browser::noise::SymmetricState;
use fips_browser::session::SessionManager;
use fips_browser::tree::parse_tree_announce;
use fips_browser::wire;

/// The far end of a node's link: it answers the IK handshake, opens what the node sends and
/// frames what the node is to receive.
struct Gateway {
    send: CipherState,
    recv: CipherState,
    node_idx: u32,
}

impl Gateway {
    fn link(node: &mut FipsNode, n: u8, now: u64) -> (Gateway, Vec<Vec<u8>>) {
        let us = Identity::from_secret(SecretKey::from_bytes([n; 32]).unwrap());
        let msg1 = node.initiate_handshake(&us.npub()).unwrap();
        assert_eq!(msg1.len(), 114);
        assert!(!node.is_established());
        let node_idx = u32::from_le_bytes([msg1[4], msg1[5], msg1[6], msg1[7]]);
        let message = &msg1[8..];

        let secret = us.secret_key();
        let ephemeral = SecretKey::random();
        let mut s = SymmetricState::initialize(b"Noise_IK_secp256k1_ChaChaPoly_SHA256");
        s.mix_hash(&normalize_for_premessage(&secret.public_key()));
        let e = pubkey_from_bytes(&message[..33]).unwrap();
        s.mix_hash(&message[..33]);
        s.mix_key(&ecdh(secret, &e));
        let remote = s.decrypt_and_hash(&message[33..82]).unwrap();
        s.mix_key(&ecdh(secret, &pubkey_from_bytes(&remote).unwrap()));
        s.decrypt_and_hash(&message[82..]).unwrap();
        let mut reply = ephemeral.public_key().to_bytes().to_vec();
        s.mix_hash(&reply);
        s.mix_key(&ecdh(&ephemeral, &e));
        s.mix_key(&ecdh(secret, &e));
        let field = s.encrypt_and_hash(&[n; 8]).unwrap();
        reply.extend_from_slice(&field);

        let mut msg2 = vec![0x02, 0, 65, 0];
        msg2.extend_from_slice(&77u32.to_le_bytes());
        msg2.extend_from_slice(&node_idx.to_le_bytes());
        msg2.extend_from_slice(&reply);
        let result = node.process_incoming_at(&msg2, now, None).unwrap();
        assert_eq!(result.msg_type, "msg2");
        assert_eq!(
            result.info.unwrap(),
            "Noise IK handshake complete! Link established. Sent TreeAnnounce + FilterAnnounce."
        );
        assert!(node.is_established());
        let (recv, send) = s.split();
        let gateway = Gateway {
            send,
            recv,
            node_idx,
        };
        (gateway, result.responses)
    }

    /// What a frame of the node holds behind its timestamp.
    fn open(&self, frame: &[u8]) -> Vec<u8> {
        let header = wire::EncryptedHeader::parse(frame).unwrap();
        let plain = self
            .recv
            .decrypt_with_counter_and_aad(
                header.ciphertext(frame),
                header.counter,
                &header.header_bytes,
            )
            .unwrap();
        plain[4..].to_vec()
    }

    fn frame(&mut self, inner: &[u8]) -> Vec<u8> {
        let mut plain = 123u32.to_le_bytes().to_vec();
        plain.extend_from_slice(inner);
        let header = wire::build_established_header(
            0,
            plain.len() as u16,
            self.node_idx,
            self.send.nonce(),
        );
        let ciphertext = self.send.encrypt_with_aad(&plain, &header).unwrap();
        let mut frame = header.to_vec();
        frame.extend_from_slice(&ciphertext);
        frame
    }
}

struct Linked {
    node: FipsNode,
    gateway: Gateway,
}

fn linked(n: u8) -> Linked {
    let mut node = FipsNode::new();
    let (gateway, _) = Gateway::link(&mut node, n, 1_000);
    Linked { node, gateway }
}

/// Carries a frame of one node to another, and returns what comes of it.
fn carry(
    frame: &[u8],
    from: &Linked,
    to: &mut Linked,
    now: u64,
) -> fips_browser::node::ProcessResult {
    let inner = from.gateway.open(frame);
    let forwarded = to.gateway.frame(&inner);
    to.node.process_incoming_at(&forwarded, now, None).unwrap()
}

fn in_session() -> (Linked, Linked) {
    let mut a = linked(101);
    let mut b = linked(102);
    let b_npub = b.node.npub();
    let setup = a.node.connect_session_at(&b_npub, 2_000, None).unwrap();
    let got = carry(&setup, &a, &mut b, 2_000);
    assert_eq!(got.msg_type, "session");
    let acked = carry(&got.responses[0], &b, &mut a, 2_000);
    assert_eq!(acked.session_peer_npub, Some(b.node.npub()));
    let done = carry(&acked.responses[0], &a, &mut b, 2_000);
    assert_eq!(done.session_peer_npub, Some(a.node.npub()));
    assert!(a.node.is_session_established(&b.node.npub()));
    assert!(b.node.is_session_established(&a.node.npub()));
    (a, b)
}

#[test]
fn nodes_and_their_names() {
    let node = FipsNode::from_nsec(
        "0102030405060708090a0b0c0d0e0f101112131415161718191a1b1c1d1e1f20",
    )
    .unwrap();
    assert_eq!(
        node.npub(),
        "npub1sjlh2c3x9w7kjsqg2ay080n2lff2uvt325vpan33ke34rn8l5jcqawh57m"
    );
    assert_eq!(node.node_addr_hex(), "69e08d65cc3a6b9c2c2ac4bd405e4b0e");
    let resolved = node.resolve_fips_name(&format!("{}.fips", node.npub())).unwrap();
    assert_eq!(resolved.node_addr_hex, node.node_addr_hex());
    assert!(node.resolve_fips_name("nowhere").is_err());
    assert!(FipsNode::from_nsec("nsec1").is_err());
    assert!(!node.is_established());
    assert!(!node.is_session_established("not an npub"));
}

#[test]
fn a_link_announces_itself() {
    let mut node = FipsNode::new();
    let (gateway, responses) = Gateway::link(&mut node, 100, 1_700_000_000_000);
    assert_eq!(responses.len(), 2);
    assert_eq!(responses[0][4..8], 77u32.to_le_bytes());
    let tree = gateway.open(&responses[0]);
    assert_eq!(tree[0], wire::MSG_TYPE_TREE_ANNOUNCE);
    let announce = parse_tree_announce(&tree[1..]).unwrap();
    assert_eq!(hex::encode(announce.parent), node.node_addr_hex());
    assert_eq!(announce.ancestry[0].sequence, 1);
    assert_eq!(announce.ancestry[0].timestamp, 1_700_000_000);
    let filter = gateway.open(&responses[1]);
    assert_eq!(filter[0], wire::MSG_TYPE_FILTER_ANNOUNCE);
    assert_eq!(filter.len(), 1035);
}

#[test]
fn link_messages() {
    let mut l = linked(103);
    let frame = l.gateway.frame(&[wire::MSG_TYPE_TREE_ANNOUNCE, 1, 2, 3]);
    let r = l.node.process_incoming(&frame).unwrap();
    assert_eq!(r.msg_type, "tree_announce");
    assert_eq!(r.info.unwrap(), "TreeAnnounce received (3 bytes)");

    let again = l.node.process_incoming(&frame).unwrap();
    assert_eq!(again.msg_type, "replay");
    assert_eq!(again.info.unwrap(), "Replay detected: counter 0");

    let frame = l.gateway.frame(&[wire::MSG_TYPE_FILTER_ANNOUNCE]);
    let r = l.node.process_incoming(&frame).unwrap();
    assert_eq!(r.msg_type, "filter_announce");
    assert_eq!(r.info.unwrap(), "FilterAnnounce received (0 bytes)");

    let frame = l.gateway.frame(&[wire::MSG_TYPE_SENDER_REPORT, 9]);
    let size = frame.len() as u64;
    let r = l.node.process_incoming(&frame).unwrap();
    assert_eq!(r.msg_type, "sender_report");
    assert_eq!(r.info.unwrap(), "SenderReport received, sent ReceiverReport");
    let report = l.gateway.open(&r.responses[0]);
    assert_eq!(report.len(), 68);
    assert_eq!(report[0], wire::MSG_TYPE_RECEIVER_REPORT);
    assert_eq!(report[4..12], 2u64.to_le_bytes());
    assert_eq!(report[12..20], 3u64.to_le_bytes());
    assert!(u64::from_le_bytes(report[20..28].try_into().unwrap()) > size);
    assert_eq!(report[28..32], 123u32.to_le_bytes());

    let frame = l.gateway.frame(&[wire::MSG_TYPE_RECEIVER_REPORT]);
    let r = l.node.process_incoming(&frame).unwrap();
    assert_eq!((r.msg_type.as_str(), r.info), ("receiver_report", None));
    let frame = l.gateway.frame(&[wire::MSG_TYPE_HEARTBEAT]);
    let r = l.node.process_incoming(&frame).unwrap();
    assert_eq!((r.msg_type.as_str(), r.info), ("heartbeat", None));
    let frame = l.gateway.frame(&[wire::MSG_TYPE_DISCONNECT]);
    let r = l.node.process_incoming(&frame).unwrap();
    assert_eq!(r.msg_type, "disconnect");
    assert_eq!(r.info.unwrap(), "Disconnect received");
    let frame = l.gateway.frame(&[0x07, 8, 9]);
    let r = l.node.process_incoming(&frame).unwrap();
    assert_eq!(r.msg_type, "link_msg_0x07");
    assert_eq!(r.info.unwrap(), "Unknown link message type: 0x07");
    assert_eq!(r.payload.unwrap(), [8, 9]);
    let frame = l.gateway.frame(&[]);
    let r = l.node.process_incoming(&frame).unwrap();
    assert_eq!(r.msg_type, "data_short");
    assert_eq!(r.payload.unwrap(), 123u32.to_le_bytes());
}

#[test]
fn errors_of_a_link() {
    let mut node = FipsNode::new();
    assert_eq!(
        node.process_incoming(&[0; 3]).err().unwrap(),
        "packet too short"
    );
    assert_eq!(node.process_incoming(&[0; 32]).err().unwrap(), "no active link");
    assert_eq!(
        node.process_incoming(&[2; 68]).err().unwrap(),
        "invalid msg2 packet"
    );
    assert_eq!(
        node.process_incoming(&[2; 69]).err().unwrap(),
        "no handshake in progress"
    );
    let r = node.process_incoming(&[0x0b, 0, 0, 0]).unwrap();
    assert_eq!(r.msg_type, "unknown_phase_11");
    assert_eq!(r.info.unwrap(), "Unknown FMP phase: 0xb");

    let peer = Identity::generate();
    node.initiate_handshake(&peer.npub()).unwrap();
    assert_eq!(
        node.process_incoming(&[0; 32]).err().unwrap(),
        "received encrypted frame but handshake not complete"
    );
    assert!(node.initiate_handshake("npub1").is_err());

    let mut l = linked(104);
    assert_eq!(
        l.node.process_incoming(&[0; 31]).err().unwrap(),
        "invalid encrypted frame"
    );
    assert_eq!(
        l.node.process_incoming(&[0; 32]).err().unwrap(),
        "decryption failed"
    );
    assert_eq!(
        l.node.process_incoming(&[2; 69]).err().unwrap(),
        "received msg2 but not in handshaking state"
    );
    assert!(l.node.is_established());
}

#[test]
fn chat_arrives() {
    let (mut a, mut b) = in_session();
    let sent = a
        .node
        .send_message_at(&b.node.npub(), "h\u{e9}llo", 3_000)
        .unwrap();
    let got = carry(&sent, &a, &mut b, 3_000);
    assert_eq!(got.msg_type, "session_chat");
    assert_eq!(got.payload.unwrap(), "h\u{e9}llo".as_bytes());
    assert_eq!(
        got.info.unwrap(),
        format!("Chat from {}: h\u{e9}llo", &a.node.node_addr_hex()[..8])
    );
    assert!(got.responses.is_empty());
}

#[test]
fn pings_are_answered_and_timed() {
    let (mut a, mut b) = in_session();
    let ping = a.node.send_ping_at(&b.node.npub(), 3_000).unwrap();
    let asked = carry(&ping, &a, &mut b, 3_010);
    let a_ip = ipv6_text(&a);
    let b_ip = ipv6_text(&b);
    assert_eq!(asked.msg_type, "ping_request");
    assert_eq!(
        asked.info.unwrap(),
        format!("ICMPv6 Echo Request from {a_ip} seq=1, sent Echo Reply")
    );
    let answered = carry(&asked.responses[0], &b, &mut a, 3_042);
    assert_eq!(answered.msg_type, "ping_reply");
    assert_eq!(
        answered.info.unwrap(),
        format!("ICMPv6 Echo Reply from {b_ip} seq=1 rtt=42ms")
    );
    let packet = answered.payload.unwrap();
    assert_eq!(ipv6::parse_icmpv6_echo_reply(&packet), Some((0xf105, 1)));

    // A reply that nobody waits for has no time.
    let reply = b.node.send_ipv6_at(&a.node.npub(), &packet, 4_000).unwrap();
    let late = carry(&reply, &b, &mut a, 4_000);
    assert_eq!(
        late.info.unwrap(),
        format!("ICMPv6 Echo Reply from {b_ip} seq=1")
    );

    let second = a.node.send_ping(&b.node.npub()).unwrap();
    let asked = carry(&second, &a, &mut b, 5_000);
    assert!(asked.info.unwrap().contains("seq=2"));
}

fn ipv6_text(l: &Linked) -> String {
    l.node
        .resolve_fips_name(&format!("{}.fips", l.node.npub()))
        .unwrap()
        .ipv6
}

#[test]
fn raw_packets_pass_through() {
    let (mut a, mut b) = in_session();
    b.node.set_ipv6_passthrough(true);
    let ping = a.node.send_ping_at(&b.node.npub(), 3_000).unwrap();
    let got = carry(&ping, &a, &mut b, 3_000);
    assert_eq!(got.msg_type, "session_ipv6");
    assert_eq!(
        got.info.unwrap(),
        format!("IPv6 shim packet from {}", ipv6_text(&a))
    );
    assert!(got.responses.is_empty());
    let mut packet = got.payload.unwrap();

    b.node.set_ipv6_passthrough(false);
    packet[6] = 17;
    let raw = a.node.send_ipv6(&b.node.npub(), &packet).unwrap();
    let got = carry(&raw, &a, &mut b, 3_000);
    assert_eq!(got.msg_type, "session_ipv6");
    assert_eq!(got.payload.unwrap(), packet);
    assert_eq!(
        a.node.send_ipv6(&b.node.npub(), &[0x40; 40]).err().unwrap(),
        "IPv6 shim compression failed"
    );
}

#[test]
fn keepalives() {
    let (mut a, mut b) = in_session();
    let sent = a.node.send_keepalive_at(&b.node.npub(), 3_000).unwrap();
    let got = carry(&sent, &a, &mut b, 3_000);
    assert_eq!(got.msg_type, "session_port_0");
    assert_eq!(got.payload.unwrap(), Vec::<u8>::new());
    assert!(a.node.send_keepalive(&b.node.npub()).is_ok());
}

#[test]
fn errors_of_sessions() {
    let (mut a, mut b) = in_session();
    let own = a.node.npub();
    let other = Identity::generate().npub();
    assert_eq!(
        a.node.connect_session(&b.node.npub()).err().unwrap(),
        "session already established for this destination"
    );
    assert_eq!(
        a.node.connect_session(&own).err().unwrap(),
        "cannot start a session to self"
    );
    assert_eq!(
        a.node.send_message(&own, "x").err().unwrap(),
        "cannot send a session message to self"
    );
    assert_eq!(
        a.node.send_ping(&own).err().unwrap(),
        "cannot send an IPv6 ping to self through a session"
    );
    assert_eq!(
        a.node.send_ipv6(&own, &[]).err().unwrap(),
        "cannot send raw IPv6 to self through a session"
    );
    assert_eq!(
        a.node.send_message(&other, "x").err().unwrap(),
        "no established session for this destination"
    );
    assert_eq!(
        a.node.send_keepalive(&other).err().unwrap(),
        "no established session for this destination"
    );
    assert!(a.node.send_message("bogus", "x").is_err());

    // A node without a link can open a session, but not send it.
    let mut alone = FipsNode::new();
    assert_eq!(
        alone.connect_session(&other).err().unwrap(),
        "no active link"
    );

    // Datagrams for others are not ours to open.
    let mut datagram = vec![wire::MSG_TYPE_SESSION_DATAGRAM];
    datagram.extend_from_slice(&wire::build_session_datagram_body(
        5, 1400, &[1; 16], &[2; 16], b"payload",
    ));
    let frame = b.gateway.frame(&datagram);
    let got = b.node.process_incoming(&frame).unwrap();
    assert_eq!(got.msg_type, "session_datagram_forward");
    assert_eq!(
        got.info.unwrap(),
        "SessionDatagram not for us (dest=02020202020202020202020202020202, ttl=5)"
    );
    let frame = b.gateway.frame(&[wire::MSG_TYPE_SESSION_DATAGRAM, 1]);
    assert_eq!(
        b.node.process_incoming(&frame).err().unwrap(),
        "invalid SessionDatagram (too short)"
    );
}

#[test]
fn handshakes_with_given_keys_repeat() {
    let id = || Identity::from_secret(SecretKey::from_bytes([5; 32]).unwrap());
    let peer = Identity::from_secret(SecretKey::from_bytes([6; 32]).unwrap()).npub();
    let ephemeral = SecretKey::from_bytes([7; 32]).unwrap();
    let mut one = FipsNode::with_identity(id(), [1; 8]);
    let mut two = FipsNode::with_identity(id(), [1; 8]);
    let a = one.initiate_handshake_with(&peer, [2; 8], 9, ephemeral).unwrap();
    let b = two.initiate_handshake_with(&peer, [2; 8], 9, ephemeral).unwrap();
    assert_eq!(a, b);
    assert_eq!(a[..8], [1, 0, 110, 0, 9, 0, 0, 0]);
    let c = two.initiate_handshake_with(&peer, [3; 8], 9, ephemeral).unwrap();
    assert_ne!(a, c);
}

#[test]
fn handshakes_hand_on_a_failed_draw() {
    let id = || Identity::from_secret(SecretKey::from_bytes([5; 32]).unwrap());
    let peer = Identity::from_secret(SecretKey::from_bytes([6; 32]).unwrap()).npub();
    let ephemeral = SecretKey::from_bytes([7; 32]).unwrap();
    let failed = |text: &str| Err::<Vec<u8>, String>(text.to_string());
    let mut node = FipsNode::with_identity(id(), [1; 8]);

    // The npub comes first, then the epoch, then the index; the link stays what it was.
    let bad_npub = node.initiate_handshake("npub1").err().unwrap();
    let r = node.initiate_handshake_drawn("npub1", failed("e"), failed("i"), None);
    assert_eq!(r.err().unwrap(), bad_npub);
    let r = node.initiate_handshake_drawn(&peer, failed("e"), failed("i"), None);
    assert_eq!(r.err().unwrap(), "e");
    let r = node.initiate_handshake_drawn(&peer, Ok(vec![2; 8]), failed("i"), Some(ephemeral));
    assert_eq!(r.err().unwrap(), "i");
    assert_eq!(
        node.process_incoming(&[2; 69]).err().unwrap(),
        "no handshake in progress"
    );

    let mut other = FipsNode::with_identity(id(), [1; 8]);
    let given = other.initiate_handshake_with(&peer, [2; 8], 0x0403_0201, ephemeral).unwrap();
    let idx = vec![1, 2, 3, 4];
    let drawn = node.initiate_handshake_drawn(&peer, Ok(vec![2; 8]), Ok(idx), Some(ephemeral));
    assert_eq!(drawn.unwrap(), given);
    let fresh = node.initiate_handshake_drawn(&peer, Ok(vec![2; 8]), Ok(vec![0; 4]), None);
    assert_eq!(fresh.unwrap().len(), 114);
}

#[test]
fn text_that_is_not_utf8_is_shown_with_replacements() {
    let mut l = linked(105);
    let name = l.node.npub();
    let node_key = fips_browser::identity::pubkey_from_x_only(
        &fips_browser::identity::decode_npub(&name).unwrap(),
    )
    .unwrap();
    let node_addr = fips_browser::identity::node_addr_from_x_only(&node_key.x_only());
    let peer = Identity::generate();
    let mut sessions = SessionManager::new(*peer.node_addr());
    let mut carry_in = |sessions: &SessionManager, l: &mut Linked, fsp: &[u8]| {
        let frame = l.gateway.frame(&sessions.wrap_in_datagram(&node_addr, fsp));
        l.node.process_incoming_at(&frame, 1_000, None).unwrap()
    };
    let fsp_of = |l: &Linked, frame: &[u8]| {
        let inner = l.gateway.open(frame);
        let (_, _, _, _, fsp) = wire::parse_session_datagram_body(&inner[1..]).unwrap();
        fsp.to_vec()
    };

    let setup = sessions
        .initiate(node_addr, &node_key, [1; 8], peer.secret_key())
        .unwrap();
    let got = carry_in(&sessions, &mut l, &setup);
    let ack = fsp_of(&l, &got.responses[0]);
    let event = sessions
        .process_incoming(node_addr, &ack, [1; 8], peer.secret_key())
        .unwrap();
    let done = carry_in(&sessions, &mut l, &event.fsp_responses[0]);
    assert_eq!(done.session_peer_npub, Some(peer.npub()));

    let chat = sessions
        .send_data(&node_addr, 1, wire::FSP_PORT_CHAT, &[b'a', 0xff, b'b'])
        .unwrap();
    let got = carry_in(&sessions, &mut l, &chat);
    assert_eq!(got.msg_type, "session_chat");
    assert!(got.info.unwrap().ends_with(": a\u{fffd}b"));

    let bad = sessions
        .send_data(&node_addr, 256, wire::FSP_PORT_IPV6_SHIM, &[9, 9])
        .unwrap();
    let got = carry_in(&sessions, &mut l, &bad);
    assert_eq!(got.msg_type, "session_ipv6_bad");
    assert_eq!(got.info.unwrap(), "Failed to decompress IPv6 shim packet");
    assert_eq!(got.payload.unwrap(), [9, 9]);

    let report = sessions
        .build_encrypted_session_message(&node_addr, &[wire::MSG_TYPE_SENDER_REPORT, 0])
        .unwrap();
    let got = carry_in(&sessions, &mut l, &report);
    assert_eq!(got.msg_type, "session_sender_report");
    let answer = fsp_of(&l, &got.responses[0]);
    let event = sessions
        .process_incoming(node_addr, &answer, [1; 8], peer.secret_key())
        .unwrap();
    assert_eq!(event.info, "Session ReceiverReport received");

    let back = sessions
        .build_encrypted_session_message(&node_addr, &[wire::MSG_TYPE_RECEIVER_REPORT, 0])
        .unwrap();
    let got = carry_in(&sessions, &mut l, &back);
    assert_eq!(got.msg_type, "session_receiver_report");

    // Whatever came in, the node is who it was.
    assert_eq!(l.node.npub(), name);
}

#[test]
fn tampered_frames_do_not_spend_counters() {
    let mut l = linked(106);
    let frame = l.gateway.frame(&[wire::MSG_TYPE_HEARTBEAT]);
    let mut tampered = frame.clone();
    tampered[20] ^= 1;
    assert_eq!(
        l.node.process_incoming(&tampered).err().unwrap(),
        "decryption failed"
    );
    assert_eq!(l.node.process_incoming(&frame).unwrap().msg_type, "heartbeat");
    assert_eq!(l.node.process_incoming(&frame).unwrap().msg_type, "replay");
}

#[test]
fn epochs_are_what_was_drawn() {
    let drawn = vec![1, 2, 3, 4, 5, 6, 7, 8];
    assert_eq!(epoch_of_draw(Ok(drawn)), [1, 2, 3, 4, 5, 6, 7, 8]);
    assert_eq!(epoch_of_draw(Err("no randomness".to_string())), [0; 8]);
}

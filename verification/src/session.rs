//! Session manager: Noise XK sessions with FSP encryption.
//!
//! Manages end-to-end encrypted sessions between this browser node and remote FIPS nodes. Each
//! session goes through a 3-message Noise XK handshake (routed by SessionDatagram through the
//! mesh), then uses ChaCha20-Poly1305 for data encryption.

use crate::bytes;
use crate::cipher;
use crate::cipher::{CipherModel, CipherState};
use crate::crypto;
use crate::identity;
use crate::identity::{PublicKey, SecretKey};
use crate::mmp;
use crate::mmp::{ReceiverModel, ReceiverState};
use crate::noise;
use crate::noise_xk;
use crate::noise_xk::{HandshakeXK, XkModel};
use crate::replay;
use crate::replay::{ReplayModel, ReplayWindow};
use crate::text;
use crate::wire;
use crate::wire::DatagramModel;
use std::collections::HashMap;
use vstd::prelude::*;
use vstd::slice::slice_subrange;

verus! {

/// Default TTL for SessionDatagrams.
pub const DEFAULT_TTL: u8 = 64;

/// Default path MTU for SessionDatagrams.
pub const DEFAULT_PATH_MTU: u16 = 65535;

// ============================================================================
// Model
// ============================================================================

/// A session in one of its lifecycle states.
#[verifier::ext_equal]
pub enum PhaseModel {
    /// Initiator: sent msg1, waiting for msg2 (SessionAck).
    Initiating(XkModel),
    /// Responder: sent msg2, waiting for msg3 (SessionMsg3).
    AwaitingMsg3(XkModel),
    /// Handshake complete, data can flow.
    Established {
        send: CipherModel,
        recv: CipherModel,
        replay: ReplayModel,
        receiver: ReceiverModel,
    },
}

/// A session with its lifecycle state and its times.
#[verifier::ext_equal]
pub struct SessionModel {
    pub phase: PhaseModel,
    pub created_at: nat,
    pub last_activity: nat,
}

/// All sessions of a node, by the key of the remote address, with the node's own coordinates and
/// address.
#[verifier::ext_equal]
pub struct SessionsModel {
    pub sessions: Map<u128, SessionModel>,
    pub coords: Seq<Seq<u8>>,
    pub addr: Seq<u8>,
}

/// What kind of session event occurred.
#[derive(Clone, Copy, PartialEq, Eq, Structural)]
pub enum SessionEventKind {
    Setup,
    Ack,
    Msg3,
    SenderReport,
    ReceiverReport,
    Data,
    Other,
    Replay,
}

/// What comes of an incoming session payload.
#[verifier::ext_equal]
pub struct EventModel {
    pub fsp_responses: Seq<Seq<u8>>,
    pub info: Seq<char>,
    pub remote_npub: Option<Seq<char>>,
    pub payload: Option<(nat, Seq<u8>)>,
    pub from: Seq<u8>,
    pub kind: SessionEventKind,
}

/// The key of an address: its 16 bytes as a big-endian number.
pub open spec fn addr_key(addr: Seq<u8>) -> u128 {
    bytes::be_value(addr) as u128
}

/// Different addresses have different keys, and a key gives its address back.
pub proof fn law_addr_keys(a: Seq<u8>, b: Seq<u8>)
    requires
        a.len() == 16,
        b.len() == 16,
    ensures
        addr_key(a) == addr_key(b) ==> a == b,
        bytes::be_bytes(addr_key(a) as nat, 16) == a,
        addr_key(a) == bytes::be_value(a),
{
    lemma_key_fits(a);
    lemma_key_fits(b);
    bytes::lemma_be_bytes_of_value(a);
    bytes::lemma_be_bytes_of_value(b);
}

proof fn lemma_key_fits(a: Seq<u8>)
    requires
        a.len() == 16,
    ensures
        bytes::be_value(a) <= u128::MAX,
{
    bytes::lemma_be_value_bound(a);
    reveal_with_fuel(bytes::pow256, 17);
}

/// A session that starts now.
pub open spec fn session_new(phase: PhaseModel, now: nat) -> SessionModel {
    SessionModel { phase, created_at: now, last_activity: now }
}

/// A session after activity.
pub open spec fn session_touched(s: SessionModel, now: nat) -> SessionModel {
    SessionModel { last_activity: now, ..s }
}

/// Milliseconds since the last activity.
pub open spec fn idle_ms(s: SessionModel, now: nat) -> nat {
    if now > s.last_activity {
        (now - s.last_activity) as nat
    } else {
        0
    }
}

/// Milliseconds since the session was created.
pub open spec fn age_ms(s: SessionModel, now: nat) -> nat {
    if now > s.created_at {
        (now - s.created_at) as nat
    } else {
        0
    }
}

/// A phase as the user sees it.
pub open spec fn status_text(phase: PhaseModel) -> Seq<char> {
    match phase {
        PhaseModel::Initiating(_) => "initiating"@,
        PhaseModel::AwaitingMsg3(_) => "awaiting_msg3"@,
        PhaseModel::Established { .. } => "established"@,
    }
}

/// The sessions with one of them put in place.
pub open spec fn with_session(m: SessionsModel, addr: Seq<u8>, s: SessionModel) -> SessionsModel {
    SessionsModel { sessions: m.sessions.insert(addr_key(addr), s), ..m }
}

/// The sessions without one of them.
pub open spec fn without_session(m: SessionsModel, addr: Seq<u8>) -> SessionsModel {
    SessionsModel { sessions: m.sessions.remove(addr_key(addr)), ..m }
}

/// Whether there is a session with an address.
pub open spec fn has_session(m: SessionsModel, addr: Seq<u8>) -> bool {
    m.sessions.contains_key(addr_key(addr))
}

/// The session with an address.
pub open spec fn session_with(m: SessionsModel, addr: Seq<u8>) -> SessionModel {
    m.sessions[addr_key(addr)]
}

/// Whether there is an established session with an address.
pub open spec fn established_with(m: SessionsModel, addr: Seq<u8>) -> bool {
    has_session(m, addr) && session_with(m, addr).phase is Established
}

/// An event that brings nothing but its kind and its description.
pub open spec fn plain_event(from: Seq<u8>, kind: SessionEventKind, info: Seq<char>) -> EventModel {
    EventModel {
        fsp_responses: Seq::empty(),
        info,
        remote_npub: None,
        payload: None,
        from,
        kind,
    }
}

/// Starting a session with a node, with a given ephemeral key.
pub open spec fn sessions_initiate(
    m: SessionsModel,
    dest: Seq<u8>,
    dest_key: Seq<u8>,
    epoch: Seq<u8>,
    secret: Seq<u8>,
    ephemeral: Seq<u8>,
    now: nat,
) -> (SessionsModel, Result<Seq<u8>, Seq<char>>) {
    if established_with(m, dest) {
        (m, Err("session already established for this destination"@))
    } else if has_session(m, dest) {
        (m, Err("session handshake already in progress for this destination"@))
    } else {
        let (hs, msg1) = noise_xk::xk_write_msg1(
            noise_xk::xk_initiator(secret, dest_key, epoch),
            ephemeral,
        );
        (
            with_session(m, dest, session_new(PhaseModel::Initiating(hs), now)),
            Ok(
                wire::session_message(
                    wire::FSP_PHASE_SETUP,
                    wire::setup_body(m.coords, seq![dest], msg1->Ok_0),
                ),
            ),
        )
    }
}

/// A SessionSetup: we are the responder. A session that was there is replaced.
pub open spec fn sessions_setup(
    m: SessionsModel,
    src: Seq<u8>,
    body: Seq<u8>,
    epoch: Seq<u8>,
    secret: Seq<u8>,
    ephemeral: Seq<u8>,
    now: nat,
) -> (SessionsModel, Result<EventModel, Seq<char>>) {
    match wire::parsed_setup(body) {
        None => (m, Err("invalid SessionSetup body"@)),
        Some((_, _, handshake)) => {
            let (heard, read) = noise_xk::xk_read_msg1(
                noise_xk::xk_responder(secret, epoch),
                handshake,
            );
            match read {
                Err(e) => (m, Err(e)),
                Ok(_) => {
                    let (hs, msg2) = noise_xk::xk_write_msg2(heard, ephemeral);
                    let ack = wire::session_message(
                        wire::FSP_PHASE_ACK,
                        wire::setup_body(m.coords, seq![src], msg2->Ok_0),
                    );
                    (
                        with_session(m, src, session_new(PhaseModel::AwaitingMsg3(hs), now)),
                        Ok(
                            EventModel {
                                fsp_responses: seq![ack],
                                ..plain_event(
                                    src,
                                    SessionEventKind::Setup,
                                    "SessionSetup received, sent SessionAck (XK msg2)"@,
                                )
                            },
                        ),
                    )
                },
            }
        },
    }
}

/// An established session from what a handshake hands out.
pub open spec fn session_established(
    transport: (CipherModel, CipherModel, Seq<u8>),
    now: nat,
) -> SessionModel {
    session_new(
        PhaseModel::Established {
            send: transport.0,
            recv: transport.1,
            replay: replay::replay_empty(),
            receiver: mmp::receiver_new(),
        },
        now,
    )
}

/// A SessionAck: we are the initiator, and answer with the last handshake message. If the answer
/// is bad, the session is gone.
pub open spec fn sessions_ack(m: SessionsModel, src: Seq<u8>, body: Seq<u8>, now: nat) -> (
    SessionsModel,
    Result<EventModel, Seq<char>>,
) {
    match wire::parsed_setup(body) {
        None => (m, Err("invalid SessionAck body"@)),
        Some((_, _, handshake)) => if !has_session(m, src) {
            (m, Err("no session for this source (unexpected SessionAck)"@))
        } else {
            match session_with(m, src).phase {
                PhaseModel::Initiating(hs) => {
                    let (heard, read) = noise_xk::xk_read_msg2(hs, handshake);
                    match read {
                        Err(e) => (without_session(m, src), Err(e)),
                        Ok(_) => {
                            let (done, msg3) = noise_xk::xk_write_msg3(heard);
                            let transport = noise_xk::xk_transport(done)->Ok_0;
                            let reply = wire::session_message(
                                wire::FSP_PHASE_MSG3,
                                wire::msg3_body(msg3->Ok_0),
                            );
                            (
                                with_session(m, src, session_established(transport, now)),
                                Ok(
                                    EventModel {
                                        fsp_responses: seq![reply],
                                        remote_npub: Some(
                                            identity::npub_of(identity::x_only(transport.2)),
                                        ),
                                        ..plain_event(
                                            src,
                                            SessionEventKind::Ack,
                                            "SessionAck received, sent msg3. Session ESTABLISHED!"@,
                                        )
                                    },
                                ),
                            )
                        },
                    }
                },
                _ => (m, Err("received SessionAck but not in Initiating state"@)),
            }
        },
    }
}

/// A SessionMsg3: we are the responder, and the session is established. If the message is bad,
/// the session is gone.
pub open spec fn sessions_msg3(m: SessionsModel, src: Seq<u8>, body: Seq<u8>, now: nat) -> (
    SessionsModel,
    Result<EventModel, Seq<char>>,
) {
    match wire::parsed_msg3(body) {
        None => (m, Err("invalid SessionMsg3 body"@)),
        Some(handshake) => if !has_session(m, src) {
            (m, Err("no session for this source (unexpected SessionMsg3)"@))
        } else {
            match session_with(m, src).phase {
                PhaseModel::AwaitingMsg3(hs) => {
                    let (done, read) = noise_xk::xk_read_msg3(hs, handshake);
                    match read {
                        Err(e) => (without_session(m, src), Err(e)),
                        Ok(_) => {
                            let transport = noise_xk::xk_transport(done)->Ok_0;
                            (
                                with_session(m, src, session_established(transport, now)),
                                Ok(
                                    EventModel {
                                        remote_npub: Some(
                                            identity::npub_of(identity::x_only(transport.2)),
                                        ),
                                        ..plain_event(
                                            src,
                                            SessionEventKind::Msg3,
                                            "SessionMsg3 received. Session ESTABLISHED!"@,
                                        )
                                    },
                                ),
                            )
                        },
                    }
                },
                _ => (m, Err("received SessionMsg3 but not in AwaitingMsg3 state"@)),
            }
        },
    }
}

/// Where the ciphertext of session data starts: behind the header, and behind the coordinates if
/// the lowest flag says that they are there.
pub open spec fn data_offset(fsp_payload: Seq<u8>) -> Result<int, Seq<char>> {
    if fsp_payload[1] % 2 == 0 {
        Ok(12)
    } else {
        match wire::parsed_coords(fsp_payload, 12) {
            None => Err("invalid src coords in CP"@),
            Some((_, p)) => match wire::parsed_coords(fsp_payload, p) {
                None => Err("invalid dest coords in CP"@),
                Some((_, q)) => Ok(q),
            },
        }
    }
}

/// What a decrypted session message of `size` bytes on the wire says.
pub open spec fn message_event(src: Seq<u8>, plaintext: Seq<u8>) -> Result<EventModel, Seq<char>> {
    let kind = plaintext[4];
    if kind == wire::FSP_MSG_TYPE_DATA {
        if plaintext.len() < 10 {
            Err("DataPacket too short for port header"@)
        } else {
            let src_port = bytes::le_value(plaintext.subrange(6, 8));
            let dst_port = bytes::le_value(plaintext.subrange(8, 10));
            let data = plaintext.skip(10);
            Ok(
                EventModel {
                    payload: Some((dst_port, data)),
                    ..plain_event(
                        src,
                        SessionEventKind::Data,
                        "Session data: src_port="@ + text::decimal(src_port) + " dst_port="@
                            + text::decimal(dst_port) + " "@ + text::decimal(data.len())
                            + " bytes"@,
                    )
                },
            )
        }
    } else if kind == wire::MSG_TYPE_SENDER_REPORT {
        Ok(
            plain_event(src, SessionEventKind::SenderReport, "Session SenderReport received"@),
        )
    } else if kind == wire::MSG_TYPE_RECEIVER_REPORT {
        Ok(
            plain_event(
                src,
                SessionEventKind::ReceiverReport,
                "Session ReceiverReport received"@,
            ),
        )
    } else {
        Ok(
            plain_event(
                src,
                SessionEventKind::Other,
                "Session msg_type 0x"@ + text::hex_byte(kind) + " ("@ + text::decimal(
                    plaintext.len(),
                ) + " bytes)"@,
            ),
        )
    }
}

/// Encrypted data on an established session: refused as a replay, refused as undecryptable, or
/// accepted, counted and read.
pub open spec fn established_data(
    s: SessionModel,
    src: Seq<u8>,
    fsp_payload: Seq<u8>,
    offset: int,
    now: nat,
) -> (SessionModel, Result<EventModel, Seq<char>>) {
    let counter = wire::fsp_counter_of(fsp_payload);
    match s.phase {
        PhaseModel::Established { send, recv, replay, receiver } => if !replay::replay_passes(
            replay,
            counter,
        ) {
            (
                s,
                Ok(
                    plain_event(
                        src,
                        SessionEventKind::Replay,
                        "Session replay detected: counter "@ + text::decimal(counter),
                    ),
                ),
            )
        } else {
            match cipher::cipher_opened_at(
                recv,
                counter,
                fsp_payload.take(12),
                fsp_payload.skip(offset),
            ) {
                Err(e) => (s, Err("session decrypt failed: "@ + e)),
                Ok(plaintext) => {
                    let accepted = replay::replay_accepted(replay, counter);
                    if plaintext.len() < wire::FSP_INNER_HEADER_SIZE {
                        (
                            SessionModel {
                                phase: PhaseModel::Established {
                                    send,
                                    recv,
                                    replay: accepted,
                                    receiver,
                                },
                                ..s
                            },
                            Err("FSP inner header too short"@),
                        )
                    } else {
                        let recorded = mmp::receiver_recorded(
                            receiver,
                            counter,
                            bytes::le_value(plaintext.take(4)),
                            fsp_payload.len(),
                            now,
                        );
                        (
                            SessionModel {
                                phase: PhaseModel::Established {
                                    send,
                                    recv,
                                    replay: accepted,
                                    receiver: recorded,
                                },
                                ..s
                            },
                            message_event(src, plaintext),
                        )
                    }
                },
            }
        },
        _ => (s, Err("session not in Established state for data"@)),
    }
}

/// Encrypted session data from a node. Whatever comes of it, the session counts as active.
pub open spec fn sessions_data(m: SessionsModel, src: Seq<u8>, fsp_payload: Seq<u8>, now: nat) -> (
    SessionsModel,
    Result<EventModel, Seq<char>>,
) {
    if !wire::has_fsp_header(fsp_payload) {
        (m, Err("invalid FSP header"@))
    } else {
        match data_offset(fsp_payload) {
            Err(e) => (m, Err(e)),
            Ok(offset) => if !has_session(m, src) {
                (m, Err("no established session for this source"@))
            } else {
                let (after, result) = established_data(
                    session_touched(session_with(m, src), now),
                    src,
                    fsp_payload,
                    offset,
                    now,
                );
                (with_session(m, src, after), result)
            },
        }
    }
}

/// An incoming session payload, told apart by its phase.
pub open spec fn sessions_incoming(
    m: SessionsModel,
    src: Seq<u8>,
    fsp_payload: Seq<u8>,
    epoch: Seq<u8>,
    secret: Seq<u8>,
    ephemeral: Seq<u8>,
    now: nat,
) -> (SessionsModel, Result<EventModel, Seq<char>>) {
    if fsp_payload.len() < 4 {
        (m, Err("FSP payload too short"@))
    } else {
        let phase = wire::phase_of(fsp_payload);
        let body = fsp_payload.skip(4);
        if phase == wire::FSP_PHASE_SETUP {
            sessions_setup(m, src, body, epoch, secret, ephemeral, now)
        } else if phase == wire::FSP_PHASE_ACK {
            sessions_ack(m, src, body, now)
        } else if phase == wire::FSP_PHASE_MSG3 {
            sessions_msg3(m, src, body, now)
        } else if phase == wire::FSP_PHASE_ESTABLISHED {
            sessions_data(m, src, fsp_payload, now)
        } else {
            (m, Err("unknown FSP phase: 0x"@ + text::hexadecimal(phase as nat)))
        }
    }
}

/// Sealing a message under an established session: its header, then the ciphertext.
pub open spec fn sealed_message(send: CipherModel, inner: Seq<u8>) -> (
    CipherModel,
    Result<Seq<u8>, Seq<char>>,
) {
    let header = wire::fsp_header(0, inner.len(), send.nonce);
    let (after, result) = cipher::cipher_sealed(send, header, inner);
    match result {
        Ok(ciphertext) => (after, Ok(header + ciphertext)),
        Err(e) => (after, Err(e)),
    }
}

/// Sending a message on a session.
pub open spec fn session_sending(s: SessionModel, inner: Seq<u8>) -> (
    SessionModel,
    Result<Seq<u8>, Seq<char>>,
) {
    match s.phase {
        PhaseModel::Established { send, recv, replay, receiver } => {
            let (after, result) = sealed_message(send, inner);
            (
                SessionModel {
                    phase: PhaseModel::Established { send: after, recv, replay, receiver },
                    ..s
                },
                result,
            )
        },
        _ => (s, Err("session not established"@)),
    }
}

/// A data packet inside the encryption:
/// `[fsp_inner:6][src_port:2 LE][dst_port:2 LE][payload]`
pub open spec fn data_packet(now: nat, src_port: nat, dst_port: nat, payload: Seq<u8>) -> Seq<u8> {
    wire::fsp_inner(wire::timestamp(now), wire::FSP_MSG_TYPE_DATA, 0) + bytes::le_bytes(src_port, 2)
        + bytes::le_bytes(dst_port, 2) + payload
}

/// Sending data to a node, which counts as activity.
pub open spec fn sessions_send(
    m: SessionsModel,
    dest: Seq<u8>,
    src_port: nat,
    dst_port: nat,
    payload: Seq<u8>,
    now: nat,
) -> (SessionsModel, Result<Seq<u8>, Seq<char>>) {
    if !has_session(m, dest) {
        (m, Err("no established session for this destination"@))
    } else {
        let (after, result) = session_sending(
            session_touched(session_with(m, dest), now),
            data_packet(now, src_port, dst_port, payload),
        );
        (with_session(m, dest, after), result)
    }
}

/// Sending another kind of message to a node, which does not count as activity.
pub open spec fn sessions_send_message(
    m: SessionsModel,
    dest: Seq<u8>,
    inner_payload: Seq<u8>,
    now: nat,
) -> (SessionsModel, Result<Seq<u8>, Seq<char>>) {
    if !has_session(m, dest) {
        (m, Err("no established session for this destination"@))
    } else {
        let (after, result) = session_sending(
            session_with(m, dest),
            bytes::le_bytes(wire::timestamp(now), 4) + inner_payload,
        );
        (with_session(m, dest, after), result)
    }
}

/// Reporting to a node what was received from it, as of `report_ms`.
pub open spec fn sessions_report(m: SessionsModel, dest: Seq<u8>, report_ms: nat, now: nat) -> (
    SessionsModel,
    Result<Seq<u8>, Seq<char>>,
) {
    if !has_session(m, dest) {
        (m, Err("no session for this destination"@))
    } else {
        let s = session_with(m, dest);
        match s.phase {
            PhaseModel::Established { send, recv, replay, receiver } => {
                let reported = SessionModel {
                    phase: PhaseModel::Established {
                        send,
                        recv,
                        replay,
                        receiver: mmp::receiver_reported(receiver),
                    },
                    ..s
                };
                sessions_send_message(
                    with_session(m, dest, reported),
                    dest,
                    mmp::receiver_report(receiver, report_ms),
                    now,
                )
            },
            _ => (m, Err("session not established"@)),
        }
    }
}

/// A session payload in its link-layer envelope.
pub open spec fn enveloped(m: SessionsModel, dest: Seq<u8>, fsp_payload: Seq<u8>) -> Seq<u8> {
    seq![wire::MSG_TYPE_SESSION_DATAGRAM] + wire::datagram_bytes(
        DatagramModel {
            ttl: DEFAULT_TTL,
            path_mtu: DEFAULT_PATH_MTU as nat,
            src_addr: m.addr,
            dest_addr: dest,
            payload: fsp_payload,
        },
    )
}

/// The sessions that have not been idle longer than the given time.
pub open spec fn sessions_pruned(m: SessionsModel, max_idle_ms: nat, now: nat) -> SessionsModel {
    SessionsModel {
        sessions: m.sessions.restrict(
            Set::new(
                |k: u128|
                    m.sessions.contains_key(k) && idle_ms(m.sessions[k], now) <= max_idle_ms,
            ),
        ),
        ..m
    }
}

// ============================================================================
// Session manager
// ============================================================================

/// Session info for UI display.
pub struct SessionInfo {
    pub node_addr: [u8; 16],
    pub status: String,
    /// Seconds since last activity.
    pub idle_secs: u64,
    /// Seconds since session was created.
    pub age_secs: u64,
}

/// A session in one of its lifecycle states.
enum SessionPhase {
    /// Initiator: sent msg1, waiting for msg2 (SessionAck).
    Initiating(HandshakeXK),
    /// Responder: sent msg2, waiting for msg3 (SessionMsg3).
    AwaitingMsg3(HandshakeXK),
    /// Handshake complete, data can flow.
    Established {
        send_cipher: CipherState,
        recv_cipher: CipherState,
        replay: ReplayWindow,
        /// MMP receiver state for session-layer metrics.
        receiver_state: ReceiverState,
    },
}

/// Session entry with lifecycle phase and activity tracking.
struct SessionEntry {
    phase: SessionPhase,
    created_at: u64,
    last_activity: u64,
}

impl View for SessionPhase {
    type V = PhaseModel;

    closed spec fn view(&self) -> PhaseModel {
        match self {
            SessionPhase::Initiating(hs) => PhaseModel::Initiating(hs@),
            SessionPhase::AwaitingMsg3(hs) => PhaseModel::AwaitingMsg3(hs@),
            SessionPhase::Established { send_cipher, recv_cipher, replay, receiver_state } =>
                PhaseModel::Established {
                send: send_cipher@,
                recv: recv_cipher@,
                replay: replay@,
                receiver: receiver_state@,
            },
        }
    }
}

impl View for SessionEntry {
    type V = SessionModel;

    closed spec fn view(&self) -> SessionModel {
        SessionModel {
            phase: self.phase@,
            created_at: self.created_at as nat,
            last_activity: self.last_activity as nat,
        }
    }
}

impl SessionEntry {
    spec fn wf(&self) -> bool {
        match self.phase {
            SessionPhase::Initiating(hs) => hs.wf(),
            SessionPhase::AwaitingMsg3(hs) => hs.wf(),
            SessionPhase::Established { .. } => true,
        }
    }

    fn new(phase: SessionPhase, now: u64) -> (r: Self)
        ensures
            r@ == session_new(phase@, now as nat),
            r.phase == phase,
    {
        Self { phase, created_at: now, last_activity: now }
    }

    fn is_established(&self) -> (r: bool)
        ensures
            r == (self@.phase is Established),
    {
        match &self.phase {
            SessionPhase::Established { .. } => true,
            _ => false,
        }
    }
}

/// Manages all active sessions, keyed by remote node address.
pub struct SessionManager {
    sessions: HashMap<u128, SessionEntry>,
    /// Our own coordinates (ancestry path from self to root).
    our_coords: Vec<[u8; 16]>,
    /// Our node address.
    our_addr: [u8; 16],
}

impl View for SessionManager {
    type V = SessionsModel;

    closed spec fn view(&self) -> SessionsModel {
        SessionsModel {
            sessions: self.sessions@.map_values(|e: SessionEntry| e@),
            coords: wire::addresses(self.our_coords@),
            addr: self.our_addr@,
        }
    }
}

/// Result of processing an incoming SessionDatagram.
pub struct SessionEvent {
    /// FSP payloads to send back (wrapped and link-encrypted by the caller).
    pub fsp_responses: Vec<Vec<u8>>,
    /// Human-readable description for the UI.
    pub info: String,
    /// The peer's npub when a session becomes established.
    pub remote_npub: Option<String>,
    /// Decrypted application payload (destination port and data), if any.
    pub payload: Option<(u16, Vec<u8>)>,
    /// The source node address (who sent this).
    pub from: [u8; 16],
    /// What kind of session event occurred.
    pub kind: SessionEventKind,
}

impl View for SessionEvent {
    type V = EventModel;

    open spec fn view(&self) -> EventModel {
        EventModel {
            fsp_responses: self.fsp_responses@.map_values(|v: Vec<u8>| v@),
            info: self.info@,
            remote_npub: match self.remote_npub {
                Some(s) => Some(s@),
                None => None,
            },
            payload: match self.payload {
                Some(p) => Some((p.0 as nat, p.1@)),
                None => None,
            },
            from: self.from@,
            kind: self.kind,
        }
    }
}

/// A result as its value.
pub open spec fn event_result(r: Result<SessionEvent, String>) -> Result<EventModel, Seq<char>> {
    match r {
        Ok(e) => Ok(e@),
        Err(e) => Err(e@),
    }
}

fn plain(from: [u8; 16], kind: SessionEventKind, info: String) -> (r: SessionEvent)
    ensures
        r@ == plain_event(from@, kind, info@),
{
    let r = SessionEvent {
        fsp_responses: Vec::new(),
        info,
        remote_npub: None,
        payload: None,
        from,
        kind,
    };
    assert(r@.fsp_responses =~= Seq::empty());
    r
}

fn one_response(response: Vec<u8>) -> (r: Vec<Vec<u8>>)
    ensures
        r@.map_values(|v: Vec<u8>| v@) == seq![response@],
{
    let mut r: Vec<Vec<u8>> = Vec::new();
    r.push(response);
    assert(r@.map_values(|v: Vec<u8>| v@) =~= seq![response@]);
    r
}

/// The key of an address.
fn key_of(addr: &[u8; 16]) -> (r: u128)
    ensures
        r == addr_key(addr@),
{
    let mut r: u128 = 0;
    let mut i: usize = 0;
    while i < 16
        invariant
            i <= 16,
            r == bytes::be_value(addr@.take(i as int)),
        decreases 16 - i,
    {
        proof {
            let next = addr@.take(i + 1);
            assert(next.drop_last() =~= addr@.take(i as int));
            bytes::lemma_be_value_bound(next);
            bytes::lemma_pow256_mono(next.len(), 16);
            reveal_with_fuel(bytes::pow256, 17);
        }
        r = r * 256 + addr[i] as u128;
        i = i + 1;
    }
    assert(addr@.take(16) =~= addr@);
    r
}

/// The address of a key.
fn addr_of(key: u128) -> (r: [u8; 16])
    ensures
        r@ == bytes::be_bytes(key as nat, 16),
{
    let mut r: [u8; 16] = [0u8; 16];
    let mut rest: u128 = key;
    let mut i: usize = 16;
    proof {
        bytes::lemma_be_bytes_len(key as nat, 16);
        assert(bytes::be_bytes(key as nat, 16) + r@.skip(16) =~= bytes::be_bytes(key as nat, 16));
    }
    while i > 0
        invariant
            i <= 16,
            bytes::be_bytes(rest as nat, i as nat) + r@.skip(i as int) == bytes::be_bytes(
                key as nat,
                16,
            ),
        decreases i,
    {
        i = i - 1;
        let ghost before = r@;
        r[i] = (rest % 256) as u8;
        assert(bytes::be_bytes((rest / 256) as nat, i as nat) + r@.skip(i as int)
            =~= bytes::be_bytes(rest as nat, (i + 1) as nat) + before.skip(i + 1)) by {
            bytes::lemma_be_bytes_len((rest / 256) as nat, i as nat);
        }
        rest = rest / 256;
    }
    assert(bytes::be_bytes(rest as nat, 0) + r@.skip(0) =~= r@);
    r
}

impl SessionManager {
    /// Every handshake in progress holds the keys that its next step needs.
    pub closed spec fn wf(&self) -> bool {
        forall|k: u128| #[trigger] self.sessions@.contains_key(k) ==> self.sessions@[k].wf()
    }

    /// Create a manager for a node, which is at first the root of its own tree.
    pub fn new(our_addr: [u8; 16]) -> (r: Self)
        ensures
            r.wf(),
            r@ == (SessionsModel {
                sessions: Map::empty(),
                coords: seq![our_addr@],
                addr: our_addr@,
            }),
    {
        broadcast use vstd::std_specs::hash::group_hash_axioms;

        let mut our_coords: Vec<[u8; 16]> = Vec::new();
        our_coords.push(our_addr);
        let r = Self { sessions: HashMap::new(), our_coords, our_addr };
        assert(r@.sessions =~= Map::empty());
        assert(r@.coords =~= seq![our_addr@]);
        r
    }

    fn peek(&self, key: u128) -> (r: Option<&SessionEntry>)
        ensures
            match r {
                Some(e) => self@.sessions.contains_key(key) && e@ == self@.sessions[key],
                None => !self@.sessions.contains_key(key),
            },
    {
        broadcast use vstd::std_specs::hash::group_hash_axioms;

        self.sessions.get(&key)
    }

    fn take(&mut self, key: u128) -> (r: Option<SessionEntry>)
        requires
            old(self).wf(),
        ensures
            final(self).wf(),
            match r {
                Some(e) => old(self)@.sessions.contains_key(key) && e@ == old(self)@.sessions[key]
                    && e.wf() && final(self)@ == (SessionsModel {
                    sessions: old(self)@.sessions.remove(key),
                    ..old(self)@
                }),
                None => !old(self)@.sessions.contains_key(key) && final(self)@ == old(self)@,
            },
    {
        broadcast use vstd::std_specs::hash::group_hash_axioms;

        let r = self.sessions.remove(&key);
        assert(self@.sessions =~= old(self)@.sessions.remove(key));
        if r.is_none() {
            assert(self@.sessions =~= old(self)@.sessions);
        }
        r
    }

    fn put(&mut self, key: u128, entry: SessionEntry)
        requires
            old(self).wf(),
            entry.wf(),
        ensures
            final(self).wf(),
            final(self)@ == (SessionsModel {
                sessions: old(self)@.sessions.insert(key, entry@),
                ..old(self)@
            }),
    {
        broadcast use vstd::std_specs::hash::group_hash_axioms;

        self.sessions.insert(key, entry);
        assert(self@.sessions =~= old(self)@.sessions.insert(key, entry@));
    }

    /// Update our coordinates (ancestry path from self to root).
    ///
    /// Called when we receive the gateway's TreeAnnounce and adopt it as parent. Future
    /// SessionSetup and SessionAck packets will carry these coordinates.
    pub fn update_coords(&mut self, coords: Vec<[u8; 16]>)
        requires
            old(self).wf(),
        ensures
            final(self).wf(),
            final(self)@ == (SessionsModel { coords: wire::addresses(coords@), ..old(self)@ }),
    {
        self.our_coords = coords;
    }

    /// Check if a session with the given destination is established.
    pub fn is_established(&self, dest: &[u8; 16]) -> (r: bool)
        ensures
            r == established_with(self@, dest@),
    {
        match self.peek(key_of(dest)) {
            Some(entry) => entry.is_established(),
            None => false,
        }
    }

    /// The keys of all sessions, in no particular order.
    fn keys(&self) -> (r: Vec<u128>)
        ensures
            r@.no_duplicates(),
            r@.to_set() == self@.sessions.dom(),
    {
        broadcast use vstd::std_specs::hash::group_hash_axioms;

        let m = &self.sessions;
        let mut out: Vec<u128> = Vec::new();
        let ghost all = vstd::std_specs::iter::IteratorSpec::remaining(
            &vstd::std_specs::hash::spec_keys_iter(m),
        ).unref();
        for k in it: m.keys()
            invariant
                it.seq().unref() == all,
                out@ == all.take(it.index()),
        {
            out.push(*k);
            assert(out@ =~= all.take(it.index() + 1));
        }
        assert(out@ =~= all);
        assert(self@.sessions.dom() =~= m@.dom());
        out
    }

    /// Return all established session destination addresses, in no particular order.
    pub fn established_destinations(&self) -> (r: Vec<[u8; 16]>)
        ensures
            r@.no_duplicates(),
            forall|a: [u8; 16]| r@.contains(a) <==> established_with(self@, a@),
    {
        let keys = self.keys();
        let mut out: Vec<[u8; 16]> = Vec::new();
        let mut i: usize = 0;
        while i < keys.len()
            invariant
                i <= keys.len(),
                keys@.no_duplicates(),
                keys@.to_set() == self@.sessions.dom(),
                out@.no_duplicates(),
                forall|a: [u8; 16]|
                    #[trigger] out@.contains(a) <==> established_with(self@, a@) && keys@.take(
                        i as int,
                    ).contains(addr_key(a@)),
            decreases keys.len() - i,
        {
            let key: u128 = keys[i];
            assert(keys@.contains(key));
            assert(keys@.to_set().contains(key));
            let ghost seen = keys@.take(i as int);
            let ghost more = keys@.take(i + 1);
            let ghost before = out@;
            proof {
                assert(more =~= seen.push(key));
                assert(!seen.contains(key)) by {
                    if seen.contains(key) {
                        let j = choose|j: int| 0 <= j < seen.len() && seen[j] == key;
                        assert(keys@[j] == keys@[i as int]);
                    }
                }
                assert forall|k: u128| #[trigger] more.contains(k) == (seen.contains(k) || k
                    == key) by {
                    if seen.contains(k) {
                        let j = choose|j: int| 0 <= j < seen.len() && seen[j] == k;
                        assert(more[j] == k);
                    }
                    if k == key {
                        assert(more[i as int] == k);
                    }
                    if more.contains(k) {
                        let j = choose|j: int| 0 <= j < more.len() && more[j] == k;
                        if j < i {
                            assert(seen[j] == k);
                        }
                    }
                }
            }
            let established = match self.peek(key) {
                Some(entry) => entry.is_established(),
                None => false,
            };
            if established {
                let addr = addr_of(key);
                proof {
                    lemma_key_of_bytes(key);
                    assert(addr_key(addr@) == key);
                    assert(!before.contains(addr));
                }
                out.push(addr);
                proof {
                    assert forall|a: [u8; 16]| #[trigger] out@.contains(a) <==> established_with(
                        self@,
                        a@,
                    ) && more.contains(addr_key(a@)) by {
                        law_addr_keys(a@, addr@);
                        if before.contains(a) {
                            let j = choose|j: int| 0 <= j < before.len() && before[j] == a;
                            assert(out@[j] == a);
                        }
                        if a == addr {
                            assert(out@[before.len() as int] == a);
                        }
                        if out@.contains(a) {
                            let j = choose|j: int| 0 <= j < out@.len() && out@[j] == a;
                            if j < before.len() {
                                assert(before[j] == a);
                            }
                        }
                        if addr_key(a@) == key {
                            assert(a@ == addr@);
                            assert(a =~= addr);
                        }
                    }
                }
            }
            i = i + 1;
        }
        proof {
            assert(keys@.take(i as int) =~= keys@);
            assert forall|a: [u8; 16]| out@.contains(a) <==> established_with(self@, a@) by {
                if established_with(self@, a@) {
                    assert(keys@.to_set().contains(addr_key(a@)));
                    assert(keys@.contains(addr_key(a@)));
                }
            }
        }
        out
    }
}

proof fn lemma_key_of_bytes(key: u128)
    ensures
        bytes::be_bytes(key as nat, 16).len() == 16,
        addr_key(bytes::be_bytes(key as nat, 16)) == key,
{
    bytes::lemma_be_bytes_len(key as nat, 16);
    reveal_with_fuel(bytes::pow256, 17);
    bytes::lemma_be_round_trip(key as nat, 16);
}

/// Whether a sequence of keys names every session once.
pub open spec fn lists_all(order: Seq<u128>, m: SessionsModel) -> bool {
    order.no_duplicates() && order.to_set() == m.sessions.dom()
}

/// Session info as values: address, status, idle seconds, age in seconds.
pub open spec fn info_value(i: SessionInfo) -> (Seq<u8>, Seq<char>, nat, nat) {
    (i.node_addr@, i.status@, i.idle_secs as nat, i.age_secs as nat)
}

/// What is shown of a session.
pub open spec fn info_of(key: u128, s: SessionModel, now: nat) -> (Seq<u8>, Seq<char>, nat, nat) {
    (
        bytes::be_bytes(key as nat, 16),
        status_text(s.phase),
        idle_ms(s, now) / 1000,
        age_ms(s, now) / 1000,
    )
}

/// Whether a list shows every session once, as of a given time.
pub open spec fn shows_all(list: Seq<SessionInfo>, order: Seq<u128>, m: SessionsModel, now: nat) -> bool {
    &&& lists_all(order, m)
    &&& list.len() == order.len()
    &&& forall|i: int|
        0 <= i < list.len() ==> info_value(#[trigger] list[i]) == info_of(
            order[i],
            m.sessions[order[i]],
            now,
        )
}

impl SessionManager {
    /// Return a snapshot of all sessions with their state for UI display.
    pub fn list_sessions(&self) -> (r: Vec<SessionInfo>)
        ensures
            exists|order: Seq<u128>, now: nat|
                now <= u64::MAX && #[trigger] shows_all(r@, order, self@, now),
    {
        self.list_sessions_at(wire::current_time_ms())
    }

    /// Return a snapshot of all sessions as of a given time, in no particular order.
    pub fn list_sessions_at(&self, now_ms: u64) -> (r: Vec<SessionInfo>)
        ensures
            exists|order: Seq<u128>| #[trigger] shows_all(r@, order, self@, now_ms as nat),
    {
        let keys = self.keys();
        let mut out: Vec<SessionInfo> = Vec::new();
        let mut i: usize = 0;
        while i < keys.len()
            invariant
                i <= keys.len(),
                lists_all(keys@, self@),
                out@.len() == i,
                forall|j: int|
                    0 <= j < i ==> info_value(#[trigger] out@[j]) == info_of(
                        keys@[j],
                        self@.sessions[keys@[j]],
                        now_ms as nat,
                    ),
            decreases keys.len() - i,
        {
            let key: u128 = keys[i];
            assert(keys@.contains(key));
            assert(keys@.to_set().contains(key));
            match self.peek(key) {
                Some(entry) => {
                    let status = match &entry.phase {
                        SessionPhase::Initiating(_) => "initiating",
                        SessionPhase::AwaitingMsg3(_) => "awaiting_msg3",
                        SessionPhase::Established { .. } => "established",
                    };
                    out.push(
                        SessionInfo {
                            node_addr: addr_of(key),
                            status: status.to_string(),
                            idle_secs: now_ms.saturating_sub(entry.last_activity) / 1000,
                            age_secs: now_ms.saturating_sub(entry.created_at) / 1000,
                        },
                    );
                },
                None => {},
            }
            i = i + 1;
        }
        assert(shows_all(out@, keys@, self@, now_ms as nat));
        out
    }

    /// Remove sessions that have been idle longer than the given threshold.
    ///
    /// Returns the number of sessions pruned.
    pub fn prune_idle(&mut self, max_idle_ms: u64) -> (r: usize)
        requires
            old(self).wf(),
        ensures
            final(self).wf(),
            exists|now: nat|
                now <= u64::MAX && final(self)@ == #[trigger] sessions_pruned(
                    old(self)@,
                    max_idle_ms as nat,
                    now,
                ),
            r == old(self)@.sessions.dom().len() - final(self)@.sessions.dom().len(),
    {
        self.prune_idle_at(max_idle_ms, wire::current_time_ms())
    }

    /// Remove sessions that have, at a given time, been idle longer than the given threshold.
    ///
    /// Returns the number of sessions pruned.
    pub fn prune_idle_at(&mut self, max_idle_ms: u64, now_ms: u64) -> (r: usize)
        requires
            old(self).wf(),
        ensures
            final(self).wf(),
            final(self)@ == sessions_pruned(old(self)@, max_idle_ms as nat, now_ms as nat),
            r == old(self)@.sessions.dom().len() - final(self)@.sessions.dom().len(),
    {
        let keys = self.keys();
        let ghost before = self@;
        let mut count: usize = 0;
        let mut i: usize = 0;
        proof {
            vstd::seq_lib::seq_to_set_is_finite(keys@);
        }
        while i < keys.len()
            invariant
                i <= keys.len(),
                count <= i,
                self.wf(),
                lists_all(keys@, before),
                before == old(self)@,
                self@.coords == before.coords,
                self@.addr == before.addr,
                self@.sessions.dom().finite(),
                before.sessions.dom().len() == self@.sessions.dom().len() + count,
                forall|k: u128| #[trigger]
                    self@.sessions.contains_key(k) ==> before.sessions.contains_key(k)
                        && self@.sessions[k] == before.sessions[k],
                forall|j: int|
                    i <= j < keys@.len() ==> self@.sessions.contains_key(#[trigger] keys@[j]),
                forall|j: int|
                    0 <= j < i ==> (self@.sessions.contains_key(#[trigger] keys@[j]) <==> idle_ms(
                        before.sessions[keys@[j]],
                        now_ms as nat,
                    ) <= max_idle_ms),
            decreases keys.len() - i,
        {
            let key: u128 = keys[i];
            assert(self@.sessions.contains_key(keys@[i as int]));
            let stale = match self.peek(key) {
                Some(entry) => now_ms.saturating_sub(entry.last_activity) > max_idle_ms,
                None => false,
            };
            if stale {
                let ghost dom = self@.sessions.dom();
                let _ = self.take(key);
                proof {
                    assert(self@.sessions.dom() =~= dom.remove(key));
                    assert forall|j: int| 0 <= j < keys@.len() && j != i implies keys@[j]
                        != key by {}
                }
                count = count + 1;
            }
            i = i + 1;
        }
        proof {
            let after = sessions_pruned(before, max_idle_ms as nat, now_ms as nat);
            assert forall|k: u128| #[trigger] self@.sessions.contains_key(k)
                == after.sessions.contains_key(k) by {
                if before.sessions.contains_key(k) {
                    assert(keys@.to_set().contains(k));
                    let j = choose|j: int| 0 <= j < keys@.len() && keys@[j] == k;
                    assert(self@.sessions.contains_key(keys@[j]) <==> idle_ms(
                        before.sessions[keys@[j]],
                        now_ms as nat,
                    ) <= max_idle_ms);
                }
            }
            assert(self@.sessions =~= after.sessions);
        }
        count
    }
}

/// Whether a key may be the ephemeral key of a handshake: the given one, or any if none is given.
pub open spec fn drawn(ephemeral: Option<SecretKey>, e: Seq<u8>) -> bool {
    match ephemeral {
        Some(k) => e == k@,
        None => identity::is_keypair(e),
    }
}

/// The given ephemeral key, or a fresh one.
pub(crate) fn draw(ephemeral: Option<SecretKey>) -> (r: SecretKey)
    ensures
        drawn(ephemeral, r@),
{
    match ephemeral {
        Some(k) => k,
        None => SecretKey::random(),
    }
}

impl SessionManager {
    // ========================================================================
    // Initiate a session (we are the initiator)
    // ========================================================================

    /// Initiate a Noise XK session with a remote node.
    ///
    /// Returns the FSP SessionSetup payload (to be wrapped in a SessionDatagram by the caller,
    /// then link-encrypted and sent).
    pub fn initiate(
        &mut self,
        dest_addr: [u8; 16],
        dest_pubkey: &PublicKey,
        local_epoch: [u8; 8],
        our_secret: &SecretKey,
    ) -> (r: Result<Vec<u8>, String>)
        requires
            old(self).wf(),
        ensures
            final(self).wf(),
            exists|e: Seq<u8>, now: nat|
                now <= u64::MAX && identity::is_keypair(e) && (final(self)@, text::bytes_result(r))
                    == #[trigger] sessions_initiate(
                    old(self)@,
                    dest_addr@,
                    dest_pubkey@,
                    local_epoch@,
                    our_secret@,
                    e,
                    now,
                ),
    {
        self.initiate_at(
            dest_addr,
            dest_pubkey,
            local_epoch,
            our_secret,
            wire::current_time_ms(),
            None,
        )
    }

    /// Initiate a session at a given time, with a given ephemeral key or a fresh one.
    pub fn initiate_at(
        &mut self,
        dest_addr: [u8; 16],
        dest_pubkey: &PublicKey,
        local_epoch: [u8; 8],
        our_secret: &SecretKey,
        now_ms: u64,
        ephemeral: Option<SecretKey>,
    ) -> (r: Result<Vec<u8>, String>)
        requires
            old(self).wf(),
        ensures
            final(self).wf(),
            exists|e: Seq<u8>| #[trigger]
                drawn(ephemeral, e) && (final(self)@, text::bytes_result(r)) == sessions_initiate(
                    old(self)@,
                    dest_addr@,
                    dest_pubkey@,
                    local_epoch@,
                    our_secret@,
                    e,
                    now_ms as nat,
                ),
    {
        let e = draw(ephemeral);
        let key: u128 = key_of(&dest_addr);
        match self.peek(key) {
            Some(entry) => {
                return Err(
                    if entry.is_established() {
                        "session already established for this destination".to_string()
                    } else {
                        "session handshake already in progress for this destination".to_string()
                    },
                );
            },
            None => {},
        }
        let mut hs = HandshakeXK::new_initiator(*our_secret, *dest_pubkey, local_epoch);
        let msg1 = match hs.write_msg1_with(e) {
            Ok(m) => m,
            Err(e) => return Err(e),
        };
        let dest_coords: [[u8; 16]; 1] = [dest_addr];
        assert(wire::addresses(dest_coords@) =~= seq![dest_addr@]);
        let setup = wire::build_session_setup(
            self.our_coords.as_slice(),
            &dest_coords,
            msg1.as_slice(),
        );
        self.put(key, SessionEntry::new(SessionPhase::Initiating(hs), now_ms));
        assert(drawn(ephemeral, e@));
        Ok(setup)
    }

    // ========================================================================
    // Process incoming FSP payload (from a SessionDatagram addressed to us)
    // ========================================================================

    /// Process an incoming FSP payload from a SessionDatagram.
    ///
    /// `src_addr` is the source node address from the SessionDatagram envelope. `fsp_payload` is
    /// the raw FSP bytes (starting with the 4-byte FSP prefix).
    ///
    /// Returns a SessionEvent with any response FSP payloads and decoded data.
    pub fn process_incoming(
        &mut self,
        src_addr: [u8; 16],
        fsp_payload: &[u8],
        local_epoch: [u8; 8],
        our_secret: &SecretKey,
    ) -> (r: Result<SessionEvent, String>)
        requires
            old(self).wf(),
        ensures
            final(self).wf(),
            exists|e: Seq<u8>, now: nat|
                now <= u64::MAX && identity::is_keypair(e) && (final(self)@, event_result(r))
                    == #[trigger] sessions_incoming(
                    old(self)@,
                    src_addr@,
                    fsp_payload@,
                    local_epoch@,
                    our_secret@,
                    e,
                    now,
                ),
    {
        self.process_incoming_at(
            src_addr,
            fsp_payload,
            local_epoch,
            our_secret,
            wire::current_time_ms(),
            None,
        )
    }

    /// Process an incoming FSP payload at a given time. If it starts a session, our ephemeral key
    /// is the given one or a fresh one.
    pub fn process_incoming_at(
        &mut self,
        src_addr: [u8; 16],
        fsp_payload: &[u8],
        local_epoch: [u8; 8],
        our_secret: &SecretKey,
        now_ms: u64,
        ephemeral: Option<SecretKey>,
    ) -> (r: Result<SessionEvent, String>)
        requires
            old(self).wf(),
        ensures
            final(self).wf(),
            exists|e: Seq<u8>| #[trigger]
                drawn(ephemeral, e) && (final(self)@, event_result(r)) == sessions_incoming(
                    old(self)@,
                    src_addr@,
                    fsp_payload@,
                    local_epoch@,
                    our_secret@,
                    e,
                    now_ms as nat,
                ),
    {
        proof {
            use_type_invariant(&*our_secret);
            identity::lemma_secret_key(*our_secret);
            let any = match ephemeral {
                Some(k) => k@,
                None => our_secret@,
            };
            assert(drawn(ephemeral, any));
        }
        if fsp_payload.len() < 4 {
            return Err("FSP payload too short".to_string());
        }
        let phase: u8 = fsp_payload[0] % 16;
        let body = slice_subrange(fsp_payload, 4, fsp_payload.len());
        assert(body@ =~= fsp_payload@.skip(4));
        if phase == wire::FSP_PHASE_SETUP {
            self.handle_setup(src_addr, body, local_epoch, our_secret, now_ms, ephemeral)
        } else if phase == wire::FSP_PHASE_ACK {
            self.handle_ack(src_addr, body, now_ms)
        } else if phase == wire::FSP_PHASE_MSG3 {
            self.handle_msg3(src_addr, body, now_ms)
        } else if phase == wire::FSP_PHASE_ESTABLISHED {
            self.handle_established_data(src_addr, fsp_payload, now_ms)
        } else {
            let h = text::hexadecimal_text(phase as u64);
            Err(text::join2("unknown FSP phase: 0x", h.as_str()))
        }
    }

    // ========================================================================
    // Handshake handlers
    // ========================================================================

    /// Handle incoming SessionSetup (we are the responder).
    fn handle_setup(
        &mut self,
        src_addr: [u8; 16],
        body: &[u8],
        local_epoch: [u8; 8],
        our_secret: &SecretKey,
        now_ms: u64,
        ephemeral: Option<SecretKey>,
    ) -> (r: Result<SessionEvent, String>)
        requires
            old(self).wf(),
        ensures
            final(self).wf(),
            exists|e: Seq<u8>| #[trigger]
                drawn(ephemeral, e) && (final(self)@, event_result(r)) == sessions_setup(
                    old(self)@,
                    src_addr@,
                    body@,
                    local_epoch@,
                    our_secret@,
                    e,
                    now_ms as nat,
                ),
    {
        let e = draw(ephemeral);
        assert(drawn(ephemeral, e@));
        let hs_payload = match wire::parse_session_setup_body(body) {
            Some((_, _, h)) => h,
            None => return Err("invalid SessionSetup body".to_string()),
        };
        let mut hs = HandshakeXK::new_responder(*our_secret, local_epoch);
        match hs.read_msg1(hs_payload.as_slice()) {
            Ok(_) => {},
            Err(e) => return Err(e),
        }
        let msg2 = match hs.write_msg2_with(e) {
            Ok(m) => m,
            Err(e) => return Err(e),
        };
        let dest_coords: [[u8; 16]; 1] = [src_addr];
        assert(wire::addresses(dest_coords@) =~= seq![src_addr@]);
        let ack = wire::build_session_ack(
            self.our_coords.as_slice(),
            &dest_coords,
            msg2.as_slice(),
        );
        self.put(key_of(&src_addr), SessionEntry::new(SessionPhase::AwaitingMsg3(hs), now_ms));
        Ok(
            SessionEvent {
                fsp_responses: one_response(ack),
                info: "SessionSetup received, sent SessionAck (XK msg2)".to_string(),
                remote_npub: None,
                payload: None,
                from: src_addr,
                kind: SessionEventKind::Setup,
            },
        )
    }

    /// Handle incoming SessionAck (we are the initiator, receiving msg2).
    fn handle_ack(&mut self, src_addr: [u8; 16], body: &[u8], now_ms: u64) -> (r: Result<
        SessionEvent,
        String,
    >)
        requires
            old(self).wf(),
        ensures
            final(self).wf(),
            (final(self)@, event_result(r)) == sessions_ack(
                old(self)@,
                src_addr@,
                body@,
                now_ms as nat,
            ),
    {
        let hs_payload = match wire::parse_session_ack_body(body) {
            Some((_, _, h)) => h,
            None => return Err("invalid SessionAck body".to_string()),
        };
        let key: u128 = key_of(&src_addr);
        let entry = match self.take(key) {
            Some(entry) => entry,
            None => return Err("no session for this source (unexpected SessionAck)".to_string()),
        };
        let ghost before = entry@;
        let (created_at, last_activity) = (entry.created_at, entry.last_activity);
        match entry.phase {
            SessionPhase::Initiating(hs) => {
                let mut hs = hs;
                match hs.read_msg2(hs_payload.as_slice()) {
                    Ok(_) => {},
                    Err(e) => return Err(e),
                }
                let msg3 = match hs.write_msg3() {
                    Ok(m) => m,
                    Err(e) => return Err(e),
                };
                let msg3_fsp = wire::build_session_msg3(msg3.as_slice());
                let (send_cipher, recv_cipher, remote_pub) = match hs.into_transport() {
                    Ok(t) => t,
                    Err(e) => return Err(e),
                };
                let remote_npub = identity::pubkey_to_npub(&remote_pub);
                self.put(
                    key,
                    SessionEntry::new(
                        SessionPhase::Established {
                            send_cipher,
                            recv_cipher,
                            replay: ReplayWindow::new(),
                            receiver_state: ReceiverState::new(),
                        },
                        now_ms,
                    ),
                );
                assert(self@.sessions =~= old(self)@.sessions.insert(key, self@.sessions[key]));
                Ok(
                    SessionEvent {
                        fsp_responses: one_response(msg3_fsp),
                        info: "SessionAck received, sent msg3. Session ESTABLISHED!".to_string(),
                        remote_npub: Some(remote_npub),
                        payload: None,
                        from: src_addr,
                        kind: SessionEventKind::Ack,
                    },
                )
            },
            phase => {
                self.put(key, SessionEntry { phase, created_at, last_activity });
                assert(self@.sessions =~= old(self)@.sessions);
                Err("received SessionAck but not in Initiating state".to_string())
            },
        }
    }

    /// Handle incoming SessionMsg3 (we are the responder, receiving msg3).
    fn handle_msg3(&mut self, src_addr: [u8; 16], body: &[u8], now_ms: u64) -> (r: Result<
        SessionEvent,
        String,
    >)
        requires
            old(self).wf(),
        ensures
            final(self).wf(),
            (final(self)@, event_result(r)) == sessions_msg3(
                old(self)@,
                src_addr@,
                body@,
                now_ms as nat,
            ),
    {
        let hs_payload = match wire::parse_session_msg3_body(body) {
            Some(h) => h,
            None => return Err("invalid SessionMsg3 body".to_string()),
        };
        let key: u128 = key_of(&src_addr);
        let entry = match self.take(key) {
            Some(entry) => entry,
            None => return Err("no session for this source (unexpected SessionMsg3)".to_string()),
        };
        let (created_at, last_activity) = (entry.created_at, entry.last_activity);
        match entry.phase {
            SessionPhase::AwaitingMsg3(hs) => {
                let mut hs = hs;
                match hs.read_msg3(hs_payload.as_slice()) {
                    Ok(_) => {},
                    Err(e) => return Err(e),
                }
                let (send_cipher, recv_cipher, remote_pub) = match hs.into_transport() {
                    Ok(t) => t,
                    Err(e) => return Err(e),
                };
                let remote_npub = identity::pubkey_to_npub(&remote_pub);
                self.put(
                    key,
                    SessionEntry::new(
                        SessionPhase::Established {
                            send_cipher,
                            recv_cipher,
                            replay: ReplayWindow::new(),
                            receiver_state: ReceiverState::new(),
                        },
                        now_ms,
                    ),
                );
                assert(self@.sessions =~= old(self)@.sessions.insert(key, self@.sessions[key]));
                let mut event = plain(
                    src_addr,
                    SessionEventKind::Msg3,
                    "SessionMsg3 received. Session ESTABLISHED!".to_string(),
                );
                event.remote_npub = Some(remote_npub);
                Ok(event)
            },
            phase => {
                self.put(key, SessionEntry { phase, created_at, last_activity });
                assert(self@.sessions =~= old(self)@.sessions);
                Err("received SessionMsg3 but not in AwaitingMsg3 state".to_string())
            },
        }
    }

    // ========================================================================
    // Established session data
    // ========================================================================

    /// Handle incoming encrypted session data (FSP phase 0x0).
    fn handle_established_data(
        &mut self,
        src_addr: [u8; 16],
        fsp_payload: &[u8],
        now_ms: u64,
    ) -> (r: Result<SessionEvent, String>)
        requires
            old(self).wf(),
        ensures
            final(self).wf(),
            (final(self)@, event_result(r)) == sessions_data(
                old(self)@,
                src_addr@,
                fsp_payload@,
                now_ms as nat,
            ),
    {
        let (flags, counter, header_bytes) = match wire::parse_fsp_header(fsp_payload) {
            Some((flags, _, counter, header)) => (flags, counter, header),
            None => return Err("invalid FSP header".to_string()),
        };
        // The lowest flag says that cleartext coordinates follow the header
        let mut offset: usize = wire::FSP_HEADER_SIZE;
        if flags % 2 != 0 {
            match wire::parse_coords(fsp_payload, offset) {
                Some((_, p)) => {
                    offset = p;
                },
                None => return Err("invalid src coords in CP".to_string()),
            }
            match wire::parse_coords(fsp_payload, offset) {
                Some((_, p)) => {
                    offset = p;
                },
                None => return Err("invalid dest coords in CP".to_string()),
            }
        }
        let ciphertext = slice_subrange(fsp_payload, offset, fsp_payload.len());
        assert(ciphertext@ =~= fsp_payload@.skip(offset as int));
        let key: u128 = key_of(&src_addr);
        let mut entry = match self.take(key) {
            Some(entry) => entry,
            None => return Err("no established session for this source".to_string()),
        };
        entry.last_activity = now_ms;
        let r = entry.receive(
            src_addr,
            counter,
            &header_bytes,
            ciphertext,
            Ghost(fsp_payload@),
            Ghost(offset as int),
            fsp_payload.len(),
            now_ms,
        );
        self.put(key, entry);
        assert(self@.sessions =~= old(self)@.sessions.insert(key, self@.sessions[key]));
        r
    }
}

impl SessionEntry {
    /// Open a message of an established session and read it.
    fn receive(
        &mut self,
        src_addr: [u8; 16],
        counter: u64,
        header: &[u8; 12],
        ciphertext: &[u8],
        Ghost(fsp_payload): Ghost<Seq<u8>>,
        Ghost(offset): Ghost<int>,
        size: usize,
        now_ms: u64,
    ) -> (r: Result<SessionEvent, String>)
        requires
            old(self).wf(),
            counter == wire::fsp_counter_of(fsp_payload),
            header@ == fsp_payload.take(12),
            ciphertext@ == fsp_payload.skip(offset),
            size == fsp_payload.len(),
        ensures
            final(self).wf(),
            (final(self)@, event_result(r)) == established_data(
                old(self)@,
                src_addr@,
                fsp_payload,
                offset,
                now_ms as nat,
            ),
    {
        match &mut self.phase {
            SessionPhase::Established { recv_cipher, replay, receiver_state, .. } => {
                if !replay.check(counter) {
                    let n = text::decimal_text(counter);
                    return Ok(
                        plain(
                            src_addr,
                            SessionEventKind::Replay,
                            text::join2("Session replay detected: counter ", n.as_str()),
                        ),
                    );
                }
                let plaintext = match recv_cipher.decrypt_with_counter_and_aad(
                    ciphertext,
                    counter,
                    header,
                ) {
                    Ok(p) => p,
                    Err(e) => return Err(text::join2("session decrypt failed: ", e.as_str())),
                };
                replay.accept(counter);
                if plaintext.len() < wire::FSP_INNER_HEADER_SIZE {
                    return Err("FSP inner header too short".to_string());
                }
                let timestamp: u32 = bytes::u32_le_at(plaintext.as_slice(), 0);
                assert(plaintext@.subrange(0, 4) =~= plaintext@.take(4));
                receiver_state.record_frame(counter, timestamp, size, now_ms);
                read_message(src_addr, plaintext.as_slice())
            },
            _ => Err("session not in Established state for data".to_string()),
        }
    }
}

/// Read a decrypted session message.
fn read_message(src_addr: [u8; 16], plaintext: &[u8]) -> (r: Result<SessionEvent, String>)
    requires
        plaintext@.len() >= wire::FSP_INNER_HEADER_SIZE,
    ensures
        event_result(r) == message_event(src_addr@, plaintext@),
{
    let msg_type: u8 = plaintext[4];
    if msg_type == wire::FSP_MSG_TYPE_DATA {
        // DataPacket: [inner_header:6][src_port:2][dst_port:2][payload...]
        if plaintext.len() < wire::FSP_INNER_HEADER_SIZE + 4 {
            return Err("DataPacket too short for port header".to_string());
        }
        let src_port: u16 = bytes::u16_le_at(plaintext, 6);
        let dst_port: u16 = bytes::u16_le_at(plaintext, 8);
        let data = bytes::to_vec(slice_subrange(plaintext, 10, plaintext.len()));
        assert(data@ =~= plaintext@.skip(10));
        let s = text::decimal_text(src_port as u64);
        let d = text::decimal_text(dst_port as u64);
        let n = text::decimal_text(data.len() as u64);
        let ports = text::join4("Session data: src_port=", s.as_str(), " dst_port=", d.as_str());
        let info = text::join4(ports.as_str(), " ", n.as_str(), " bytes");
        let mut event = plain(src_addr, SessionEventKind::Data, info);
        event.payload = Some((dst_port, data));
        Ok(event)
    } else if msg_type == wire::MSG_TYPE_SENDER_REPORT {
        Ok(
            plain(
                src_addr,
                SessionEventKind::SenderReport,
                "Session SenderReport received".to_string(),
            ),
        )
    } else if msg_type == wire::MSG_TYPE_RECEIVER_REPORT {
        Ok(
            plain(
                src_addr,
                SessionEventKind::ReceiverReport,
                "Session ReceiverReport received".to_string(),
            ),
        )
    } else {
        let h = text::hex_byte_text(msg_type);
        let n = text::decimal_text(plaintext.len() as u64);
        let start = text::join3("Session msg_type 0x", h.as_str(), " (");
        let info = text::join3(start.as_str(), n.as_str(), " bytes)");
        Ok(plain(src_addr, SessionEventKind::Other, info))
    }
}

impl SessionEntry {
    /// Seal a message under an established session and put its header in front.
    fn send(&mut self, inner: &[u8]) -> (r: Result<Vec<u8>, String>)
        requires
            old(self).wf(),
        ensures
            final(self).wf(),
            (final(self)@, text::bytes_result(r)) == session_sending(old(self)@, inner@),
    {
        match &mut self.phase {
            SessionPhase::Established { send_cipher, .. } => {
                let counter: u64 = send_cipher.nonce();
                let payload_len: u16 = (inner.len() % 0x1_0000) as u16;
                proof {
                    bytes::lemma_le16_low(inner@.len());
                }
                let header = wire::build_fsp_header(0, payload_len, counter);
                let ciphertext = match send_cipher.encrypt_with_aad(inner, &header) {
                    Ok(c) => c,
                    Err(e) => return Err(e),
                };
                let mut out: Vec<u8> = bytes::to_vec(&header);
                bytes::append(&mut out, ciphertext.as_slice());
                Ok(out)
            },
            _ => Err("session not established".to_string()),
        }
    }
}

impl SessionManager {
    // ========================================================================
    // Send data through an established session
    // ========================================================================

    /// Encrypt and build an FSP data payload for an established session.
    ///
    /// Returns the FSP wire bytes (header and ciphertext) to be wrapped in a SessionDatagram by
    /// the caller.
    pub fn send_data(&mut self, dest_addr: &[u8; 16], src_port: u16, dst_port: u16, payload: &[u8]) -> (r:
        Result<Vec<u8>, String>)
        requires
            old(self).wf(),
        ensures
            final(self).wf(),
            exists|now: nat|
                now <= u64::MAX && (final(self)@, text::bytes_result(r))
                    == #[trigger] sessions_send(
                    old(self)@,
                    dest_addr@,
                    src_port as nat,
                    dst_port as nat,
                    payload@,
                    now,
                ),
    {
        self.send_data_at(dest_addr, src_port, dst_port, payload, wire::current_time_ms())
    }

    /// Encrypt and build an FSP data payload at a given time.
    pub fn send_data_at(
        &mut self,
        dest_addr: &[u8; 16],
        src_port: u16,
        dst_port: u16,
        payload: &[u8],
        now_ms: u64,
    ) -> (r: Result<Vec<u8>, String>)
        requires
            old(self).wf(),
        ensures
            final(self).wf(),
            (final(self)@, text::bytes_result(r)) == sessions_send(
                old(self)@,
                dest_addr@,
                src_port as nat,
                dst_port as nat,
                payload@,
                now_ms as nat,
            ),
    {
        let key: u128 = key_of(dest_addr);
        let mut entry = match self.take(key) {
            Some(entry) => entry,
            None => return Err("no established session for this destination".to_string()),
        };
        entry.last_activity = now_ms;
        let inner_header = wire::build_fsp_inner(
            wire::timestamp_of(now_ms),
            wire::FSP_MSG_TYPE_DATA,
            0,
        );
        let mut inner: Vec<u8> = bytes::to_vec(&inner_header);
        bytes::push_u16_le(&mut inner, src_port);
        bytes::push_u16_le(&mut inner, dst_port);
        bytes::append(&mut inner, payload);
        let r = entry.send(inner.as_slice());
        self.put(key, entry);
        assert(self@.sessions =~= old(self)@.sessions.insert(key, self@.sessions[key]));
        r
    }

    /// Build an encrypted FSP message for an established session.
    ///
    /// `inner_payload` starts with the msg_type byte.
    pub fn build_encrypted_session_message(&mut self, dest_addr: &[u8; 16], inner_payload: &[u8]) -> (r:
        Result<Vec<u8>, String>)
        requires
            old(self).wf(),
        ensures
            final(self).wf(),
            exists|now: nat|
                now <= u64::MAX && (final(self)@, text::bytes_result(r))
                    == #[trigger] sessions_send_message(
                    old(self)@,
                    dest_addr@,
                    inner_payload@,
                    now,
                ),
    {
        self.build_encrypted_session_message_at(dest_addr, inner_payload, wire::current_time_ms())
    }

    /// Build an encrypted FSP message at a given time.
    pub fn build_encrypted_session_message_at(
        &mut self,
        dest_addr: &[u8; 16],
        inner_payload: &[u8],
        now_ms: u64,
    ) -> (r: Result<Vec<u8>, String>)
        requires
            old(self).wf(),
        ensures
            final(self).wf(),
            (final(self)@, text::bytes_result(r)) == sessions_send_message(
                old(self)@,
                dest_addr@,
                inner_payload@,
                now_ms as nat,
            ),
    {
        let key: u128 = key_of(dest_addr);
        let mut entry = match self.take(key) {
            Some(entry) => entry,
            None => return Err("no established session for this destination".to_string()),
        };
        let mut inner: Vec<u8> = Vec::new();
        bytes::push_u32_le(&mut inner, wire::timestamp_of(now_ms));
        bytes::append(&mut inner, inner_payload);
        assert(inner@ =~= bytes::le_bytes(wire::timestamp(now_ms as nat), 4) + inner_payload@);
        let r = entry.send(inner.as_slice());
        self.put(key, entry);
        assert(self@.sessions =~= old(self)@.sessions.insert(key, self@.sessions[key]));
        r
    }

    /// Build an encrypted session-layer ReceiverReport, as of `now_ms`.
    pub fn build_session_receiver_report(&mut self, dest_addr: &[u8; 16], now_ms: u64) -> (r:
        Result<Vec<u8>, String>)
        requires
            old(self).wf(),
        ensures
            final(self).wf(),
            exists|now: nat|
                now <= u64::MAX && (final(self)@, text::bytes_result(r))
                    == #[trigger] sessions_report(old(self)@, dest_addr@, now_ms as nat, now),
    {
        self.build_session_receiver_report_at(dest_addr, now_ms, wire::current_time_ms())
    }

    /// Build an encrypted session-layer ReceiverReport, as of `report_ms`, and send it at
    /// `now_ms`.
    pub fn build_session_receiver_report_at(
        &mut self,
        dest_addr: &[u8; 16],
        report_ms: u64,
        now_ms: u64,
    ) -> (r: Result<Vec<u8>, String>)
        requires
            old(self).wf(),
        ensures
            final(self).wf(),
            (final(self)@, text::bytes_result(r)) == sessions_report(
                old(self)@,
                dest_addr@,
                report_ms as nat,
                now_ms as nat,
            ),
    {
        let key: u128 = key_of(dest_addr);
        let mut entry = match self.take(key) {
            Some(entry) => entry,
            None => return Err("no session for this destination".to_string()),
        };
        let report = match &mut entry.phase {
            SessionPhase::Established { receiver_state, .. } => Some(
                receiver_state.build_report(report_ms),
            ),
            _ => None,
        };
        self.put(key, entry);
        assert(self@.sessions =~= old(self)@.sessions.insert(key, self@.sessions[key]));
        match report {
            Some(report) => self.build_encrypted_session_message_at(
                dest_addr,
                report.as_slice(),
                now_ms,
            ),
            None => {
                assert(self@.sessions =~= old(self)@.sessions);
                Err("session not established".to_string())
            },
        }
    }

    /// Wrap an FSP payload in a SessionDatagram (link-layer msg_type 0x00 envelope).
    ///
    /// Returns the full link-layer inner payload (msg_type byte and datagram body).
    pub fn wrap_in_datagram(&self, dest_addr: &[u8; 16], fsp_payload: &[u8]) -> (r: Vec<u8>)
        ensures
            r@ == enveloped(self@, dest_addr@, fsp_payload@),
    {
        let body = wire::build_session_datagram_body(
            DEFAULT_TTL,
            DEFAULT_PATH_MTU,
            &self.our_addr,
            dest_addr,
            fsp_payload,
        );
        let mut out: Vec<u8> = Vec::new();
        out.push(wire::MSG_TYPE_SESSION_DATAGRAM);
        assert(out@ =~= seq![wire::MSG_TYPE_SESSION_DATAGRAM]);
        bytes::append(&mut out, body.as_slice());
        out
    }
}

// ============================================================================
// Laws
// ============================================================================

/// A payload in its envelope is found at the other end as it was put in.
pub proof fn law_envelope_opens(m: SessionsModel, dest: Seq<u8>, fsp_payload: Seq<u8>)
    requires
        m.addr.len() == 16,
        dest.len() == 16,
    ensures
        enveloped(m, dest, fsp_payload)[0] == wire::MSG_TYPE_SESSION_DATAGRAM,
        wire::parsed_datagram(enveloped(m, dest, fsp_payload).skip(1)) == Some(
            DatagramModel {
                ttl: DEFAULT_TTL,
                path_mtu: DEFAULT_PATH_MTU as nat,
                src_addr: m.addr,
                dest_addr: dest,
                payload: fsp_payload,
            },
        ),
{
    let d = DatagramModel {
        ttl: DEFAULT_TTL,
        path_mtu: DEFAULT_PATH_MTU as nat,
        src_addr: m.addr,
        dest_addr: dest,
        payload: fsp_payload,
    };
    wire::law_datagram_round_trip(d);
    assert(enveloped(m, dest, fsp_payload).skip(1) =~= wire::datagram_bytes(d));
}

/// The session that an address has after a step; other addresses keep theirs.
pub open spec fn only_touches(before: SessionsModel, after: SessionsModel, addr: Seq<u8>) -> bool {
    &&& after.coords == before.coords
    &&& after.addr == before.addr
    &&& forall|other: Seq<u8>|
        other.len() == 16 && other != addr ==> #[trigger] has_session(after, other) == has_session(
            before,
            other,
        ) && session_with(after, other) == session_with(before, other)
}

/// Whatever a node sends us, only its own session can change.
pub proof fn law_incoming_touches_one(
    m: SessionsModel,
    src: Seq<u8>,
    fsp_payload: Seq<u8>,
    epoch: Seq<u8>,
    secret: Seq<u8>,
    ephemeral: Seq<u8>,
    now: nat,
)
    requires
        src.len() == 16,
    ensures
        only_touches(
            m,
            sessions_incoming(m, src, fsp_payload, epoch, secret, ephemeral, now).0,
            src,
        ),
{
    let after = sessions_incoming(m, src, fsp_payload, epoch, secret, ephemeral, now).0;
    assert forall|other: Seq<u8>| other.len() == 16 && other != src implies #[trigger] has_session(
        after,
        other,
    ) == has_session(m, other) && session_with(after, other) == session_with(m, other) by {
        law_addr_keys(other, src);
    }
}

/// Sending to a node changes at most the session with that node.
pub proof fn law_send_touches_one(
    m: SessionsModel,
    dest: Seq<u8>,
    src_port: nat,
    dst_port: nat,
    payload: Seq<u8>,
    now: nat,
)
    requires
        dest.len() == 16,
    ensures
        only_touches(m, sessions_send(m, dest, src_port, dst_port, payload, now).0, dest),
{
    let after = sessions_send(m, dest, src_port, dst_port, payload, now).0;
    assert forall|other: Seq<u8>| other.len() == 16 && other != dest implies #[trigger] has_session(
        after,
        other,
    ) == has_session(m, other) && session_with(after, other) == session_with(m, other) by {
        law_addr_keys(other, dest);
    }
}

/// The two ends of a session: the initiator at one address, the responder at another.
#[verifier::ext_equal]
pub struct SessionEnds {
    pub initiator: SessionsModel,
    pub responder: SessionsModel,
    pub parties: noise_xk::XkParties,
    /// When the initiator starts, and when each of the three messages arrives.
    pub times: (nat, nat, nat, nat),
}

/// The keys are valid, the addresses are of 16 bytes and both coordinate lists fit their fields,
/// and the initiator has no session with the responder yet.
pub open spec fn ends_valid(x: SessionEnds) -> bool {
    &&& noise_xk::xk_parties_valid(x.parties)
    &&& x.initiator.addr.len() == 16
    &&& x.responder.addr.len() == 16
    &&& wire::all_addresses(x.initiator.coords)
    &&& wire::all_addresses(x.responder.coords)
    &&& x.initiator.coords.len() < 0x1_0000
    &&& x.responder.coords.len() < 0x1_0000
    &&& !has_session(x.initiator, x.responder.addr)
}

/// The initiator starts.
pub open spec fn ends_initiated(x: SessionEnds) -> (SessionsModel, Result<Seq<u8>, Seq<char>>) {
    sessions_initiate(
        x.initiator,
        x.responder.addr,
        x.parties.responder_key,
        x.parties.initiator_epoch,
        x.parties.initiator,
        x.parties.initiator_ephemeral,
        x.times.0,
    )
}

/// The responder gets the SessionSetup.
pub open spec fn ends_answered(x: SessionEnds) -> (
    SessionsModel,
    Result<EventModel, Seq<char>>,
) {
    sessions_incoming(
        x.responder,
        x.initiator.addr,
        ends_initiated(x).1->Ok_0,
        x.parties.responder_epoch,
        x.parties.responder,
        x.parties.responder_ephemeral,
        x.times.1,
    )
}

/// The initiator gets the SessionAck.
pub open spec fn ends_acked(x: SessionEnds) -> (SessionsModel, Result<EventModel, Seq<char>>) {
    sessions_incoming(
        ends_initiated(x).0,
        x.responder.addr,
        ends_answered(x).1->Ok_0.fsp_responses[0],
        x.parties.initiator_epoch,
        x.parties.initiator,
        x.parties.initiator_ephemeral,
        x.times.2,
    )
}

/// The responder gets the SessionMsg3.
pub open spec fn ends_finished(x: SessionEnds) -> (
    SessionsModel,
    Result<EventModel, Seq<char>>,
) {
    sessions_incoming(
        ends_answered(x).0,
        x.initiator.addr,
        ends_acked(x).1->Ok_0.fsp_responses[0],
        x.parties.responder_epoch,
        x.parties.responder,
        x.parties.responder_ephemeral,
        x.times.3,
    )
}

proof fn lemma_one_address(addr: Seq<u8>)
    requires
        addr.len() == 16,
    ensures
        wire::all_addresses(seq![addr]),
{
}

/// Whether two nodes are the ends of one session in one direction: the second opens with the key
/// that the first seals with, and has yet to see the counters that the first has yet to use.
pub open spec fn paired(sender: SessionsModel, receiver: SessionsModel) -> bool {
    &&& established_with(sender, receiver.addr)
    &&& established_with(receiver, sender.addr)
    &&& ({
        let s = session_with(sender, receiver.addr).phase;
        let r = session_with(receiver, sender.addr).phase;
        &&& s->send.key == r->recv.key
        &&& s->send.key is Some
        &&& s->send.nonce <= u64::MAX
        &&& forall|c: nat| c >= s->send.nonce ==> #[trigger] replay::replay_passes(r->replay, c)
    })
}

/// Three messages establish a session at both ends: each end learns who the other is, and sends
/// with the cipher that the other receives with.
pub proof fn law_session_establishes(x: SessionEnds)
    requires
        ends_valid(x),
    ensures
        ends_initiated(x).1 is Ok,
        ends_answered(x).1 is Ok,
        ends_acked(x).1 is Ok,
        ends_finished(x).1 is Ok,
        established_with(ends_acked(x).0, x.responder.addr),
        established_with(ends_finished(x).0, x.initiator.addr),
        ({
            let ours = session_with(ends_acked(x).0, x.responder.addr).phase;
            let theirs = session_with(ends_finished(x).0, x.initiator.addr).phase;
            &&& ours->send == theirs->recv
            &&& ours->recv == theirs->send
            &&& ours->send.key is Some
            &&& ours->send.nonce == 0
            &&& theirs->send.nonce == 0
            &&& ours->replay == replay::replay_empty()
            &&& theirs->replay == replay::replay_empty()
        }),
        paired(ends_acked(x).0, ends_finished(x).0),
        paired(ends_finished(x).0, ends_acked(x).0),
        ends_acked(x).1->Ok_0.remote_npub == Some(
            identity::npub_of(identity::identity_x_only(x.parties.responder)),
        ),
        ends_finished(x).1->Ok_0.remote_npub == Some(
            identity::npub_of(identity::identity_x_only(x.parties.initiator)),
        ),
{
    let p = x.parties;
    noise_xk::law_xk_msg1(p);
    noise_xk::law_xk_msg2(p);
    noise_xk::law_xk_msg3(p);
    noise_xk::law_xk_agreement(p);
    lemma_one_address(x.responder.addr);
    lemma_one_address(x.initiator.addr);
    let m1 = noise_xk::xk_run_msg1(p).1->Ok_0;
    let m2 = noise_xk::xk_run_msg2(p).1->Ok_0;
    let m3 = noise_xk::xk_run_msg3(p).1->Ok_0;
    let body1 = wire::setup_body(x.initiator.coords, seq![x.responder.addr], m1);
    let body2 = wire::setup_body(x.responder.coords, seq![x.initiator.addr], m2);
    let body3 = wire::msg3_body(m3);
    wire::law_setup_round_trip(x.initiator.coords, seq![x.responder.addr], m1);
    wire::law_setup_round_trip(x.responder.coords, seq![x.initiator.addr], m2);
    wire::law_msg3_round_trip(m3);
    wire::law_session_message_parts(wire::FSP_PHASE_SETUP, body1);
    wire::law_session_message_parts(wire::FSP_PHASE_ACK, body2);
    wire::law_session_message_parts(wire::FSP_PHASE_MSG3, body3);
    assert(ends_initiated(x).1 == Ok::<Seq<u8>, Seq<char>>(
        wire::session_message(wire::FSP_PHASE_SETUP, body1),
    ));
    assert(ends_answered(x).1->Ok_0.fsp_responses[0] == wire::session_message(
        wire::FSP_PHASE_ACK,
        body2,
    ));
    assert(ends_acked(x).1->Ok_0.fsp_responses[0] == wire::session_message(
        wire::FSP_PHASE_MSG3,
        body3,
    ));
}

/// Data sent on a session arrives: if the receiver's cipher has the sender's key and the counter
/// is new to it, the receiver gets the port and the payload, and the counter is then spent.
pub proof fn law_data_arrives(
    sender: SessionsModel,
    receiver: SessionsModel,
    src_port: u16,
    dst_port: u16,
    payload: Seq<u8>,
    sent_at: nat,
    received_at: nat,
)
    requires
        established_with(sender, receiver.addr),
        established_with(receiver, sender.addr),
        ({
            let s = session_with(sender, receiver.addr).phase;
            let r = session_with(receiver, sender.addr).phase;
            &&& s->send.key == r->recv.key
            &&& s->send.key is Some
            &&& s->send.nonce <= u64::MAX
            &&& replay::replay_passes(r->replay, s->send.nonce)
        }),
        sessions_send(
            sender,
            receiver.addr,
            src_port as nat,
            dst_port as nat,
            payload,
            sent_at,
        ).1 is Ok,
    ensures
        ({
            let packet = sessions_send(
                sender,
                receiver.addr,
                src_port as nat,
                dst_port as nat,
                payload,
                sent_at,
            ).1->Ok_0;
            let (after, event) = sessions_data(receiver, sender.addr, packet, received_at);
            &&& wire::phase_of(packet) == wire::FSP_PHASE_ESTABLISHED
            &&& event is Ok
            &&& event->Ok_0.kind == SessionEventKind::Data
            &&& event->Ok_0.payload == Some((dst_port as nat, payload))
            &&& established_with(after, sender.addr)
            &&& session_with(after, sender.addr).phase->replay == replay::replay_accepted(
                session_with(receiver, sender.addr).phase->replay,
                session_with(sender, receiver.addr).phase->send.nonce,
            )
        }),
{
    broadcast use bytes::lemma_le_bytes_len;

    let send = session_with(sender, receiver.addr).phase->send;
    let recv = session_with(receiver, sender.addr).phase->recv;
    let inner = data_packet(sent_at, src_port as nat, dst_port as nat, payload);
    let header = wire::fsp_header(0, inner.len(), send.nonce);
    bytes::lemma_le16_low(inner.len());
    let short = (inner.len() % 0x1_0000) as u16;
    assert(header == wire::fsp_header(0, short as nat, send.nonce));
    cipher::law_sealed_opens(send, recv, header, inner);
    let ciphertext = cipher::cipher_sealed(send, header, inner).1->Ok_0;
    wire::law_fsp_header_round_trip(0, short, send.nonce as u64, ciphertext);
    let packet = header + ciphertext;
    bytes::lemma_le_integers(src_port, 0, 0);
    bytes::lemma_le_integers(dst_port, 0, 0);
    assert(inner.subrange(8, 10) =~= bytes::le_bytes(dst_port as nat, 2));
    assert(inner.skip(10) =~= payload);
    assert(inner[4] == wire::FSP_MSG_TYPE_DATA);
    let (after, event) = sessions_data(receiver, sender.addr, packet, received_at);
    assert(data_offset(packet) == Ok::<int, Seq<char>>(12));
}

/// On an established session data can be sent as long as there is a counter left and one message
/// can hold it.
pub proof fn law_send_succeeds(
    m: SessionsModel,
    dest: Seq<u8>,
    src_port: nat,
    dst_port: nat,
    payload: Seq<u8>,
    now: nat,
)
    requires
        established_with(m, dest),
        session_with(m, dest).phase->send.key is Some,
    ensures
        sessions_send(m, dest, src_port, dst_port, payload, now).1 is Ok <==> session_with(
            m,
            dest,
        ).phase->send.nonce != u64::MAX && payload.len() + 10 <= crate::crypto::AEAD_MAX_MESSAGE,
{
    broadcast use bytes::lemma_le_bytes_len;

    assert(data_packet(now, src_port, dst_port, payload).len() == payload.len() + 10);
}

/// Everything that is sent on a session arrives, one message after another: the ends of a session
/// stay its ends when a message went from one to the other, so that the next one arrives too.
pub proof fn law_session_lasts(
    sender: SessionsModel,
    receiver: SessionsModel,
    src_port: u16,
    dst_port: u16,
    payload: Seq<u8>,
    sent_at: nat,
    received_at: nat,
)
    requires
        paired(sender, receiver),
        sessions_send(
            sender,
            receiver.addr,
            src_port as nat,
            dst_port as nat,
            payload,
            sent_at,
        ).1 is Ok,
    ensures
        ({
            let (sent, packet) = sessions_send(
                sender,
                receiver.addr,
                src_port as nat,
                dst_port as nat,
                payload,
                sent_at,
            );
            let (received, event) = sessions_data(
                receiver,
                sender.addr,
                packet->Ok_0,
                received_at,
            );
            &&& event is Ok
            &&& event->Ok_0.payload == Some((dst_port as nat, payload))
            &&& paired(sent, received)
            &&& session_with(received, sender.addr).last_activity == received_at
        }),
{
    law_data_arrives(sender, receiver, src_port, dst_port, payload, sent_at, received_at);
    let (sent, packet) = sessions_send(
        sender,
        receiver.addr,
        src_port as nat,
        dst_port as nat,
        payload,
        sent_at,
    );
    let (received, event) = sessions_data(receiver, sender.addr, packet->Ok_0, received_at);
    let nonce = session_with(sender, receiver.addr).phase->send.nonce;
    let before = session_with(receiver, sender.addr).phase->replay;
    let after = session_with(received, sender.addr).phase->replay;
    assert(after == replay::replay_accepted(before, nonce));
    assert forall|c: nat| c >= nonce + 1 implies #[trigger] replay::replay_passes(after, c) by {
        assert(replay::replay_passes(before, c));
        assert(replay::replay_passes(before, nonce));
        if before.highest > nonce {
            assert(replay::replay_passes(before, before.highest));
        }
    }
}

/// A packet whose counter was accepted before is refused as a replay, and nothing but the time of
/// the last activity changes.
pub proof fn law_replay_is_refused(m: SessionsModel, src: Seq<u8>, packet: Seq<u8>, now: nat)
    requires
        established_with(m, src),
        wire::has_fsp_header(packet),
        data_offset(packet) is Ok,
        !replay::replay_passes(session_with(m, src).phase->replay, wire::fsp_counter_of(packet)),
    ensures
        ({
            let (after, event) = sessions_data(m, src, packet, now);
            &&& event is Ok
            &&& event->Ok_0.kind == SessionEventKind::Replay
            &&& event->Ok_0.payload is None
            &&& after == with_session(m, src, session_touched(session_with(m, src), now))
        }),
{
}

/// A packet that does not open is refused with the reason, and nothing but the time of the last
/// activity changes: its counter stays free for the packet that it belongs to.
pub proof fn law_bad_packet_changes_nothing(
    m: SessionsModel,
    src: Seq<u8>,
    packet: Seq<u8>,
    now: nat,
)
    requires
        established_with(m, src),
        wire::has_fsp_header(packet),
        data_offset(packet) is Ok,
        replay::replay_passes(session_with(m, src).phase->replay, wire::fsp_counter_of(packet)),
        cipher::cipher_opened_at(
            session_with(m, src).phase->recv,
            wire::fsp_counter_of(packet),
            packet.take(12),
            packet.skip(data_offset(packet)->Ok_0),
        ) is Err,
    ensures
        ({
            let (after, event) = sessions_data(m, src, packet, now);
            &&& event == Err::<EventModel, Seq<char>>(
                "session decrypt failed: "@ + cipher::cipher_opened_at(
                    session_with(m, src).phase->recv,
                    wire::fsp_counter_of(packet),
                    packet.take(12),
                    packet.skip(data_offset(packet)->Ok_0),
                )->Err_0,
            )
            &&& after == with_session(m, src, session_touched(session_with(m, src), now))
        }),
{
}

/// Pruning keeps exactly the sessions that have not been idle longer than the threshold.
pub proof fn law_prune_keeps_active(m: SessionsModel, max_idle_ms: nat, now: nat, addr: Seq<u8>)
    ensures
        has_session(sessions_pruned(m, max_idle_ms, now), addr) <==> has_session(m, addr)
            && idle_ms(session_with(m, addr), now) <= max_idle_ms,
        has_session(sessions_pruned(m, max_idle_ms, now), addr) ==> session_with(
            sessions_pruned(m, max_idle_ms, now),
            addr,
        ) == session_with(m, addr),
{
}

/// Sending data is activity, whatever comes of it: a session on which we sent at a time is last
/// active at that time, and pruning keeps it as long as no more than the threshold has passed
/// since. When it was created does not change.
pub proof fn law_sending_is_activity(
    m: SessionsModel,
    dest: Seq<u8>,
    src_port: nat,
    dst_port: nat,
    payload: Seq<u8>,
    sent_at: nat,
    max_idle_ms: nat,
    pruned_at: nat,
)
    requires
        has_session(m, dest),
        pruned_at <= sent_at + max_idle_ms,
    ensures
        ({
            let after = sessions_send(m, dest, src_port, dst_port, payload, sent_at).0;
            let kept = sessions_pruned(after, max_idle_ms, pruned_at);
            &&& has_session(after, dest)
            &&& session_with(after, dest).last_activity == sent_at
            &&& session_with(after, dest).created_at == session_with(m, dest).created_at
            &&& has_session(kept, dest)
            &&& session_with(kept, dest) == session_with(after, dest)
        }),
{
}

/// Session data that comes in is activity, even where it is a replay or does not open.
pub proof fn law_receiving_is_activity(
    m: SessionsModel,
    src: Seq<u8>,
    packet: Seq<u8>,
    received_at: nat,
    max_idle_ms: nat,
    pruned_at: nat,
)
    requires
        has_session(m, src),
        packet.len() >= 28,
        data_offset(packet) is Ok,
        pruned_at <= received_at + max_idle_ms,
    ensures
        ({
            let after = sessions_data(m, src, packet, received_at).0;
            &&& has_session(after, src)
            &&& session_with(after, src).last_activity == received_at
            &&& session_with(after, src).created_at == session_with(m, src).created_at
            &&& has_session(sessions_pruned(after, max_idle_ms, pruned_at), src)
        }),
{
}

/// Reports and other messages are no activity.
pub proof fn law_reporting_is_no_activity(
    m: SessionsModel,
    dest: Seq<u8>,
    message: Seq<u8>,
    report_ms: nat,
    now: nat,
)
    requires
        has_session(m, dest),
    ensures
        ({
            let sent = sessions_send_message(m, dest, message, now).0;
            let reported = sessions_report(m, dest, report_ms, now).0;
            let before = session_with(m, dest);
            &&& has_session(sent, dest)
            &&& session_with(sent, dest).last_activity == before.last_activity
            &&& session_with(sent, dest).created_at == before.created_at
            &&& has_session(reported, dest)
            &&& session_with(reported, dest).last_activity == before.last_activity
            &&& session_with(reported, dest).created_at == before.created_at
        }),
{
}

/// Pruning goes by the time of the last activity alone: a session stays, as it is, if and only if
/// no more than the threshold has passed since.
pub proof fn law_prune_goes_by_last_activity(
    m: SessionsModel,
    max_idle_ms: nat,
    now: nat,
    addr: Seq<u8>,
)
    ensures
        ({
            let after = sessions_pruned(m, max_idle_ms, now);
            &&& has_session(after, addr) <==> has_session(m, addr) && now <= session_with(
                m,
                addr,
            ).last_activity + max_idle_ms
            &&& has_session(after, addr) ==> session_with(after, addr) == session_with(m, addr)
            &&& after.coords == m.coords
            &&& after.addr == m.addr
        }),
{
}

/// What is listed of a session: its address, its status, and in whole seconds how long ago it was
/// last active and how long ago it was created. A time to come counts as now.
pub proof fn law_listed_times(addr: Seq<u8>, s: SessionModel, now: nat)
    requires
        addr.len() == 16,
    ensures
        ({
            let (shown, status, idle, age) = info_of(addr_key(addr), s, now);
            &&& shown == addr
            &&& now >= s.last_activity ==> 1000 * idle <= now - s.last_activity < 1000 * (idle + 1)
            &&& now < s.last_activity ==> idle == 0
            &&& now >= s.created_at ==> 1000 * age <= now - s.created_at < 1000 * (age + 1)
            &&& now < s.created_at ==> age == 0
            &&& s.phase is Initiating ==> status == "initiating"@
            &&& s.phase is AwaitingMsg3 ==> status == "awaiting_msg3"@
            &&& s.phase is Established ==> status == "established"@
        }),
{
    law_addr_keys(addr, addr);
}

/// The list of all sessions shows each of them, and none twice.
pub proof fn law_list_is_complete(
    list: Seq<SessionInfo>,
    order: Seq<u128>,
    m: SessionsModel,
    now: nat,
    addr: Seq<u8>,
)
    requires
        shows_all(list, order, m, now),
        addr.len() == 16,
    ensures
        list.len() == m.sessions.dom().len(),
        has_session(m, addr) ==> exists|i: int|
            0 <= i < list.len() && info_value(#[trigger] list[i]) == info_of(
                addr_key(addr),
                session_with(m, addr),
                now,
            ),
        forall|i: int, j: int|
            0 <= i < j < list.len() ==> #[trigger] list[i].node_addr@
                != #[trigger] list[j].node_addr@,
{
    order.unique_seq_to_set();
    if has_session(m, addr) {
        assert(order.to_set().contains(addr_key(addr)));
        let i = choose|i: int| 0 <= i < order.len() && order[i] == addr_key(addr);
        assert(info_value(list[i]) == info_of(addr_key(addr), session_with(m, addr), now));
    }
    assert forall|i: int, j: int| 0 <= i < j < list.len() implies #[trigger] list[i].node_addr@
        != #[trigger] list[j].node_addr@ by {
        lemma_key_of_bytes(order[i]);
        lemma_key_of_bytes(order[j]);
        assert(info_value(list[i]) == info_of(order[i], m.sessions[order[i]], now));
        assert(info_value(list[j]) == info_of(order[j], m.sessions[order[j]], now));
        assert(order[i] != order[j]);
    }
}

/// A data packet, written out: two zeros, the length of what is sealed, the counter; then, sealed
/// under the session's key and that counter with those twelve bytes as associated data, the
/// timestamp, type 0x10 and a zero, both ports, and the payload. One counter is spent, and nothing
/// else of the session but its last activity changes.
pub proof fn law_sent_data_layout(
    m: SessionsModel,
    dest: Seq<u8>,
    src_port: u16,
    dst_port: u16,
    payload: Seq<u8>,
    now: nat,
)
    requires
        established_with(m, dest),
        session_with(m, dest).phase->send.key is Some,
        session_with(m, dest).phase->send.nonce < u64::MAX,
        payload.len() + 10 <= crate::crypto::AEAD_MAX_MESSAGE,
    ensures
        ({
            let before = session_with(m, dest).phase;
            let (after, r) = sessions_send(
                m,
                dest,
                src_port as nat,
                dst_port as nat,
                payload,
                now,
            );
            let sent = session_with(after, dest).phase;
            let inner = bytes::le_bytes(now % 0x1_0000_0000, 4) + seq![0x10u8, 0u8]
                + bytes::le_bytes(src_port as nat, 2) + bytes::le_bytes(dst_port as nat, 2)
                + payload;
            let header = seq![0u8, 0u8] + bytes::le_bytes(inner.len(), 2) + bytes::le_bytes(
                before->send.nonce,
                8,
            );
            &&& r == Ok::<Seq<u8>, Seq<char>>(
                header + cipher::cipher_sealed(before->send, header, inner).1->Ok_0,
            )
            &&& r->Ok_0.len() == 12 + inner.len() + 16
            &&& sent is Established
            &&& sent->send.key == before->send.key
            &&& sent->send.nonce == before->send.nonce + 1
            &&& sent->recv == before->recv
            &&& sent->replay == before->replay
            &&& sent->receiver == before->receiver
        }),
{
    broadcast use bytes::lemma_le_bytes_len;

    let inner = bytes::le_bytes(now % 0x1_0000_0000, 4) + seq![0x10u8, 0u8] + bytes::le_bytes(
        src_port as nat,
        2,
    ) + bytes::le_bytes(dst_port as nat, 2) + payload;
    assert(data_packet(now, src_port as nat, dst_port as nat, payload) =~= inner);
}

/// Any other message is sealed in the same way, behind its timestamp; a report is such a message.
pub proof fn law_sent_message_layout(
    m: SessionsModel,
    dest: Seq<u8>,
    message: Seq<u8>,
    report_ms: nat,
    now: nat,
)
    requires
        established_with(m, dest),
        session_with(m, dest).phase->send.key is Some,
        session_with(m, dest).phase->send.nonce < u64::MAX,
        message.len() + 4 <= crate::crypto::AEAD_MAX_MESSAGE,
    ensures
        ({
            let before = session_with(m, dest).phase;
            let (after, r) = sessions_send_message(m, dest, message, now);
            let sent = session_with(after, dest).phase;
            let inner = bytes::le_bytes(now % 0x1_0000_0000, 4) + message;
            let header = seq![0u8, 0u8] + bytes::le_bytes(inner.len(), 2) + bytes::le_bytes(
                before->send.nonce,
                8,
            );
            &&& r == Ok::<Seq<u8>, Seq<char>>(
                header + cipher::cipher_sealed(before->send, header, inner).1->Ok_0,
            )
            &&& sent is Established
            &&& sent->send.key == before->send.key
            &&& sent->send.nonce == before->send.nonce + 1
            &&& sent->recv == before->recv
            &&& sent->replay == before->replay
            &&& sent->receiver == before->receiver
        }),
        ({
            let before = session_with(m, dest).phase;
            let (after, r) = sessions_report(m, dest, report_ms, now);
            let sent = session_with(after, dest).phase;
            &&& r == sessions_send_message(
                m,
                dest,
                mmp::receiver_report(before->receiver, report_ms),
                now,
            ).1
            &&& sent is Established
            &&& sent->receiver == mmp::receiver_reported(before->receiver)
            &&& sent->recv == before->recv
            &&& sent->replay == before->replay
        }),
{
    broadcast use bytes::lemma_le_bytes_len;

}

/// Without a session, or before it is established, nothing can be sent and nothing changes but
/// the time of an attempt to send data.
pub proof fn law_no_session_no_sending(
    m: SessionsModel,
    dest: Seq<u8>,
    src_port: nat,
    dst_port: nat,
    payload: Seq<u8>,
    report_ms: nat,
    now: nat,
)
    requires
        !established_with(m, dest),
    ensures
        ({
            let (a, data) = sessions_send(m, dest, src_port, dst_port, payload, now);
            let (b, message) = sessions_send_message(m, dest, payload, now);
            let (c, report) = sessions_report(m, dest, report_ms, now);
            &&& data is Err && message is Err && report is Err
            &&& !has_session(m, dest) ==> a == m && b == m && c == m
            &&& !has_session(m, dest) ==> data->Err_0
                == "no established session for this destination"@ && message->Err_0
                == "no established session for this destination"@ && report->Err_0
                == "no session for this destination"@
            &&& has_session(m, dest) ==> data->Err_0 == "session not established"@ && message->Err_0
                == "session not established"@ && report->Err_0 == "session not established"@
            &&& has_session(m, dest) ==> session_with(a, dest).phase == session_with(m, dest).phase
                && session_with(b, dest) == session_with(m, dest) && session_with(c, dest)
                == session_with(m, dest)
        }),
{
}

/// Where the ciphertext of session data starts: at byte 12, unless the lowest bit of the flags says
/// that two lists of addresses stand before it.
pub proof fn law_ciphertext_starts_behind_coords(packet: Seq<u8>)
    requires
        packet.len() >= 28,
    ensures
        ({
            let n = packet[12] + 0x100 * packet[13];
            let p = 14 + 16 * n;
            let k = packet[p] + 0x100 * packet[p + 1];
            let q = p + 2 + 16 * k;
            let r = data_offset(packet);
            &&& packet[1] % 2 == 0 ==> r == Ok::<int, Seq<char>>(12)
            &&& packet[1] % 2 == 1 ==> (r is Ok <==> p + 2 <= packet.len() && q <= packet.len())
            &&& packet[1] % 2 == 1 && r is Ok ==> r->Ok_0 == q
            &&& packet[1] % 2 == 1 && p > packet.len() ==> r->Err_0 == "invalid src coords in CP"@
            &&& packet[1] % 2 == 1 && p <= packet.len() && r is Err ==> r->Err_0
                == "invalid dest coords in CP"@
        }),
{
    wire::law_coords_are_read_in_place(packet, 12);
    wire::law_coords_are_read_in_place(packet, 14 + 16 * (packet[12] + 0x100 * packet[13]));
}

/// What a decrypted message says: its fifth byte tells what it is. Data has both ports, of which
/// the second is where it goes, and then the payload; reports bring nothing but themselves.
pub proof fn law_messages_are_told_apart(src: Seq<u8>, plaintext: Seq<u8>)
    requires
        plaintext.len() >= 6,
    ensures
        ({
            let r = message_event(src, plaintext);
            let e = r->Ok_0;
            &&& r is Err <==> plaintext[4] == 0x10 && plaintext.len() < 10
            &&& r is Ok ==> e.from == src && e.remote_npub is None && e.fsp_responses.len() == 0
            &&& r is Ok && plaintext[4] == 0x10 ==> e.kind == SessionEventKind::Data && e.payload
                == Some(
                ((plaintext[8] + 0x100 * plaintext[9]) as nat, plaintext.subrange(
                    10,
                    plaintext.len() as int,
                )),
            )
            &&& plaintext[4] == 1 ==> e.kind == SessionEventKind::SenderReport && e.payload is None
            &&& plaintext[4] == 2 ==> e.kind == SessionEventKind::ReceiverReport && e.payload is None
            &&& plaintext[4] != 0x10 && plaintext[4] != 1 && plaintext[4] != 2 ==> e.kind
                == SessionEventKind::Other && e.payload is None
        }),
{
    if plaintext.len() >= 10 {
        bytes::law_le_value_weighs_bytes(plaintext.subrange(8, 10));
        assert(plaintext.skip(10) =~= plaintext.subrange(10, plaintext.len() as int));
    }
}

/// Session data that is new and opens is accepted: its counter is spent, the frame is counted with
/// its size on the wire and its timestamp, and what it says is told. The keys stay.
pub proof fn law_good_packet_is_accepted(
    m: SessionsModel,
    src: Seq<u8>,
    packet: Seq<u8>,
    plaintext: Seq<u8>,
    now: nat,
)
    requires
        established_with(m, src),
        packet.len() >= 28,
        data_offset(packet) is Ok,
        replay::replay_passes(session_with(m, src).phase->replay, wire::fsp_counter_of(packet)),
        cipher::cipher_opened_at(
            session_with(m, src).phase->recv,
            wire::fsp_counter_of(packet),
            packet.subrange(0, 12),
            packet.skip(data_offset(packet)->Ok_0),
        ) == Ok::<Seq<u8>, Seq<char>>(plaintext),
        plaintext.len() >= 6,
    ensures
        ({
            let (after, event) = sessions_data(m, src, packet, now);
            let before = session_with(m, src).phase;
            let phase = session_with(after, src).phase;
            let counter = wire::fsp_counter_of(packet);
            &&& event == message_event(src, plaintext)
            &&& phase is Established
            &&& phase->send == before->send
            &&& phase->recv == before->recv
            &&& phase->replay == replay::replay_accepted(before->replay, counter)
            &&& phase->receiver == mmp::receiver_recorded(
                before->receiver,
                counter,
                (plaintext[0] + 0x100 * plaintext[1] + 0x1_0000 * plaintext[2] + 0x100_0000
                    * plaintext[3]) as nat,
                packet.len(),
                now,
            )
        }),
{
    assert(packet.take(12) =~= packet.subrange(0, 12));
    bytes::law_le_value_weighs_bytes(plaintext.take(4));
}

/// A session is started with a SessionSetup that carries our coordinates, the destination as its
/// own, and the first handshake message. It is then created and active now. Where there is a
/// session already, none is started.
pub proof fn law_initiating(
    m: SessionsModel,
    dest: Seq<u8>,
    dest_key: Seq<u8>,
    epoch: Seq<u8>,
    secret: Seq<u8>,
    ephemeral: Seq<u8>,
    now: nat,
)
    ensures
        ({
            let (after, r) = sessions_initiate(
                m,
                dest,
                dest_key,
                epoch,
                secret,
                ephemeral,
                now,
            );
            let (hs, msg1) = noise_xk::xk_write_msg1(
                noise_xk::xk_initiator(secret, dest_key, epoch),
                ephemeral,
            );
            &&& r is Ok <==> !has_session(m, dest)
            &&& established_with(m, dest) ==> r->Err_0
                == "session already established for this destination"@
            &&& has_session(m, dest) && !established_with(m, dest) ==> r->Err_0
                == "session handshake already in progress for this destination"@
            &&& r is Err ==> after == m
            &&& r is Ok ==> r->Ok_0 == wire::session_message(
                1,
                wire::setup_body(m.coords, seq![dest], crate::crypto::secp256k1_public(ephemeral)@),
            )
            &&& r is Ok ==> session_with(after, dest) == (SessionModel {
                phase: PhaseModel::Initiating(hs),
                created_at: now,
                last_activity: now,
            })
        }),
{
}

/// The three handshake messages of a session are those of the XK handshake: the first and the
/// second travel with the coordinates of their sender and the address of the other end, the third
/// alone; and both ends then use the ciphers that the handshake ends with. The session counts as
/// created and active when it is established, has seen no counter and counted no frame.
pub proof fn law_session_runs_xk(x: SessionEnds)
    requires
        ends_valid(x),
    ensures
        ({
            let p = x.parties;
            let ours = session_with(ends_acked(x).0, x.responder.addr);
            let theirs = session_with(ends_finished(x).0, x.initiator.addr);
            let sent = noise_xk::xk_transport(noise_xk::xk_run_msg3(p).0)->Ok_0;
            let got = noise_xk::xk_transport(noise_xk::xk_run_heard3(p).0)->Ok_0;
            &&& ends_initiated(x).1->Ok_0 == wire::session_message(
                1,
                wire::setup_body(
                    x.initiator.coords,
                    seq![x.responder.addr],
                    noise_xk::xk_run_msg1(p).1->Ok_0,
                ),
            )
            &&& ends_answered(x).1->Ok_0.fsp_responses == seq![
                wire::session_message(
                    2,
                    wire::setup_body(
                        x.responder.coords,
                        seq![x.initiator.addr],
                        noise_xk::xk_run_msg2(p).1->Ok_0,
                    ),
                ),
            ]
            &&& ends_acked(x).1->Ok_0.fsp_responses == seq![
                wire::session_message(3, wire::msg3_body(noise_xk::xk_run_msg3(p).1->Ok_0)),
            ]
            &&& ends_finished(x).1->Ok_0.fsp_responses.len() == 0
            &&& ends_answered(x).1->Ok_0.kind == SessionEventKind::Setup
            &&& ends_acked(x).1->Ok_0.kind == SessionEventKind::Ack
            &&& ends_finished(x).1->Ok_0.kind == SessionEventKind::Msg3
            &&& ours.phase->send == sent.0
            &&& ours.phase->recv == sent.1
            &&& theirs.phase->send == got.0
            &&& theirs.phase->recv == got.1
            &&& ours.created_at == x.times.2 && ours.last_activity == x.times.2
            &&& theirs.created_at == x.times.3 && theirs.last_activity == x.times.3
            &&& ours.phase->replay.seen == Set::<nat>::empty() && ours.phase->replay.highest == 0
            &&& theirs.phase->replay.seen == Set::<nat>::empty() && theirs.phase->replay.highest
                == 0
            &&& ours.phase->receiver == mmp::receiver_new()
            &&& theirs.phase->receiver == mmp::receiver_new()
        }),
{
    law_session_establishes(x);
    let p = x.parties;
    noise_xk::law_xk_msg1(p);
    noise_xk::law_xk_msg2(p);
    noise_xk::law_xk_msg3(p);
    lemma_one_address(x.responder.addr);
    lemma_one_address(x.initiator.addr);
    let m1 = noise_xk::xk_run_msg1(p).1->Ok_0;
    let m2 = noise_xk::xk_run_msg2(p).1->Ok_0;
    let m3 = noise_xk::xk_run_msg3(p).1->Ok_0;
    let body1 = wire::setup_body(x.initiator.coords, seq![x.responder.addr], m1);
    let body2 = wire::setup_body(x.responder.coords, seq![x.initiator.addr], m2);
    let body3 = wire::msg3_body(m3);
    wire::law_setup_round_trip(x.initiator.coords, seq![x.responder.addr], m1);
    wire::law_setup_round_trip(x.responder.coords, seq![x.initiator.addr], m2);
    wire::law_msg3_round_trip(m3);
    wire::law_session_message_parts(1, body1);
    wire::law_session_message_parts(2, body2);
    wire::law_session_message_parts(3, body3);
}

/// A SessionSetup is answered to whoever sends a readable one, and replaces the session that was
/// there; one that cannot be read changes nothing.
pub proof fn law_setup_starts_over(
    m: SessionsModel,
    src: Seq<u8>,
    body: Seq<u8>,
    epoch: Seq<u8>,
    secret: Seq<u8>,
    ephemeral: Seq<u8>,
    now: nat,
)
    ensures
        ({
            let (after, r) = sessions_setup(m, src, body, epoch, secret, ephemeral, now);
            let read = wire::parsed_setup(body);
            let msg1 = (read->0).2;
            &&& r is Ok <==> read is Some && msg1.len() == 33 && crate::crypto::secp256k1_point(
                msg1,
            ) is Some
            &&& r is Err ==> after == m
            &&& read is None ==> r->Err_0 == "invalid SessionSetup body"@
            &&& r is Ok ==> {
                let s = session_with(after, src);
                &&& s.phase is AwaitingMsg3
                &&& s.created_at == now && s.last_activity == now
                &&& r->Ok_0.fsp_responses.len() == 1
                &&& r->Ok_0.from == src
                &&& r->Ok_0.payload is None && r->Ok_0.remote_npub is None
            }
        }),
{
}

/// A SessionAck counts only where a session waits for it, and a SessionMsg3 likewise. One that is
/// bad ends the session; one that nobody waits for changes nothing.
pub proof fn law_answers_count_where_awaited(
    m: SessionsModel,
    src: Seq<u8>,
    body: Seq<u8>,
    now: nat,
)
    ensures
        ({
            let (a, ack) = sessions_ack(m, src, body, now);
            let (b, msg3) = sessions_msg3(m, src, body, now);
            let phase = session_with(m, src).phase;
            &&& ack is Ok ==> has_session(m, src) && phase is Initiating && established_with(a, src)
                && session_with(a, src).last_activity == now && session_with(a, src).created_at
                == now
            &&& msg3 is Ok ==> has_session(m, src) && phase is AwaitingMsg3 && established_with(
                b,
                src,
            ) && session_with(b, src).last_activity == now && session_with(b, src).created_at == now
            &&& !has_session(m, src) || !(phase is Initiating) || wire::parsed_setup(body) is None
                ==> ack is Err && a == m
            &&& !has_session(m, src) || !(phase is AwaitingMsg3) || wire::parsed_msg3(body) is None
                ==> msg3 is Err && b == m
            &&& ack is Err && a != m ==> !has_session(a, src) && a.sessions == m.sessions.remove(
                addr_key(src),
            )
            &&& msg3 is Err && b != m ==> !has_session(b, src) && b.sessions == m.sessions.remove(
                addr_key(src),
            )
        }),
{
}

/// An incoming payload is told apart by the lower half of its first byte.
pub proof fn law_payloads_are_told_apart(
    m: SessionsModel,
    src: Seq<u8>,
    payload: Seq<u8>,
    epoch: Seq<u8>,
    secret: Seq<u8>,
    ephemeral: Seq<u8>,
    now: nat,
)
    ensures
        ({
            let r = sessions_incoming(m, src, payload, epoch, secret, ephemeral, now);
            let phase = payload[0] % 16;
            let body = payload.subrange(4, payload.len() as int);
            &&& payload.len() < 4 ==> r == (
                m,
                Err::<EventModel, Seq<char>>("FSP payload too short"@),
            )
            &&& payload.len() >= 4 && phase == 0 ==> r == sessions_data(m, src, payload, now)
            &&& payload.len() >= 4 && phase == 1 ==> r == sessions_setup(
                m,
                src,
                body,
                epoch,
                secret,
                ephemeral,
                now,
            )
            &&& payload.len() >= 4 && phase == 2 ==> r == sessions_ack(m, src, body, now)
            &&& payload.len() >= 4 && phase == 3 ==> r == sessions_msg3(m, src, body, now)
            &&& payload.len() >= 4 && phase > 3 ==> r.0 == m && r.1 is Err
        }),
{
    if payload.len() >= 4 {
        assert(payload.skip(4) =~= payload.subrange(4, payload.len() as int));
    }
}

/// The envelope of a session payload: type zero, 64 hops, an MTU of 65535, our address, theirs, and
/// the payload.
pub proof fn law_envelope_layout(m: SessionsModel, dest: Seq<u8>, payload: Seq<u8>)
    requires
        m.addr.len() == 16,
        dest.len() == 16,
    ensures
        ({
            let b = enveloped(m, dest, payload);
            &&& b.len() == 36 + payload.len()
            &&& b.subrange(0, 4) == seq![0u8, 64u8, 0xffu8, 0xffu8]
            &&& b.subrange(4, 20) == m.addr
            &&& b.subrange(20, 36) == dest
            &&& b.subrange(36, b.len() as int) == payload
        }),
{
    broadcast use bytes::lemma_le_bytes_len;

    reveal_with_fuel(bytes::le_bytes, 3);
    let b = enveloped(m, dest, payload);
    assert(b.subrange(0, 4) =~= seq![0u8, 64u8, 0xffu8, 0xffu8]);
    assert(b.subrange(4, 20) =~= m.addr);
    assert(b.subrange(20, 36) =~= dest);
    assert(b.subrange(36, b.len() as int) =~= payload);
}

/// Session data that is refused: without a whole header, with coordinates that cannot be read, or
/// from a node with no session it changes nothing. Where the session is not established, where the
/// counter was seen, and where the data does not open, the session only counts as active; and where
/// it opens to less than six bytes, the counter is spent, but no frame is counted.
pub proof fn law_refused_data(m: SessionsModel, src: Seq<u8>, packet: Seq<u8>, now: nat)
    ensures
        ({
            let (after, r) = sessions_data(m, src, packet, now);
            let whole = packet.len() >= 28;
            let offset = data_offset(packet);
            let before = session_with(m, src);
            let touched = SessionModel { last_activity: now, ..before };
            let counter = wire::fsp_counter_of(packet);
            let reaches = whole && offset is Ok && has_session(m, src);
            let up = reaches && before.phase is Established;
            let fresh = replay::replay_passes(before.phase->replay, counter);
            let opened = cipher::cipher_opened_at(
                before.phase->recv,
                counter,
                packet.subrange(0, 12),
                packet.skip(offset->Ok_0),
            );
            &&& !reaches ==> after == m && r is Err
            &&& !whole ==> r->Err_0 == "invalid FSP header"@
            &&& whole && offset is Err ==> r->Err_0 == offset->Err_0
            &&& whole && offset is Ok && !has_session(m, src) ==> r->Err_0
                == "no established session for this source"@
            &&& reaches && !up ==> session_with(after, src) == touched && r == Err::<
                EventModel,
                Seq<char>,
            >("session not in Established state for data"@)
            &&& up && !fresh ==> {
                &&& session_with(after, src) == touched
                &&& r is Ok
                &&& r->Ok_0.kind == SessionEventKind::Replay
                &&& r->Ok_0.info == "Session replay detected: counter "@ + text::decimal(counter)
                &&& r->Ok_0.from == src
                &&& r->Ok_0.payload is None && r->Ok_0.remote_npub is None
                &&& r->Ok_0.fsp_responses.len() == 0
            }
            &&& up && fresh && opened is Err ==> session_with(after, src) == touched && r == Err::<
                EventModel,
                Seq<char>,
            >("session decrypt failed: "@ + opened->Err_0)
            &&& up && fresh && opened is Ok && opened->Ok_0.len() < 6 ==> {
                let phase = session_with(after, src).phase;
                &&& r == Err::<EventModel, Seq<char>>("FSP inner header too short"@)
                &&& phase is Established
                &&& phase->replay == replay::replay_accepted(before.phase->replay, counter)
                &&& phase->receiver == before.phase->receiver
                &&& phase->send == before.phase->send
                &&& phase->recv == before.phase->recv
            }
        }),
{
    if packet.len() >= 28 {
        assert(packet.take(12) =~= packet.subrange(0, 12));
    }
}

/// What is said of a decrypted message: of data, both ports and the size; of any other message than
/// a report, its type and the size of everything.
pub proof fn law_messages_in_words(src: Seq<u8>, plaintext: Seq<u8>)
    requires
        plaintext.len() >= 6,
    ensures
        ({
            let r = message_event(src, plaintext);
            let info = r->Ok_0.info;
            let kind = plaintext[4];
            let from = (plaintext[6] + 0x100 * plaintext[7]) as nat;
            let to = (plaintext[8] + 0x100 * plaintext[9]) as nat;
            &&& kind == 0x10 && plaintext.len() < 10 ==> r == Err::<EventModel, Seq<char>>(
                "DataPacket too short for port header"@,
            )
            &&& kind == 0x10 && plaintext.len() >= 10 ==> info == "Session data: src_port="@
                + text::decimal(from) + " dst_port="@ + text::decimal(to) + " "@ + text::decimal(
                (plaintext.len() - 10) as nat,
            ) + " bytes"@
            &&& kind == 1 ==> info == "Session SenderReport received"@
            &&& kind == 2 ==> info == "Session ReceiverReport received"@
            &&& kind != 0x10 && kind != 1 && kind != 2 ==> info == "Session msg_type 0x"@
                + text::hex_byte(kind) + " ("@ + text::decimal(plaintext.len()) + " bytes)"@
        }),
{
    if plaintext.len() >= 10 {
        bytes::law_le_value_weighs_bytes(plaintext.subrange(6, 8));
        bytes::law_le_value_weighs_bytes(plaintext.subrange(8, 10));
    }
}

/// A SessionAck that a session waits for is read as the second handshake message. A good one is
/// answered with the third, and the session takes the ciphers that the handshake then gives; a bad
/// one takes the session away, with its fault as the answer. The peer is named by its key.
pub proof fn law_awaited_ack(
    m: SessionsModel,
    src: Seq<u8>,
    body: Seq<u8>,
    hs: XkModel,
    now: nat,
)
    requires
        has_session(m, src),
        session_with(m, src).phase == PhaseModel::Initiating(hs),
        wire::parsed_setup(body) is Some,
        hs.remote_static is Some,
        hs.remote_static->0.len() == 33,
    ensures
        ({
            let (after, r) = sessions_ack(m, src, body, now);
            let (heard, read) = noise_xk::xk_read_msg2(hs, (wire::parsed_setup(body)->0).2);
            let (done, msg3) = noise_xk::xk_write_msg3(heard);
            let keys = noise_xk::xk_transport(done)->Ok_0;
            let peer = hs.remote_static->0.subrange(1, 33);
            let phase = session_with(after, src).phase;
            &&& r is Ok <==> read is Ok
            &&& read is Err ==> r->Err_0 == read->Err_0 && !has_session(after, src)
            &&& read is Ok ==> {
                &&& phase is Established
                &&& phase->send == keys.0
                &&& phase->recv == keys.1
                &&& phase->replay == replay::replay_empty()
                &&& phase->receiver == mmp::receiver_new()
                &&& r->Ok_0.fsp_responses.len() == 1
                &&& r->Ok_0.fsp_responses[0] == wire::session_message(
                    3,
                    wire::msg3_body(msg3->Ok_0),
                )
                &&& r->Ok_0.remote_npub == Some(crypto::bech32_encoded("npub"@, peer))
                &&& r->Ok_0.kind == SessionEventKind::Ack
                &&& r->Ok_0.from == src
                &&& r->Ok_0.payload is None
                &&& r->Ok_0.info == "SessionAck received, sent msg3. Session ESTABLISHED!"@
            }
        }),
{
    noise::lemma_x_at(hs.remote_static->0);
    identity::law_address_of_key(hs.remote_static->0.subrange(1, 33));
}

/// A SessionMsg3 that a session waits for is read as the third handshake message. A good one
/// establishes the session with the ciphers that the handshake then gives, and needs no answer; a
/// bad one takes the session away, with its fault as the answer. The peer is named by the key that
/// the message brought.
pub proof fn law_awaited_msg3(
    m: SessionsModel,
    src: Seq<u8>,
    body: Seq<u8>,
    hs: XkModel,
    now: nat,
)
    requires
        has_session(m, src),
        session_with(m, src).phase == PhaseModel::AwaitingMsg3(hs),
        wire::parsed_msg3(body) is Some,
    ensures
        ({
            let (after, r) = sessions_msg3(m, src, body, now);
            let (done, read) = noise_xk::xk_read_msg3(hs, wire::parsed_msg3(body)->0);
            let keys = noise_xk::xk_transport(done)->Ok_0;
            let peer = done.remote_static->0.subrange(1, 33);
            let phase = session_with(after, src).phase;
            &&& r is Ok <==> read is Ok
            &&& read is Err ==> r->Err_0 == read->Err_0 && !has_session(after, src)
            &&& read is Ok ==> {
                &&& phase is Established
                &&& phase->send == keys.0
                &&& phase->recv == keys.1
                &&& phase->replay == replay::replay_empty()
                &&& phase->receiver == mmp::receiver_new()
                &&& r->Ok_0.fsp_responses.len() == 0
                &&& r->Ok_0.remote_npub == Some(crypto::bech32_encoded("npub"@, peer))
                &&& r->Ok_0.kind == SessionEventKind::Msg3
                &&& r->Ok_0.from == src
                &&& r->Ok_0.payload is None
                &&& r->Ok_0.info == "SessionMsg3 received. Session ESTABLISHED!"@
            }
        }),
{
    let (done, read) = noise_xk::xk_read_msg3(hs, wire::parsed_msg3(body)->0);
    if read is Ok {
        noise::lemma_x_at(done.remote_static->0);
        identity::law_address_of_key(done.remote_static->0.subrange(1, 33));
    }
}

/// A SessionSetup is answered with the second handshake message, our coordinates and the sender's
/// address; the handshake that is then under way is that of a responder who read the first.
pub proof fn law_setup_is_answered(
    m: SessionsModel,
    src: Seq<u8>,
    body: Seq<u8>,
    epoch: Seq<u8>,
    secret: Seq<u8>,
    ephemeral: Seq<u8>,
    now: nat,
)
    requires
        sessions_setup(m, src, body, epoch, secret, ephemeral, now).1 is Ok,
    ensures
        ({
            let (after, r) = sessions_setup(m, src, body, epoch, secret, ephemeral, now);
            let heard = noise_xk::xk_read_msg1(
                noise_xk::xk_responder(secret, epoch),
                (wire::parsed_setup(body)->0).2,
            ).0;
            let (hs, msg2) = noise_xk::xk_write_msg2(heard, ephemeral);
            &&& session_with(after, src).phase == PhaseModel::AwaitingMsg3(hs)
            &&& r->Ok_0.fsp_responses[0] == wire::session_message(
                2,
                wire::setup_body(m.coords, seq![src], msg2->Ok_0),
            )
            &&& r->Ok_0.kind == SessionEventKind::Setup
            &&& r->Ok_0.info == "SessionSetup received, sent SessionAck (XK msg2)"@
        }),
{
}

/// Handshake messages that nobody waits for, and those that cannot be read, are refused in words
/// that tell which it was; so is a payload of a phase that there is not.
pub proof fn law_refusals_in_words(
    m: SessionsModel,
    src: Seq<u8>,
    body: Seq<u8>,
    payload: Seq<u8>,
    epoch: Seq<u8>,
    secret: Seq<u8>,
    ephemeral: Seq<u8>,
    now: nat,
)
    ensures
        ({
            let ack = sessions_ack(m, src, body, now).1;
            let msg3 = sessions_msg3(m, src, body, now).1;
            let known = has_session(m, src);
            let phase = session_with(m, src).phase;
            let setup = wire::parsed_setup(body) is Some;
            let third = wire::parsed_msg3(body) is Some;
            &&& !setup ==> ack->Err_0 == "invalid SessionAck body"@
            &&& setup && !known ==> ack->Err_0
                == "no session for this source (unexpected SessionAck)"@
            &&& setup && known && !(phase is Initiating) ==> ack->Err_0
                == "received SessionAck but not in Initiating state"@
            &&& !third ==> msg3->Err_0 == "invalid SessionMsg3 body"@
            &&& third && !known ==> msg3->Err_0
                == "no session for this source (unexpected SessionMsg3)"@
            &&& third && known && !(phase is AwaitingMsg3) ==> msg3->Err_0
                == "received SessionMsg3 but not in AwaitingMsg3 state"@
            &&& payload.len() >= 4 && payload[0] % 16 > 3 ==> sessions_incoming(
                m,
                src,
                payload,
                epoch,
                secret,
                ephemeral,
                now,
            ).1->Err_0 == "unknown FSP phase: 0x"@ + text::hexadecimal((payload[0] % 16) as nat)
        }),
{
}

} // verus!

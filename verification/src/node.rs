//! A FIPS node in the browser.
//!
//! A [`FipsNode`] completes a Noise IK handshake with a native node over a message transport,
//! then participates as a leaf node in the mesh: it exchanges TreeAnnounce, FilterAnnounce and
//! MMP reports to keep the link alive, and holds end-to-end sessions with other nodes.

use crate::bloom;
use crate::bytes;
use crate::cipher;
use crate::cipher::{CipherModel, CipherState};
use crate::crypto;
use crate::dns;
use crate::dns::{ResolvedFipsName, ResolvedModel};
use crate::identity;
use crate::identity::{Identity, PublicKey, SecretKey};
use crate::ipv6;
use crate::mmp;
use crate::mmp::{ReceiverModel, ReceiverState};
use crate::noise;
use crate::noise::{HandshakeState, IkModel};
use crate::replay;
use crate::replay::{ReplayModel, ReplayWindow};
use crate::session;
use crate::session::{SessionEvent, SessionEventKind, SessionManager, SessionsModel};
use crate::text;
use crate::tree;
use crate::wire;
use std::collections::HashMap;
use vstd::prelude::*;

verus! {

// ============================================================================
// Model
// ============================================================================

/// The state of the link to the gateway.
#[verifier::ext_equal]
pub enum LinkModel {
    /// Handshake in progress.
    Handshaking { hs: IkModel, our_idx: u32 },
    /// Handshake complete, transport phase.
    Established {
        send: CipherModel,
        recv: CipherModel,
        replay: ReplayModel,
        our_idx: u32,
        remote_idx: u32,
        receiver: ReceiverModel,
        tree_seq: u64,
        filter_seq: u64,
    },
}

/// A node.
#[verifier::ext_equal]
pub struct NodeModel {
    /// The secret key, which decides the identity.
    pub secret: Seq<u8>,
    pub link: Option<LinkModel>,
    pub sessions: SessionsModel,
    /// The epoch for session handshakes.
    pub session_epoch: Seq<u8>,
    pub next_ping_seq: u16,
    /// When each unanswered ping was sent.
    pub pending_pings: Map<u16, u64>,
    pub raw_ipv6_passthrough: bool,
}

/// What processing a packet brought.
#[verifier::ext_equal]
pub struct ResultModel {
    pub msg_type: Seq<char>,
    pub responses: Seq<Seq<u8>>,
    pub session_peer_npub: Option<Seq<char>>,
    pub payload: Option<Seq<u8>>,
    pub info: Option<Seq<char>>,
}

/// The address of a node.
pub open spec fn node_addr(n: NodeModel) -> Seq<u8> {
    identity::identity_addr(n.secret)
}

/// A node that has done nothing yet.
pub open spec fn node_new(secret: Seq<u8>, session_epoch: Seq<u8>) -> NodeModel {
    NodeModel {
        secret,
        link: None,
        sessions: SessionsModel {
            sessions: Map::empty(),
            coords: seq![identity::identity_addr(secret)],
            addr: identity::identity_addr(secret),
        },
        session_epoch,
        next_ping_seq: 1,
        pending_pings: Map::empty(),
        raw_ipv6_passthrough: false,
    }
}

/// A result that carries nothing but its type and a description.
pub open spec fn plain_result(msg_type: Seq<char>, info: Option<Seq<char>>) -> ResultModel {
    ResultModel {
        msg_type,
        responses: Seq::empty(),
        session_peer_npub: None,
        payload: None,
        info,
    }
}

/// A frame on an established link: the header, then the sealed timestamp and payload.
pub open spec fn link_frame(send: CipherModel, remote_idx: u32, inner_payload: Seq<u8>, now: u64) -> (
    CipherModel,
    Result<Seq<u8>, Seq<char>>,
) {
    let inner = bytes::le_bytes(wire::timestamp(now as nat), 4) + inner_payload;
    let header = wire::established_header(0, inner.len(), remote_idx as nat, send.nonce);
    let (after, result) = cipher::cipher_sealed(send, header, inner);
    match result {
        Ok(ciphertext) => (after, Ok(header + ciphertext)),
        Err(e) => (after, Err("encrypt failed: "@ + e)),
    }
}

/// Sending a link-layer message.
pub open spec fn node_frame(n: NodeModel, inner_payload: Seq<u8>, now: u64) -> (
    NodeModel,
    Result<Seq<u8>, Seq<char>>,
) {
    match n.link {
        None => (n, Err("no active link"@)),
        Some(LinkModel::Handshaking { .. }) => (n, Err("not in established state"@)),
        Some(
            LinkModel::Established {
                send,
                recv,
                replay,
                our_idx,
                remote_idx,
                receiver,
                tree_seq,
                filter_seq,
            },
        ) => {
            let (after, result) = link_frame(send, remote_idx, inner_payload, now);
            (
                NodeModel {
                    link: Some(
                        LinkModel::Established {
                            send: after,
                            recv,
                            replay,
                            our_idx,
                            remote_idx,
                            receiver,
                            tree_seq,
                            filter_seq,
                        },
                    ),
                    ..n
                },
                result,
            )
        },
    }
}

/// Sending a TreeAnnounce as a root node. The sequence number rises with each one.
pub open spec fn node_tree_announce(n: NodeModel, now: u64) -> (
    NodeModel,
    Result<Seq<u8>, Seq<char>>,
) {
    match n.link {
        Some(
            LinkModel::Established {
                send,
                recv,
                replay,
                our_idx,
                remote_idx,
                receiver,
                tree_seq,
                filter_seq,
            },
        ) => match tree::signed_announce(
            node_addr(n),
            n.secret,
            tree_seq as nat,
            (now / 1000) as nat,
            node_addr(n),
            Seq::empty(),
        ) {
            Err(e) => (n, Err(e)),
            Ok(payload) => node_frame(
                NodeModel {
                    link: Some(
                        LinkModel::Established {
                            send,
                            recv,
                            replay,
                            our_idx,
                            remote_idx,
                            receiver,
                            tree_seq: next_seq(tree_seq),
                            filter_seq,
                        },
                    ),
                    ..n
                },
                payload,
                now,
            ),
        },
        _ => (n, Err("not established"@)),
    }
}

/// The sequence number that follows, starting over after the last.
pub open spec fn next_seq(seq: u64) -> u64 {
    if seq == u64::MAX {
        0
    } else {
        (seq + 1) as u64
    }
}

/// Sending a FilterAnnounce with our own address. The sequence number rises with each one.
pub open spec fn node_filter_announce(n: NodeModel, now: u64) -> (
    NodeModel,
    Result<Seq<u8>, Seq<char>>,
) {
    match n.link {
        Some(
            LinkModel::Established {
                send,
                recv,
                replay,
                our_idx,
                remote_idx,
                receiver,
                tree_seq,
                filter_seq,
            },
        ) => node_frame(
            NodeModel {
                link: Some(
                    LinkModel::Established {
                        send,
                        recv,
                        replay,
                        our_idx,
                        remote_idx,
                        receiver,
                        tree_seq,
                        filter_seq: next_seq(filter_seq),
                    },
                ),
                ..n
            },
            bloom::filter_announce(
                bloom::filter_inserted(Set::empty(), node_addr(n)),
                filter_seq as nat,
            ),
            now,
        ),
        _ => (n, Err("not established"@)),
    }
}

/// Sending a ReceiverReport for the link.
pub open spec fn node_report(n: NodeModel, now: u64) -> (NodeModel, Result<Seq<u8>, Seq<char>>) {
    match n.link {
        Some(
            LinkModel::Established {
                send,
                recv,
                replay,
                our_idx,
                remote_idx,
                receiver,
                tree_seq,
                filter_seq,
            },
        ) => node_frame(
            NodeModel {
                link: Some(
                    LinkModel::Established {
                        send,
                        recv,
                        replay,
                        our_idx,
                        remote_idx,
                        receiver: mmp::receiver_reported(receiver),
                        tree_seq,
                        filter_seq,
                    },
                ),
                ..n
            },
            mmp::receiver_report(receiver, now as nat),
            now,
        ),
        _ => (n, Err("not established"@)),
    }
}

/// The public key that an npub names, in even parity, or what is wrong with it.
pub open spec fn npub_key(npub: Seq<char>) -> Result<Seq<u8>, Seq<char>> {
    match identity::decoded_npub(npub) {
        Err(e) => Err(e),
        Ok(x) => if crypto::secp256k1_point(identity::even_key(x)) is Some {
            Ok(identity::even_key(x))
        } else {
            Err("invalid x-only key: crypto error"@)
        },
    }
}

/// Starting a handshake with a peer, with a given epoch, index and ephemeral key. Whatever link
/// there was is given up.
pub open spec fn node_initiate(
    n: NodeModel,
    remote_npub: Seq<char>,
    epoch: Seq<u8>,
    our_idx: u32,
    ephemeral: Seq<u8>,
) -> (NodeModel, Result<Seq<u8>, Seq<char>>) {
    match npub_key(remote_npub) {
        Err(e) => (n, Err(e)),
        Ok(key) => {
            let (hs, message) = noise::ik_write_message_1(
                noise::ik_initiator(n.secret, key, epoch),
                ephemeral,
            );
            (
                NodeModel { link: Some(LinkModel::Handshaking { hs, our_idx }), ..n },
                Ok(wire::msg1_packet(our_idx as nat, message->Ok_0)),
            )
        },
    }
}

/// Starting a handshake with a peer, given what came of drawing the bytes of the epoch and of the
/// index. The npub comes first, then the epoch, then the index: the first of them that is bad is
/// the answer, and nothing changes.
pub open spec fn node_initiate_drawn(
    n: NodeModel,
    remote_npub: Seq<char>,
    epoch: Result<Seq<u8>, Seq<char>>,
    idx: Result<Seq<u8>, Seq<char>>,
    ephemeral: Seq<u8>,
) -> (NodeModel, Result<Seq<u8>, Seq<char>>) {
    match (npub_key(remote_npub), epoch, idx) {
        (Err(e), _, _) => (n, Err(e)),
        (_, Err(e), _) => (n, Err(e)),
        (_, _, Err(e)) => (n, Err(e)),
        (Ok(_), Ok(epoch), Ok(idx)) => node_initiate(
            n,
            remote_npub,
            epoch,
            bytes::le_value(idx) as u32,
            ephemeral,
        ),
    }
}

/// The link that a finished handshake starts.
pub open spec fn link_established(hs: IkModel, our_idx: u32, remote_idx: u32) -> LinkModel {
    let transport = noise::ik_transport(hs)->Ok_0;
    LinkModel::Established {
        send: transport.0,
        recv: transport.1,
        replay: replay::replay_empty(),
        our_idx,
        remote_idx,
        receiver: mmp::receiver_new(),
        tree_seq: 1,
        filter_seq: 1,
    }
}

/// What a node does as soon as its link is established: it announces its place in the tree and
/// its filter.
pub open spec fn node_greets(n: NodeModel, now: u64) -> (NodeModel, ResultModel) {
    let (n1, first) = node_tree_announce(n, now);
    match first {
        Err(e) => (
            n1,
            plain_result("msg2"@, Some("Handshake OK, but TreeAnnounce failed: "@ + e)),
        ),
        Ok(tree_frame) => {
            let (n2, second) = node_filter_announce(n1, now);
            match second {
                Err(e) => (
                    n2,
                    ResultModel {
                        responses: seq![tree_frame],
                        ..plain_result(
                            "msg2"@,
                            Some("Handshake OK, but FilterAnnounce failed: "@ + e),
                        )
                    },
                ),
                Ok(filter_frame) => (
                    n2,
                    ResultModel {
                        responses: seq![tree_frame, filter_frame],
                        ..plain_result(
                            "msg2"@,
                            Some(
                                "Noise IK handshake complete! Link established. Sent TreeAnnounce + FilterAnnounce."@,
                            ),
                        )
                    },
                ),
            }
        },
    }
}

/// A msg2 from the peer. A bad one ends the handshake.
pub open spec fn node_msg2(n: NodeModel, data: Seq<u8>, now: u64) -> (
    NodeModel,
    Result<ResultModel, Seq<char>>,
) {
    if !wire::is_msg2(data) {
        (n, Err("invalid msg2 packet"@))
    } else {
        match n.link {
            None => (n, Err("no handshake in progress"@)),
            Some(LinkModel::Established { .. }) => (
                n,
                Err("received msg2 but not in handshaking state"@),
            ),
            Some(LinkModel::Handshaking { hs, our_idx }) => {
                let (done, read) = noise::ik_read_message_2(hs, wire::msg2_noise_of(data));
                match read {
                    Err(e) => (NodeModel { link: None, ..n }, Err(e)),
                    Ok(_) => {
                        let link = link_established(
                            done,
                            our_idx,
                            wire::sender_idx_of(data) as u32,
                        );
                        let (after, result) = node_greets(
                            NodeModel { link: Some(link), ..n },
                            now,
                        );
                        (after, Ok(result))
                    },
                }
            },
        }
    }
}

/// Sending session payloads to a node, each in its envelope and frame, until one fails.
pub open spec fn node_forward_all(n: NodeModel, dest: Seq<u8>, list: Seq<Seq<u8>>, now: u64) -> (
    NodeModel,
    Result<Seq<Seq<u8>>, Seq<char>>,
)
    decreases list.len(),
{
    if list.len() == 0 {
        (n, Ok(Seq::empty()))
    } else {
        let (n1, sent) = node_forward_all(n, dest, list.drop_last(), now);
        match sent {
            Err(e) => (n1, Err(e)),
            Ok(frames) => {
                let (n2, last) = node_frame(
                    n1,
                    session::enveloped(n1.sessions, dest, list.last()),
                    now,
                );
                match last {
                    Err(e) => (n2, Err(e)),
                    Ok(frame) => (n2, Ok(frames.push(frame))),
                }
            },
        }
    }
}

/// Answering a session-layer report, if there is one. A failed answer is left out.
pub open spec fn node_session_reports(
    n: NodeModel,
    src: Seq<u8>,
    kind: SessionEventKind,
    result: ResultModel,
    now: u64,
) -> (NodeModel, ResultModel) {
    if kind == SessionEventKind::SenderReport {
        let named = ResultModel { msg_type: "session_sender_report"@, ..result };
        let (sessions, report) = session::sessions_report(
            n.sessions,
            src,
            now as nat,
            now as nat,
        );
        let n1 = NodeModel { sessions, ..n };
        match report {
            Err(_) => (n1, named),
            Ok(fsp) => {
                let (n2, frame) = node_frame(n1, session::enveloped(sessions, src, fsp), now);
                match frame {
                    Err(_) => (n2, named),
                    Ok(f) => (n2, ResultModel { responses: named.responses.push(f), ..named }),
                }
            },
        }
    } else if kind == SessionEventKind::ReceiverReport {
        (n, ResultModel { msg_type: "session_receiver_report"@, ..result })
    } else {
        (n, result)
    }
}

/// Answering an echo request from a session peer. A failed answer is left out.
pub open spec fn node_answers_echo(
    n: NodeModel,
    from: Seq<u8>,
    request: Seq<u8>,
    responses: Seq<Seq<u8>>,
    now: u64,
) -> (NodeModel, Seq<Seq<u8>>) {
    let (sessions, sent) = session::sessions_send(
        n.sessions,
        from,
        wire::FSP_PORT_IPV6_SHIM as nat,
        wire::FSP_PORT_IPV6_SHIM as nat,
        ipv6::compressed(ipv6::echo_reply(request)),
        now as nat,
    );
    let n1 = NodeModel { sessions, ..n };
    match sent {
        Err(_) => (n1, responses),
        Ok(fsp) => {
            let (n2, frame) = node_frame(n1, session::enveloped(sessions, from, fsp), now);
            match frame {
                Err(_) => (n2, responses),
                Ok(f) => (n2, responses.push(f)),
            }
        },
    }
}

/// Round-trip time of a ping, in milliseconds.
pub open spec fn round_trip(sent: u64, now: u64) -> nat {
    if now > sent {
        (now - sent) as nat
    } else {
        0
    }
}

/// An IPv6 packet from a session peer: passed on if so configured, matched with our pings,
/// answered, or passed on.
pub open spec fn node_ipv6(
    n: NodeModel,
    from: Seq<u8>,
    packet: Seq<u8>,
    result: ResultModel,
    now: u64,
) -> (NodeModel, ResultModel) {
    let source = ipv6::ipv6_text(ipv6::ipv6_of(from));
    let with_packet = ResultModel { payload: Some(packet), ..result };
    let passed = ResultModel {
        msg_type: "session_ipv6"@,
        info: Some("IPv6 shim packet from "@ + source),
        ..with_packet
    };
    if n.raw_ipv6_passthrough {
        (n, passed)
    } else if ipv6::is_echo(packet, ipv6::ICMPV6_ECHO_REPLY) {
        let seq = ipv6::echo_seq(packet) as u16;
        let start = "ICMPv6 Echo Reply from "@ + source + " seq="@ + text::decimal(seq as nat);
        let info = if n.pending_pings.contains_key(seq) {
            start + " rtt="@ + text::decimal(round_trip(n.pending_pings[seq], now)) + "ms"@
        } else {
            start
        };
        (
            NodeModel { pending_pings: n.pending_pings.remove(seq), ..n },
            ResultModel { msg_type: "ping_reply"@, info: Some(info), ..with_packet },
        )
    } else if ipv6::is_echo(packet, ipv6::ICMPV6_ECHO_REQUEST) {
        let (n1, responses) = node_answers_echo(n, from, packet, result.responses, now);
        (
            n1,
            ResultModel {
                msg_type: "ping_request"@,
                responses,
                info: Some(
                    "ICMPv6 Echo Request from "@ + source + " seq="@ + text::decimal(
                        ipv6::echo_seq(packet),
                    ) + ", sent Echo Reply"@,
                ),
                ..with_packet
            },
        )
    } else {
        (n, passed)
    }
}

/// Application data from a session peer, by destination port.
pub open spec fn node_payload(
    n: NodeModel,
    from: Seq<u8>,
    payload: Option<(nat, Seq<u8>)>,
    result: ResultModel,
    now: u64,
) -> (NodeModel, ResultModel) {
    match payload {
        None => (n, result),
        Some((port, data)) => {
            let with_data = ResultModel { payload: Some(data), ..result };
            if port == wire::FSP_PORT_CHAT {
                (
                    n,
                    ResultModel {
                        msg_type: "session_chat"@,
                        info: Some(
                            "Chat from "@ + text::hex_text(from.take(4)) + ": "@ + text::shown_text(
                                data,
                            ),
                        ),
                        ..with_data
                    },
                )
            } else if port == wire::FSP_PORT_IPV6_SHIM {
                if ipv6::is_shim(data) {
                    let packet = ipv6::decompressed(
                        data,
                        ipv6::ipv6_of(from),
                        ipv6::ipv6_of(node_addr(n)),
                    );
                    node_ipv6(n, from, packet, result, now)
                } else {
                    (
                        n,
                        ResultModel {
                            msg_type: "session_ipv6_bad"@,
                            info: Some("Failed to decompress IPv6 shim packet"@),
                            ..with_data
                        },
                    )
                }
            } else {
                (
                    n,
                    ResultModel {
                        msg_type: "session_port_"@ + text::decimal(port),
                        ..with_data
                    },
                )
            }
        },
    }
}

/// A SessionDatagram: processed if it is for us, else only reported.
pub open spec fn node_datagram(n: NodeModel, payload: Seq<u8>, ephemeral: Seq<u8>, now: u64) -> (
    NodeModel,
    Result<ResultModel, Seq<char>>,
) {
    match wire::parsed_datagram(payload) {
        None => (n, Err("invalid SessionDatagram (too short)"@)),
        Some(d) => if d.dest_addr != node_addr(n) {
            (
                n,
                Ok(
                    plain_result(
                        "session_datagram_forward"@,
                        Some(
                            "SessionDatagram not for us (dest="@ + text::hex_text(d.dest_addr)
                                + ", ttl="@ + text::decimal(d.ttl as nat) + ")"@,
                        ),
                    ),
                ),
            )
        } else {
            let (sessions, event) = session::sessions_incoming(
                n.sessions,
                d.src_addr,
                d.payload,
                n.session_epoch,
                n.secret,
                ephemeral,
                now as nat,
            );
            let n1 = NodeModel { sessions, ..n };
            match event {
                Err(e) => (n1, Err(e)),
                Ok(ev) => {
                    let (n2, sent) = node_forward_all(n1, d.src_addr, ev.fsp_responses, now);
                    match sent {
                        Err(e) => (
                            n2,
                            Ok(
                                plain_result(
                                    "session_error"@,
                                    Some("Failed to encrypt session response: "@ + e),
                                ),
                            ),
                        ),
                        Ok(responses) => {
                            let base = ResultModel {
                                responses,
                                session_peer_npub: ev.remote_npub,
                                ..plain_result("session"@, Some(ev.info))
                            };
                            let (n3, reported) = node_session_reports(
                                n2,
                                d.src_addr,
                                ev.kind,
                                base,
                                now,
                            );
                            let (n4, result) = node_payload(n3, ev.from, ev.payload, reported, now);
                            (n4, Ok(result))
                        },
                    }
                },
            }
        },
    }
}

/// A decrypted link-layer message, by its type.
pub open spec fn node_dispatch(
    n: NodeModel,
    msg_type: u8,
    payload: Seq<u8>,
    ephemeral: Seq<u8>,
    now: u64,
) -> (NodeModel, Result<ResultModel, Seq<char>>) {
    if msg_type == wire::MSG_TYPE_TREE_ANNOUNCE {
        (
            n,
            Ok(
                plain_result(
                    "tree_announce"@,
                    Some(
                        "TreeAnnounce received ("@ + text::decimal(payload.len()) + " bytes)"@,
                    ),
                ),
            ),
        )
    } else if msg_type == wire::MSG_TYPE_FILTER_ANNOUNCE {
        (
            n,
            Ok(
                plain_result(
                    "filter_announce"@,
                    Some(
                        "FilterAnnounce received ("@ + text::decimal(payload.len()) + " bytes)"@,
                    ),
                ),
            ),
        )
    } else if msg_type == wire::MSG_TYPE_SENDER_REPORT {
        let (n1, report) = node_report(n, now);
        match report {
            Err(e) => (
                n1,
                Ok(
                    plain_result(
                        "sender_report"@,
                        Some("SenderReport received, ReceiverReport failed: "@ + e),
                    ),
                ),
            ),
            Ok(frame) => (
                n1,
                Ok(
                    ResultModel {
                        responses: seq![frame],
                        ..plain_result(
                            "sender_report"@,
                            Some("SenderReport received, sent ReceiverReport"@),
                        )
                    },
                ),
            ),
        }
    } else if msg_type == wire::MSG_TYPE_RECEIVER_REPORT {
        (n, Ok(plain_result("receiver_report"@, None)))
    } else if msg_type == wire::MSG_TYPE_SESSION_DATAGRAM {
        node_datagram(n, payload, ephemeral, now)
    } else if msg_type == wire::MSG_TYPE_HEARTBEAT {
        (n, Ok(plain_result("heartbeat"@, None)))
    } else if msg_type == wire::MSG_TYPE_DISCONNECT {
        (n, Ok(plain_result("disconnect"@, Some("Disconnect received"@))))
    } else {
        (
            n,
            Ok(
                ResultModel {
                    payload: Some(payload),
                    ..plain_result(
                        "link_msg_0x"@ + text::hex_byte(msg_type),
                        Some("Unknown link message type: 0x"@ + text::hex_byte(msg_type)),
                    )
                },
            ),
        )
    }
}

/// An encrypted frame: refused as a replay, refused as undecryptable, or accepted, counted and
/// handed on by its type.
pub open spec fn node_encrypted(n: NodeModel, data: Seq<u8>, ephemeral: Seq<u8>, now: u64) -> (
    NodeModel,
    Result<ResultModel, Seq<char>>,
) {
    match n.link {
        None => (n, Err("no active link"@)),
        Some(LinkModel::Handshaking { .. }) => (
            n,
            Err("received encrypted frame but handshake not complete"@),
        ),
        Some(
            LinkModel::Established {
                send,
                recv,
                replay,
                our_idx,
                remote_idx,
                receiver,
                tree_seq,
                filter_seq,
            },
        ) => {
            let counter = wire::counter_of(data);
            if !wire::is_encrypted(data) {
                (n, Err("invalid encrypted frame"@))
            } else if !replay::replay_passes(replay, counter) {
                (
                    n,
                    Ok(
                        plain_result(
                            "replay"@,
                            Some("Replay detected: counter "@ + text::decimal(counter)),
                        ),
                    ),
                )
            } else {
                match cipher::cipher_opened_at(recv, counter, data.take(16), data.skip(16)) {
                    Err(e) => (n, Err(e)),
                    Ok(plaintext) => {
                        let accepted = replay::replay_accepted(replay, counter);
                        if plaintext.len() < wire::INNER_HEADER_SIZE {
                            (
                                NodeModel {
                                    link: Some(
                                        LinkModel::Established {
                                            send,
                                            recv,
                                            replay: accepted,
                                            our_idx,
                                            remote_idx,
                                            receiver,
                                            tree_seq,
                                            filter_seq,
                                        },
                                    ),
                                    ..n
                                },
                                Ok(
                                    ResultModel {
                                        payload: Some(plaintext),
                                        ..plain_result(
                                            "data_short"@,
                                            Some("Encrypted frame (inner header too short)"@),
                                        )
                                    },
                                ),
                            )
                        } else {
                            let recorded = mmp::receiver_recorded(
                                receiver,
                                counter,
                                bytes::le_value(plaintext.take(4)),
                                data.len(),
                                now as nat,
                            );
                            node_dispatch(
                                NodeModel {
                                    link: Some(
                                        LinkModel::Established {
                                            send,
                                            recv,
                                            replay: accepted,
                                            our_idx,
                                            remote_idx,
                                            receiver: recorded,
                                            tree_seq,
                                            filter_seq,
                                        },
                                    ),
                                    ..n
                                },
                                plaintext[4],
                                plaintext.skip(5),
                                ephemeral,
                                now,
                            )
                        }
                    },
                }
            }
        },
    }
}

/// An incoming packet, by its phase.
pub open spec fn node_incoming(n: NodeModel, data: Seq<u8>, ephemeral: Seq<u8>, now: u64) -> (
    NodeModel,
    Result<ResultModel, Seq<char>>,
) {
    if data.len() < wire::COMMON_PREFIX_SIZE {
        (n, Err("packet too short"@))
    } else {
        let phase = wire::phase_of(data);
        if phase == wire::PHASE_MSG2 {
            node_msg2(n, data, now)
        } else if phase == wire::PHASE_ESTABLISHED {
            node_encrypted(n, data, ephemeral, now)
        } else {
            (
                n,
                Ok(
                    plain_result(
                        "unknown_phase_"@ + text::decimal(phase as nat),
                        Some("Unknown FMP phase: 0x"@ + text::hexadecimal(phase as nat)),
                    ),
                ),
            )
        }
    }
}

/// Sending a session payload on its way: in its envelope, in a frame.
pub open spec fn node_forward(
    n: NodeModel,
    dest: Seq<u8>,
    fsp: Result<Seq<u8>, Seq<char>>,
    now: u64,
) -> (NodeModel, Result<Seq<u8>, Seq<char>>) {
    match fsp {
        Err(e) => (n, Err(e)),
        Ok(payload) => node_frame(n, session::enveloped(n.sessions, dest, payload), now),
    }
}

/// Whether there is an established session with the node that an npub names.
pub open spec fn node_session_established(n: NodeModel, npub: Seq<char>) -> bool {
    match identity::decoded_npub(npub) {
        Ok(x) => session::established_with(n.sessions, identity::node_addr_of(x)),
        Err(_) => false,
    }
}

/// Starting a session with the node that an npub names.
pub open spec fn node_connect(n: NodeModel, npub: Seq<char>, ephemeral: Seq<u8>, now: u64) -> (
    NodeModel,
    Result<Seq<u8>, Seq<char>>,
) {
    if node_session_established(n, npub) {
        (n, Err("session already established for this destination"@))
    } else {
        match npub_key(npub) {
            Err(e) => (n, Err(e)),
            Ok(key) => {
                let dest = identity::node_addr_of(identity::x_only(key));
                if dest == node_addr(n) {
                    (n, Err("cannot start a session to self"@))
                } else {
                    let (sessions, fsp) = session::sessions_initiate(
                        n.sessions,
                        dest,
                        key,
                        n.session_epoch,
                        n.secret,
                        ephemeral,
                        now as nat,
                    );
                    node_forward(NodeModel { sessions, ..n }, dest, fsp, now)
                }
            },
        }
    }
}

/// Sending data to a node on a port.
pub open spec fn node_send_port(
    n: NodeModel,
    dest: Seq<u8>,
    port: u16,
    payload: Seq<u8>,
    now: u64,
) -> (NodeModel, Result<Seq<u8>, Seq<char>>) {
    let (sessions, fsp) = session::sessions_send(
        n.sessions,
        dest,
        port as nat,
        port as nat,
        payload,
        now as nat,
    );
    node_forward(NodeModel { sessions, ..n }, dest, fsp, now)
}

/// Sending a chat message.
pub open spec fn node_send_message(n: NodeModel, npub: Seq<char>, message: Seq<u8>, now: u64) -> (
    NodeModel,
    Result<Seq<u8>, Seq<char>>,
) {
    match identity::decoded_npub(npub) {
        Err(e) => (n, Err(e)),
        Ok(x) => if identity::node_addr_of(x) == node_addr(n) {
            (n, Err("cannot send a session message to self"@))
        } else {
            node_send_port(n, identity::node_addr_of(x), wire::FSP_PORT_CHAT, message, now)
        },
    }
}

/// Sending a ping. The sequence number is used up and the time noted even if sending fails.
pub open spec fn node_send_ping(n: NodeModel, npub: Seq<char>, now: u64) -> (
    NodeModel,
    Result<Seq<u8>, Seq<char>>,
) {
    match identity::decoded_npub(npub) {
        Err(e) => (n, Err(e)),
        Ok(x) => {
            let dest = identity::node_addr_of(x);
            if dest == node_addr(n) {
                (n, Err("cannot send an IPv6 ping to self through a session"@))
            } else {
                let seq = n.next_ping_seq;
                let noted = NodeModel {
                    next_ping_seq: if seq == u16::MAX {
                        0
                    } else {
                        (seq + 1) as u16
                    },
                    pending_pings: n.pending_pings.insert(seq, now),
                    ..n
                };
                node_send_port(
                    noted,
                    dest,
                    wire::FSP_PORT_IPV6_SHIM,
                    ipv6::compressed(
                        ipv6::echo_request(
                            ipv6::ipv6_of(node_addr(n)),
                            ipv6::ipv6_of(dest),
                            seq,
                        ),
                    ),
                    now,
                )
            }
        },
    }
}

/// Sending a raw IPv6 packet.
pub open spec fn node_send_ipv6(n: NodeModel, npub: Seq<char>, packet: Seq<u8>, now: u64) -> (
    NodeModel,
    Result<Seq<u8>, Seq<char>>,
) {
    match identity::decoded_npub(npub) {
        Err(e) => (n, Err(e)),
        Ok(x) => if identity::node_addr_of(x) == node_addr(n) {
            (n, Err("cannot send raw IPv6 to self through a session"@))
        } else if !ipv6::is_ipv6(packet) {
            (n, Err("IPv6 shim compression failed"@))
        } else {
            node_send_port(
                n,
                identity::node_addr_of(x),
                wire::FSP_PORT_IPV6_SHIM,
                ipv6::compressed(packet),
                now,
            )
        },
    }
}

/// Sending an empty data packet to port 0, which keeps the session active at the other end.
pub open spec fn node_send_keepalive(n: NodeModel, npub: Seq<char>, now: u64) -> (
    NodeModel,
    Result<Seq<u8>, Seq<char>>,
) {
    match identity::decoded_npub(npub) {
        Err(e) => (n, Err(e)),
        Ok(x) => node_send_port(n, identity::node_addr_of(x), 0, Seq::empty(), now),
    }
}

// ============================================================================
// Node
// ============================================================================

/// Current link state.
enum LinkState {
    /// Handshake in progress.
    Handshaking {
        hs: HandshakeState,
        /// Our sender index (chosen randomly, sent in msg1 header).
        our_idx: u32,
    },
    /// Handshake complete, transport phase.
    Established {
        send_cipher: CipherState,
        recv_cipher: CipherState,
        replay: ReplayWindow,
        /// Our sender index (the remote peer uses this as receiver_idx).
        our_idx: u32,
        /// Remote peer's sender index (we use this as receiver_idx when sending).
        remote_idx: u32,
        /// MMP receiver state (tracks incoming frame metadata).
        receiver_state: ReceiverState,
        /// Next TreeAnnounce sequence number.
        tree_seq: u64,
        /// Next FilterAnnounce sequence number.
        filter_seq: u64,
    },
}

impl View for LinkState {
    type V = LinkModel;

    closed spec fn view(&self) -> LinkModel {
        match self {
            LinkState::Handshaking { hs, our_idx } => LinkModel::Handshaking {
                hs: hs@,
                our_idx: *our_idx,
            },
            LinkState::Established {
                send_cipher,
                recv_cipher,
                replay,
                our_idx,
                remote_idx,
                receiver_state,
                tree_seq,
                filter_seq,
            } => LinkModel::Established {
                send: send_cipher@,
                recv: recv_cipher@,
                replay: replay@,
                our_idx: *our_idx,
                remote_idx: *remote_idx,
                receiver: receiver_state@,
                tree_seq: *tree_seq,
                filter_seq: *filter_seq,
            },
        }
    }
}

/// What processing a packet brought.
pub struct ProcessResult {
    /// What kind of packet was received.
    pub msg_type: String,
    /// Messages to send back (each is a complete FMP wire packet).
    pub responses: Vec<Vec<u8>>,
    /// Session peer npub when a session becomes established.
    pub session_peer_npub: Option<String>,
    /// Decrypted payload (if any).
    pub payload: Option<Vec<u8>>,
    /// Additional info for the UI.
    pub info: Option<String>,
}

/// Packets as values.
pub open spec fn packets(list: Seq<Vec<u8>>) -> Seq<Seq<u8>> {
    list.map_values(|v: Vec<u8>| v@)
}

impl View for ProcessResult {
    type V = ResultModel;

    open spec fn view(&self) -> ResultModel {
        ResultModel {
            msg_type: self.msg_type@,
            responses: packets(self.responses@),
            session_peer_npub: text::optional_text(self.session_peer_npub),
            payload: match self.payload {
                Some(v) => Some(v@),
                None => None,
            },
            info: text::optional_text(self.info),
        }
    }
}

/// A result as its value.
pub open spec fn process_result(r: Result<ProcessResult, String>) -> Result<
    ResultModel,
    Seq<char>,
> {
    match r {
        Ok(p) => Ok(p@),
        Err(e) => Err(e@),
    }
}

fn plain(msg_type: &str, info: Option<String>) -> (r: ProcessResult)
    ensures
        r@ == plain_result(msg_type@, text::optional_text(info)),
{
    let r = ProcessResult {
        msg_type: msg_type.to_string(),
        responses: Vec::new(),
        session_peer_npub: None,
        payload: None,
        info,
    };
    assert(r@.responses =~= Seq::empty());
    r
}

fn push_packet(list: &mut Vec<Vec<u8>>, packet: Vec<u8>)
    ensures
        packets(final(list)@) == packets(old(list)@).push(packet@),
{
    list.push(packet);
    assert(packets(list@) =~= packets(old(list)@).push(packet@));
}

/// A FIPS node running in the browser.
///
/// Lifecycle:
/// 1. `new()` or `from_nsec()`: create node with a key pair.
/// 2. `initiate_handshake(remote_npub)`: returns msg1 wire bytes to send.
/// 3. Feed incoming messages to `process_incoming()`.
/// 4. Send all `responses` from the result back over the transport.
/// 5. After the handshake completes, open sessions and send through them.
pub struct FipsNode {
    identity: Identity,
    link: Option<LinkState>,
    sessions: SessionManager,
    /// Random epoch for session handshakes.
    session_epoch: [u8; 8],
    next_ping_seq: u16,
    pending_pings: HashMap<u16, u64>,
    raw_ipv6_passthrough: bool,
}

impl View for FipsNode {
    type V = NodeModel;

    closed spec fn view(&self) -> NodeModel {
        NodeModel {
            secret: self.identity@,
            link: match self.link {
                Some(l) => Some(l@),
                None => None,
            },
            sessions: self.sessions@,
            session_epoch: self.session_epoch@,
            next_ping_seq: self.next_ping_seq,
            pending_pings: self.pending_pings@,
            raw_ipv6_passthrough: self.raw_ipv6_passthrough,
        }
    }
}

impl FipsNode {
    /// A handshake in progress and all sessions hold the keys that their next steps need, and
    /// sessions are kept under the node's own address.
    pub closed spec fn wf(&self) -> bool {
        &&& self.sessions.wf()
        &&& self.sessions@.addr == identity::identity_addr(self.identity@)
        &&& identity::is_keypair(self.identity@)
        &&& self.link matches Some(LinkState::Handshaking { hs, .. }) ==> hs.wf()
    }

    /// Create a new node with a random key pair.
    pub fn new() -> (r: Self)
        ensures
            r.wf(),
            exists|secret: Seq<u8>, epoch: Seq<u8>|
                identity::is_keypair(secret) && epoch.len() == 8 && r@ == #[trigger] node_new(
                    secret,
                    epoch,
                ),
    {
        Self::with_identity(Identity::generate(), random_epoch())
    }

    /// Create from an existing nsec (bech32) or hex secret key.
    pub fn from_nsec(nsec: &str) -> (r: Result<FipsNode, String>)
        ensures
            match r {
                Ok(n) => n.wf() && identity::secret_of_text(nsec@) is Ok && exists|epoch: Seq<u8>|
                    epoch.len() == 8 && n@ == #[trigger] node_new(
                        identity::secret_of_text(nsec@)->Ok_0,
                        epoch,
                    ),
                Err(e) => identity::secret_of_text(nsec@) == Err::<Seq<u8>, Seq<char>>(e@),
            },
    {
        match Identity::from_secret_str(nsec) {
            Ok(identity) => Ok(Self::with_identity(identity, random_epoch())),
            Err(e) => Err(e),
        }
    }

    /// Create from an identity and an epoch for session handshakes.
    pub fn with_identity(identity: Identity, session_epoch: [u8; 8]) -> (r: Self)
        ensures
            r.wf(),
            r@ == node_new(identity@, session_epoch@),
    {
        broadcast use vstd::std_specs::hash::group_hash_axioms;

        let _ = identity.secret_key();
        let sessions = SessionManager::new(*identity.node_addr());
        Self {
            sessions,
            session_epoch,
            next_ping_seq: 1,
            pending_pings: HashMap::new(),
            raw_ipv6_passthrough: false,
            identity,
            link: None,
        }
    }

    /// Get this node's npub string.
    pub fn npub(&self) -> (r: String)
        ensures
            r@ == identity::npub_of(identity::identity_x_only(self@.secret)),
            identity::decoded_npub(r@) == Ok::<Seq<u8>, Seq<char>>(
                identity::identity_x_only(self@.secret),
            ),
            r@.len() > 0,
    {
        self.identity.npub()
    }

    /// Get this node's hex node address.
    pub fn node_addr_hex(&self) -> (r: String)
        ensures
            r@ == text::hex_text(node_addr(self@)),
    {
        self.identity.node_addr_hex()
    }

    /// Resolve a direct `<npub>.fips` name locally.
    pub fn resolve_fips_name(&self, name: &str) -> (r: Result<ResolvedFipsName, String>)
        ensures
            match r {
                Ok(v) => dns::resolved(name@) == Ok::<ResolvedModel, Seq<char>>(v@),
                Err(e) => dns::resolved(name@) == Err::<ResolvedModel, Seq<char>>(e@),
            },
    {
        dns::resolve_fips_query(name)
    }

    /// Enable or disable raw IPv6 passthrough mode.
    ///
    /// When enabled, incoming port-256 IPv6 shim packets are surfaced as raw IPv6 packets instead
    /// of being handled internally for ICMPv6 ping.
    pub fn set_ipv6_passthrough(&mut self, enabled: bool)
        requires
            old(self).wf(),
        ensures
            final(self).wf(),
            final(self)@ == (NodeModel { raw_ipv6_passthrough: enabled, ..old(self)@ }),
    {
        self.raw_ipv6_passthrough = enabled;
    }

    /// Check if the link is established (handshake complete).
    pub fn is_established(&self) -> (r: bool)
        ensures
            r == (self@.link matches Some(LinkModel::Established { .. })),
    {
        match &self.link {
            Some(LinkState::Established { .. }) => true,
            _ => false,
        }
    }

    /// Check if a session is established with a given npub.
    pub fn is_session_established(&self, dest_npub: &str) -> (r: bool)
        ensures
            r == node_session_established(self@, dest_npub@),
    {
        match identity::decode_npub(dest_npub) {
            Ok(x_only) => {
                let dest_addr = identity::node_addr_from_x_only(&x_only);
                self.sessions.is_established(&dest_addr)
            },
            Err(_) => false,
        }
    }

    /// Initiate a Noise IK handshake with a remote peer.
    ///
    /// `remote_npub` is the peer's npub string (bech32). Returns the full FMP msg1 wire packet
    /// (114 bytes) to send. Fails without effect if no randomness can be had.
    pub fn initiate_handshake(&mut self, remote_npub: &str) -> (r: Result<Vec<u8>, String>)
        requires
            old(self).wf(),
        ensures
            final(self).wf(),
            exists|
                epoch: Result<Seq<u8>, Seq<char>>,
                idx: Result<Seq<u8>, Seq<char>>,
                e: Seq<u8>,
            |
                identity::is_keypair(e) && (epoch matches Ok(v) ==> v.len() == 8) && (
                idx matches Ok(v) ==> v.len() == 4) && (final(self)@, text::bytes_result(r))
                    == #[trigger] node_initiate_drawn(old(self)@, remote_npub@, epoch, idx, e),
            npub_key(remote_npub@) is Err ==> final(self)@ == old(self)@ && text::bytes_result(r)
                == npub_key(remote_npub@),
            r is Err ==> final(self)@ == old(self)@,
            r matches Ok(v) ==> v@.len() == wire::MSG1_WIRE_SIZE,
    {
        proof {
            lemma_some_key(self@.secret, None);
        }
        // Nothing random is drawn for a bad npub
        if let Err(e) = npub_pubkey(remote_npub) {
            proof {
                let any = choose|e: Seq<u8>| session::drawn(None, e);
                let none = Err::<Seq<u8>, Seq<char>>(Seq::empty());
                assert((self@, npub_key(remote_npub@)) == node_initiate_drawn(
                    self@,
                    remote_npub@,
                    none,
                    none,
                    any,
                ));
            }
            return Err(e);
        }
        let epoch = crypto::random_bytes(8);
        let idx = crypto::random_bytes(4);
        self.initiate_handshake_drawn(remote_npub, epoch, idx, None)
    }

    /// Initiate a Noise IK handshake, given what came of drawing 8 random bytes for the epoch and
    /// 4 for the index: a failed draw is handed on as it is, and the link stays what it was. The
    /// ephemeral key is the given one, or a fresh one once both draws are there.
    pub fn initiate_handshake_drawn(
        &mut self,
        remote_npub: &str,
        epoch: Result<Vec<u8>, String>,
        idx: Result<Vec<u8>, String>,
        ephemeral: Option<SecretKey>,
    ) -> (r: Result<Vec<u8>, String>)
        requires
            old(self).wf(),
            epoch matches Ok(v) ==> v@.len() == 8,
            idx matches Ok(v) ==> v@.len() == 4,
        ensures
            final(self).wf(),
            exists|e: Seq<u8>| #[trigger]
                session::drawn(ephemeral, e) && (final(self)@, text::bytes_result(r))
                    == node_initiate_drawn(
                    old(self)@,
                    remote_npub@,
                    text::bytes_result(epoch),
                    text::bytes_result(idx),
                    e,
                ),
            r is Ok <==> npub_key(remote_npub@) is Ok && epoch is Ok && idx is Ok,
            r matches Ok(v) ==> v@.len() == wire::MSG1_WIRE_SIZE,
    {
        proof {
            lemma_some_key(self@.secret, ephemeral);
        }
        if let Err(e) = npub_pubkey(remote_npub) {
            return Err(e);
        }
        let epoch = match epoch {
            Ok(v) => v,
            Err(e) => return Err(e),
        };
        let idx = match idx {
            Ok(v) => v,
            Err(e) => return Err(e),
        };
        let our_idx: u32 = bytes::u32_le_at(idx.as_slice(), 0);
        assert(idx@.subrange(0, 4) =~= idx@);
        assert(epoch@.subrange(0, 8) =~= epoch@);
        self.initiate_handshake_with(
            remote_npub,
            bytes::array8_at(epoch.as_slice(), 0),
            our_idx,
            session::draw(ephemeral),
        )
    }

    /// Initiate a Noise IK handshake with a given epoch, index and ephemeral key.
    pub fn initiate_handshake_with(
        &mut self,
        remote_npub: &str,
        epoch: [u8; 8],
        our_idx: u32,
        ephemeral: SecretKey,
    ) -> (r: Result<Vec<u8>, String>)
        requires
            old(self).wf(),
        ensures
            final(self).wf(),
            (final(self)@, text::bytes_result(r)) == node_initiate(
                old(self)@,
                remote_npub@,
                epoch@,
                our_idx,
                ephemeral@,
            ),
            r is Ok <==> npub_key(remote_npub@) is Ok,
            r matches Ok(v) ==> v@.len() == wire::MSG1_WIRE_SIZE,
    {
        let remote_pub = match npub_pubkey(remote_npub) {
            Ok(k) => k,
            Err(e) => return Err(e),
        };
        let mut hs = HandshakeState::new_initiator(
            *self.identity.secret_key(),
            remote_pub,
            epoch,
        );
        let noise_msg1 = match hs.write_message_1_with(ephemeral) {
            Ok(m) => m,
            Err(e) => return Err(e),
        };
        let wire_msg1 = wire::build_msg1(our_idx, noise_msg1.as_slice());
        self.link = Some(LinkState::Handshaking { hs, our_idx });
        Ok(wire_msg1)
    }

    // ========================================================================
    // Message builders
    // ========================================================================

    /// Build an encrypted FMP frame carrying a link-layer message.
    ///
    /// `inner_payload` starts with the msg_type byte (e.g., 0x10 for TreeAnnounce).
    fn build_encrypted_message(&mut self, inner_payload: &[u8], now_ms: u64) -> (r: Result<
        Vec<u8>,
        String,
    >)
        requires
            old(self).wf(),
        ensures
            final(self).wf(),
            (final(self)@, text::bytes_result(r)) == node_frame(
                old(self)@,
                inner_payload@,
                now_ms,
            ),
    {
        match &mut self.link {
            None => Err("no active link".to_string()),
            Some(LinkState::Handshaking { .. }) => Err("not in established state".to_string()),
            Some(LinkState::Established { send_cipher, remote_idx, .. }) => {
                let mut inner: Vec<u8> = Vec::new();
                bytes::push_u32_le(&mut inner, wire::timestamp_of(now_ms));
                bytes::append(&mut inner, inner_payload);
                assert(inner@ =~= bytes::le_bytes(wire::timestamp(now_ms as nat), 4)
                    + inner_payload@);
                let counter: u64 = send_cipher.nonce();
                let payload_len: u16 = (inner.len() % 0x1_0000) as u16;
                proof {
                    bytes::lemma_le16_low(inner@.len());
                }
                let header = wire::build_established_header(0, payload_len, *remote_idx, counter);
                let ciphertext = match send_cipher.encrypt_with_aad(inner.as_slice(), &header) {
                    Ok(c) => c,
                    Err(e) => return Err(text::join2("encrypt failed: ", e.as_str())),
                };
                let mut pkt: Vec<u8> = bytes::to_vec(&header);
                bytes::append(&mut pkt, ciphertext.as_slice());
                Ok(pkt)
            },
        }
    }

    /// Build an encrypted TreeAnnounce message.
    fn build_tree_announce_message(&mut self, now_ms: u64) -> (r: Result<Vec<u8>, String>)
        requires
            old(self).wf(),
        ensures
            final(self).wf(),
            (final(self)@, text::bytes_result(r)) == node_tree_announce(old(self)@, now_ms),
    {
        let seq: u64 = match &self.link {
            Some(LinkState::Established { tree_seq, .. }) => *tree_seq,
            _ => return Err("not established".to_string()),
        };
        let node_addr = *self.identity.node_addr();
        let secret = *self.identity.secret_key();
        let tree_payload = match tree::build_tree_announce_at(
            &node_addr,
            &secret,
            seq,
            wire::unix_secs_of(now_ms),
        ) {
            Ok(p) => p,
            Err(e) => return Err(e),
        };
        match &mut self.link {
            Some(LinkState::Established { tree_seq, .. }) => {
                *tree_seq = seq.wrapping_add(1);
            },
            _ => {},
        }
        self.build_encrypted_message(tree_payload.as_slice(), now_ms)
    }

    /// Build an encrypted FilterAnnounce message.
    fn build_filter_announce_message(&mut self, now_ms: u64) -> (r: Result<Vec<u8>, String>)
        requires
            old(self).wf(),
        ensures
            final(self).wf(),
            (final(self)@, text::bytes_result(r)) == node_filter_announce(old(self)@, now_ms),
    {
        let seq: u64 = match &self.link {
            Some(LinkState::Established { filter_seq, .. }) => *filter_seq,
            _ => return Err("not established".to_string()),
        };
        let node_addr = *self.identity.node_addr();
        let filter_payload = bloom::build_self_filter_announce(&node_addr, seq);
        match &mut self.link {
            Some(LinkState::Established { filter_seq, .. }) => {
                *filter_seq = seq.wrapping_add(1);
            },
            _ => {},
        }
        self.build_encrypted_message(filter_payload.as_slice(), now_ms)
    }

    /// Build an encrypted ReceiverReport message.
    fn build_receiver_report(&mut self, now_ms: u64) -> (r: Result<Vec<u8>, String>)
        requires
            old(self).wf(),
        ensures
            final(self).wf(),
            (final(self)@, text::bytes_result(r)) == node_report(old(self)@, now_ms),
    {
        let report = match &mut self.link {
            Some(LinkState::Established { receiver_state, .. }) => receiver_state.build_report(
                now_ms,
            ),
            _ => return Err("not established".to_string()),
        };
        self.build_encrypted_message(report.as_slice(), now_ms)
    }
}

/// The public key that an npub names.
fn npub_pubkey(npub: &str) -> (r: Result<PublicKey, String>)
    ensures
        match r {
            Ok(k) => npub_key(npub@) == Ok::<Seq<u8>, Seq<char>>(k@),
            Err(e) => npub_key(npub@) == Err::<Seq<u8>, Seq<char>>(e@),
        },
{
    let x_only = match identity::decode_npub(npub) {
        Ok(x) => x,
        Err(e) => return Err(e),
    };
    identity::pubkey_from_x_only(&x_only)
}

fn random_epoch() -> (r: [u8; 8])
{
    epoch_of_draw(crypto::random_bytes(8))
}

/// The epoch for session handshakes, given what came of drawing 8 random bytes: those bytes, or
/// zeros where there was no randomness to be had.
pub fn epoch_of_draw(drawn: Result<Vec<u8>, String>) -> (r: [u8; 8])
    requires
        drawn matches Ok(v) ==> v@.len() == 8,
    ensures
        r@ == match drawn {
            Ok(v) => v@,
            Err(_) => bytes::zeros(8),
        },
{
    match drawn {
        Ok(v) => {
            let r = bytes::array8_at(v.as_slice(), 0);
            assert(r@ =~= v@);
            r
        },
        Err(_) => {
            let r = [0u8; 8];
            assert(r@ =~= bytes::zeros(8));
            r
        },
    }
}

impl FipsNode {
    // ========================================================================
    // Incoming packets
    // ========================================================================

    /// Process an incoming FMP message (from a binary transport frame).
    ///
    /// The result says what was received, which packets to send back, the decrypted payload and a
    /// human-readable status.
    pub fn process_incoming(&mut self, data: &[u8]) -> (r: Result<ProcessResult, String>)
        requires
            old(self).wf(),
        ensures
            final(self).wf(),
            exists|e: Seq<u8>, now: u64|
                identity::is_keypair(e) && (final(self)@, process_result(r))
                    == #[trigger] node_incoming(old(self)@, data@, e, now),
    {
        self.process_incoming_at(data, wire::current_time_ms(), None)
    }

    /// Process an incoming FMP message at a given time. If it starts a session, our ephemeral key
    /// is the given one or a fresh one.
    pub fn process_incoming_at(
        &mut self,
        data: &[u8],
        now_ms: u64,
        ephemeral: Option<SecretKey>,
    ) -> (r: Result<ProcessResult, String>)
        requires
            old(self).wf(),
        ensures
            final(self).wf(),
            exists|e: Seq<u8>| #[trigger]
                session::drawn(ephemeral, e) && (final(self)@, process_result(r)) == node_incoming(
                    old(self)@,
                    data@,
                    e,
                    now_ms,
                ),
    {
        proof {
            lemma_some_key(self@.secret, ephemeral);
        }
        let prefix = match wire::CommonPrefix::parse(data) {
            Some(p) => p,
            None => return Err("packet too short".to_string()),
        };
        if prefix.phase == wire::PHASE_MSG2 {
            self.handle_msg2(data, now_ms)
        } else if prefix.phase == wire::PHASE_ESTABLISHED {
            self.handle_encrypted(data, now_ms, ephemeral)
        } else {
            let d = text::decimal_text(prefix.phase as u64);
            let h = text::hexadecimal_text(prefix.phase as u64);
            let msg_type = text::join2("unknown_phase_", d.as_str());
            let info = text::join2("Unknown FMP phase: 0x", h.as_str());
            Ok(plain(msg_type.as_str(), Some(info)))
        }
    }

    fn handle_msg2(&mut self, data: &[u8], now_ms: u64) -> (r: Result<ProcessResult, String>)
        requires
            old(self).wf(),
        ensures
            final(self).wf(),
            (final(self)@, process_result(r)) == node_msg2(old(self)@, data@, now_ms),
    {
        let msg2 = match wire::Msg2Header::parse(data) {
            Some(m) => m,
            None => return Err("invalid msg2 packet".to_string()),
        };
        let link = match self.link.take() {
            Some(link) => link,
            None => return Err("no handshake in progress".to_string()),
        };
        match link {
            LinkState::Handshaking { hs, our_idx } => {
                let mut hs = hs;
                match hs.read_message_2(msg2.noise_payload.as_slice()) {
                    Ok(_) => {},
                    Err(e) => return Err(e),
                }
                let (send_cipher, recv_cipher) = match hs.into_transport() {
                    Ok((send, recv, _, _)) => (send, recv),
                    Err(e) => return Err(e),
                };
                self.link = Some(
                    LinkState::Established {
                        send_cipher,
                        recv_cipher,
                        replay: ReplayWindow::new(),
                        our_idx,
                        remote_idx: msg2.sender_idx,
                        receiver_state: ReceiverState::new(),
                        tree_seq: 1,
                        filter_seq: 1,
                    },
                );
                Ok(self.greet(now_ms))
            },
            other => {
                self.link = Some(other);
                Err("received msg2 but not in handshaking state".to_string())
            },
        }
    }

    /// Send TreeAnnounce and FilterAnnounce as soon as the link is established.
    fn greet(&mut self, now_ms: u64) -> (r: ProcessResult)
        requires
            old(self).wf(),
        ensures
            final(self).wf(),
            (final(self)@, r@) == node_greets(old(self)@, now_ms),
    {
        let mut responses: Vec<Vec<u8>> = Vec::new();
        assert(packets(responses@) =~= Seq::empty());
        match self.build_tree_announce_message(now_ms) {
            Ok(pkt) => {
                push_packet(&mut responses, pkt);
                assert(packets(responses@) =~= seq![pkt@]);
            },
            Err(e) => {
                let info = text::join2("Handshake OK, but TreeAnnounce failed: ", e.as_str());
                return plain("msg2", Some(info));
            },
        }
        let ghost first = packets(responses@)[0];
        match self.build_filter_announce_message(now_ms) {
            Ok(pkt) => {
                push_packet(&mut responses, pkt);
                assert(packets(responses@) =~= seq![first, pkt@]);
            },
            Err(e) => {
                let info = text::join2("Handshake OK, but FilterAnnounce failed: ", e.as_str());
                let mut r = plain("msg2", Some(info));
                r.responses = responses;
                return r;
            },
        }
        let info =
            "Noise IK handshake complete! Link established. Sent TreeAnnounce + FilterAnnounce.".to_string();
        let mut r = plain("msg2", Some(info));
        r.responses = responses;
        r
    }

    fn handle_encrypted(&mut self, data: &[u8], now_ms: u64, ephemeral: Option<SecretKey>) -> (r:
        Result<ProcessResult, String>)
        requires
            old(self).wf(),
        ensures
            final(self).wf(),
            exists|e: Seq<u8>| #[trigger]
                session::drawn(ephemeral, e) && (final(self)@, process_result(r)) == node_encrypted(
                    old(self)@,
                    data@,
                    e,
                    now_ms,
                ),
    {
        proof {
            lemma_some_key(self@.secret, ephemeral);
        }
        let plaintext = match &mut self.link {
            None => return Err("no active link".to_string()),
            Some(LinkState::Handshaking { .. }) => {
                return Err("received encrypted frame but handshake not complete".to_string());
            },
            Some(LinkState::Established { recv_cipher, replay, receiver_state, .. }) => {
                let header = match wire::EncryptedHeader::parse(data) {
                    Some(h) => h,
                    None => return Err("invalid encrypted frame".to_string()),
                };
                if !replay.check(header.counter) {
                    let n = text::decimal_text(header.counter);
                    let info = text::join2("Replay detected: counter ", n.as_str());
                    return Ok(plain("replay", Some(info)));
                }
                let ciphertext = header.ciphertext(data);
                let plaintext = match recv_cipher.decrypt_with_counter_and_aad(
                    ciphertext,
                    header.counter,
                    &header.header_bytes,
                ) {
                    Ok(p) => p,
                    Err(e) => return Err(e),
                };
                replay.accept(header.counter);
                match wire::parse_inner(plaintext.as_slice()) {
                    Some((timestamp, _, _)) => {
                        receiver_state.record_frame(header.counter, timestamp, data.len(), now_ms);
                    },
                    None => {},
                }
                plaintext
            },
        };
        match wire::parse_inner(plaintext.as_slice()) {
            Some((_, msg_type, payload)) => {
                self.dispatch_link_message(msg_type, payload, now_ms, ephemeral)
            },
            None => {
                let info = "Encrypted frame (inner header too short)".to_string();
                let mut r = plain("data_short", Some(info));
                r.payload = Some(plaintext);
                Ok(r)
            },
        }
    }

    /// Dispatch a decrypted link-layer message by msg_type.
    fn dispatch_link_message(
        &mut self,
        msg_type: u8,
        payload: &[u8],
        now_ms: u64,
        ephemeral: Option<SecretKey>,
    ) -> (r: Result<ProcessResult, String>)
        requires
            old(self).wf(),
        ensures
            final(self).wf(),
            exists|e: Seq<u8>| #[trigger]
                session::drawn(ephemeral, e) && (final(self)@, process_result(r)) == node_dispatch(
                    old(self)@,
                    msg_type,
                    payload@,
                    e,
                    now_ms,
                ),
    {
        proof {
            lemma_some_key(self@.secret, ephemeral);
        }
        if msg_type == wire::MSG_TYPE_TREE_ANNOUNCE {
            let n = text::decimal_text(payload.len() as u64);
            let info = text::join3("TreeAnnounce received (", n.as_str(), " bytes)");
            Ok(plain("tree_announce", Some(info)))
        } else if msg_type == wire::MSG_TYPE_FILTER_ANNOUNCE {
            let n = text::decimal_text(payload.len() as u64);
            let info = text::join3("FilterAnnounce received (", n.as_str(), " bytes)");
            Ok(plain("filter_announce", Some(info)))
        } else if msg_type == wire::MSG_TYPE_SENDER_REPORT {
            match self.build_receiver_report(now_ms) {
                Ok(pkt) => {
                    let info = "SenderReport received, sent ReceiverReport".to_string();
                    let mut r = plain("sender_report", Some(info));
                    push_packet(&mut r.responses, pkt);
                    assert(packets(r.responses@) =~= seq![pkt@]);
                    Ok(r)
                },
                Err(e) => {
                    let info = text::join2(
                        "SenderReport received, ReceiverReport failed: ",
                        e.as_str(),
                    );
                    Ok(plain("sender_report", Some(info)))
                },
            }
        } else if msg_type == wire::MSG_TYPE_RECEIVER_REPORT {
            Ok(plain("receiver_report", None))
        } else if msg_type == wire::MSG_TYPE_SESSION_DATAGRAM {
            self.handle_session_datagram(payload, now_ms, ephemeral)
        } else if msg_type == wire::MSG_TYPE_HEARTBEAT {
            Ok(plain("heartbeat", None))
        } else if msg_type == wire::MSG_TYPE_DISCONNECT {
            Ok(plain("disconnect", Some("Disconnect received".to_string())))
        } else {
            let h = text::hex_byte_text(msg_type);
            let name = text::join2("link_msg_0x", h.as_str());
            let info = text::join2("Unknown link message type: 0x", h.as_str());
            let mut r = plain(name.as_str(), Some(info));
            r.payload = Some(bytes::to_vec(payload));
            Ok(r)
        }
    }

    // ========================================================================
    // SessionDatagram handler
    // ========================================================================

    fn handle_session_datagram(
        &mut self,
        payload: &[u8],
        now_ms: u64,
        ephemeral: Option<SecretKey>,
    ) -> (r: Result<ProcessResult, String>)
        requires
            old(self).wf(),
        ensures
            final(self).wf(),
            exists|e: Seq<u8>| #[trigger]
                session::drawn(ephemeral, e) && (final(self)@, process_result(r)) == node_datagram(
                    old(self)@,
                    payload@,
                    e,
                    now_ms,
                ),
    {
        proof {
            lemma_some_key(self@.secret, ephemeral);
        }
        let (ttl, src_addr, dest_addr, fsp_payload) = match wire::parse_session_datagram_body(
            payload,
        ) {
            Some((ttl, _, src, dest, fsp)) => (ttl, src, dest, fsp),
            None => return Err("invalid SessionDatagram (too short)".to_string()),
        };
        let our_addr = *self.identity.node_addr();
        if !bytes::same16(&dest_addr, &our_addr) {
            let d = crypto::hex_encode(&dest_addr);
            let t = text::decimal_text(ttl as u64);
            let start = text::join3("SessionDatagram not for us (dest=", d.as_str(), ", ttl=");
            let info = text::join3(start.as_str(), t.as_str(), ")");
            return Ok(plain("session_datagram_forward", Some(info)));
        }
        let secret = *self.identity.secret_key();
        let event = match self.sessions.process_incoming_at(
            src_addr,
            fsp_payload,
            self.session_epoch,
            &secret,
            now_ms,
            ephemeral,
        ) {
            Ok(event) => event,
            Err(e) => return Err(e),
        };
        let responses = match self.forward_all(&src_addr, &event.fsp_responses, now_ms) {
            Ok(responses) => responses,
            Err(e) => {
                let info = text::join2("Failed to encrypt session response: ", e.as_str());
                return Ok(plain("session_error", Some(info)));
            },
        };
        let SessionEvent { info, remote_npub, payload: app_payload, from, kind, .. } = event;
        let mut result = plain("session", Some(info));
        result.responses = responses;
        result.session_peer_npub = remote_npub;
        let reported = self.handle_session_reports(&src_addr, kind, result, now_ms);
        Ok(self.handle_payload(from, app_payload, reported, now_ms))
    }

    fn forward_all(&mut self, dest: &[u8; 16], list: &Vec<Vec<u8>>, now_ms: u64) -> (r: Result<
        Vec<Vec<u8>>,
        String,
    >)
        requires
            old(self).wf(),
        ensures
            final(self).wf(),
            final(self)@ == node_forward_all(old(self)@, dest@, packets(list@), now_ms).0,
            match r {
                Ok(frames) => node_forward_all(old(self)@, dest@, packets(list@), now_ms).1 == Ok::<
                    Seq<Seq<u8>>,
                    Seq<char>,
                >(packets(frames@)),
                Err(e) => node_forward_all(old(self)@, dest@, packets(list@), now_ms).1 == Err::<
                    Seq<Seq<u8>>,
                    Seq<char>,
                >(e@),
            },
    {
        let mut frames: Vec<Vec<u8>> = Vec::new();
        let ghost all = packets(list@);
        let ghost start = self@;
        assert(packets(frames@) =~= Seq::empty());
        let mut i: usize = 0;
        while i < list.len()
            invariant
                i <= list.len(),
                self.wf(),
                all == packets(list@),
                start == old(self)@,
                self@ == node_forward_all(start, dest@, all.take(i as int), now_ms).0,
                node_forward_all(start, dest@, all.take(i as int), now_ms).1 == Ok::<
                    Seq<Seq<u8>>,
                    Seq<char>,
                >(packets(frames@)),
            decreases list.len() - i,
        {
            let ghost next = all.take(i + 1);
            assert(next.drop_last() =~= all.take(i as int));
            assert(next.last() == list@[i as int]@);
            let inner = self.sessions.wrap_in_datagram(dest, list[i].as_slice());
            match self.build_encrypted_message(inner.as_slice(), now_ms) {
                Ok(pkt) => push_packet(&mut frames, pkt),
                Err(e) => {
                    proof {
                        lemma_forward_stops(start, dest@, all, i + 1, now_ms);
                    }
                    return Err(e);
                },
            }
            i = i + 1;
        }
        assert(all.take(i as int) =~= all);
        Ok(frames)
    }

    fn handle_session_reports(
        &mut self,
        src_addr: &[u8; 16],
        kind: SessionEventKind,
        result: ProcessResult,
        now_ms: u64,
    ) -> (r: ProcessResult)
        requires
            old(self).wf(),
        ensures
            final(self).wf(),
            (final(self)@, r@) == node_session_reports(
                old(self)@,
                src_addr@,
                kind,
                result@,
                now_ms,
            ),
    {
        let mut result = result;
        if kind == SessionEventKind::SenderReport {
            match self.sessions.build_session_receiver_report_at(src_addr, now_ms, now_ms) {
                Ok(fsp) => {
                    let inner = self.sessions.wrap_in_datagram(src_addr, fsp.as_slice());
                    match self.build_encrypted_message(inner.as_slice(), now_ms) {
                        Ok(pkt) => push_packet(&mut result.responses, pkt),
                        Err(_) => {},
                    }
                },
                Err(_) => {},
            }
            result.msg_type = "session_sender_report".to_string();
        } else if kind == SessionEventKind::ReceiverReport {
            result.msg_type = "session_receiver_report".to_string();
        }
        result
    }

    fn handle_payload(
        &mut self,
        from: [u8; 16],
        payload: Option<(u16, Vec<u8>)>,
        result: ProcessResult,
        now_ms: u64,
    ) -> (r: ProcessResult)
        requires
            old(self).wf(),
        ensures
            final(self).wf(),
            (final(self)@, r@) == node_payload(
                old(self)@,
                from@,
                match payload {
                    Some(p) => Some((p.0 as nat, p.1@)),
                    None => None,
                },
                result@,
                now_ms,
            ),
    {
        let (port, data) = match payload {
            Some(p) => p,
            None => return result,
        };
        let mut result = result;
        if port == wire::FSP_PORT_CHAT {
            let said = text::lossy_text(data.as_slice());
            let sender = crypto::hex_encode(vstd::slice::slice_subrange(&from, 0, 4));
            assert(from@.subrange(0, 4) =~= from@.take(4));
            result.msg_type = "session_chat".to_string();
            result.payload = Some(data);
            result.info = Some(text::join4("Chat from ", sender.as_str(), ": ", said.as_str()));
            result
        } else if port == wire::FSP_PORT_IPV6_SHIM {
            let src_ipv6 = ipv6::ipv6_from_node_addr(&from);
            let dst_ipv6 = ipv6::ipv6_from_node_addr(self.identity.node_addr());
            match ipv6::decompress_ipv6(data.as_slice(), src_ipv6, dst_ipv6) {
                Some(packet) => self.handle_ipv6(from, packet, result, now_ms),
                None => {
                    result.msg_type = "session_ipv6_bad".to_string();
                    result.payload = Some(data);
                    result.info = Some("Failed to decompress IPv6 shim packet".to_string());
                    result
                },
            }
        } else {
            let p = text::short_decimal_text(port);
            result.msg_type = text::join2("session_port_", p.as_str());
            result.payload = Some(data);
            result
        }
    }

    fn handle_ipv6(
        &mut self,
        from: [u8; 16],
        packet: Vec<u8>,
        result: ProcessResult,
        now_ms: u64,
    ) -> (r: ProcessResult)
        requires
            old(self).wf(),
        ensures
            final(self).wf(),
            (final(self)@, r@) == node_ipv6(old(self)@, from@, packet@, result@, now_ms),
    {
        broadcast use vstd::std_specs::hash::group_hash_axioms;

        let mut result = result;
        let source = ipv6::format_ipv6(&ipv6::ipv6_from_node_addr(&from));
        if self.raw_ipv6_passthrough {
            result.msg_type = "session_ipv6".to_string();
            result.payload = Some(packet);
            result.info = Some(text::join2("IPv6 shim packet from ", source.as_str()));
            return result;
        }
        match ipv6::parse_icmpv6_echo_reply(packet.as_slice()) {
            Some((_, seq)) => {
                let s = text::short_decimal_text(seq);
                let start = text::join4(
                    "ICMPv6 Echo Reply from ",
                    source.as_str(),
                    " seq=",
                    s.as_str(),
                );
                let sent = self.pending_pings.remove(&seq);
                assert(self.pending_pings@ =~= old(self).pending_pings@.remove(seq));
                result.msg_type = "ping_reply".to_string();
                result.payload = Some(packet);
                result.info = match sent {
                    Some(sent) => {
                        let rtt = text::decimal_text(now_ms.saturating_sub(sent));
                        Some(text::join4(start.as_str(), " rtt=", rtt.as_str(), "ms"))
                    },
                    None => Some(start),
                };
                return result;
            },
            None => {},
        }
        match ipv6::parse_icmpv6_echo_request(packet.as_slice()) {
            Some((_, seq)) => {
                self.answer_echo(&from, packet.as_slice(), &mut result.responses, now_ms);
                let s = text::short_decimal_text(seq);
                let start = text::join3("ICMPv6 Echo Request from ", source.as_str(), " seq=");
                result.msg_type = "ping_request".to_string();
                result.payload = Some(packet);
                result.info = Some(text::join3(start.as_str(), s.as_str(), ", sent Echo Reply"));
            },
            None => {
                result.msg_type = "session_ipv6".to_string();
                result.payload = Some(packet);
                result.info = Some(text::join2("IPv6 shim packet from ", source.as_str()));
            },
        }
        result
    }

    fn answer_echo(
        &mut self,
        from: &[u8; 16],
        request: &[u8],
        responses: &mut Vec<Vec<u8>>,
        now_ms: u64,
    )
        requires
            old(self).wf(),
            ipv6::is_echo(request@, ipv6::ICMPV6_ECHO_REQUEST),
        ensures
            final(self).wf(),
            (final(self)@, packets(final(responses)@)) == node_answers_echo(
                old(self)@,
                from@,
                request@,
                packets(old(responses)@),
                now_ms,
            ),
    {
        proof {
            ipv6::law_echo_reply_answers(request@);
        }
        match ipv6::build_icmpv6_echo_reply(request) {
            Some(reply) => match ipv6::compress_ipv6(reply.as_slice()) {
                Some(compressed) => match self.sessions.send_data_at(
                    from,
                    wire::FSP_PORT_IPV6_SHIM,
                    wire::FSP_PORT_IPV6_SHIM,
                    compressed.as_slice(),
                    now_ms,
                ) {
                    Ok(fsp) => {
                        let inner = self.sessions.wrap_in_datagram(from, fsp.as_slice());
                        match self.build_encrypted_message(inner.as_slice(), now_ms) {
                            Ok(pkt) => push_packet(responses, pkt),
                            Err(_) => {},
                        }
                    },
                    Err(_) => {},
                },
                None => {},
            },
            None => {},
        }
    }
}

/// There is a key that may be drawn.
proof fn lemma_some_key(secret: Seq<u8>, ephemeral: Option<SecretKey>)
    requires
        identity::is_keypair(secret),
    ensures
        exists|e: Seq<u8>| session::drawn(ephemeral, e),
{
    let any = match ephemeral {
        Some(k) => k@,
        None => secret,
    };
    assert(session::drawn(ephemeral, any));
}

proof fn lemma_forward_stops(n: NodeModel, dest: Seq<u8>, list: Seq<Seq<u8>>, i: int, now: u64)
    requires
        0 <= i <= list.len(),
        node_forward_all(n, dest, list.take(i), now).1 is Err,
    ensures
        node_forward_all(n, dest, list, now) == node_forward_all(n, dest, list.take(i), now),
    decreases list.len() - i,
{
    if i < list.len() {
        assert(list.take(i + 1).drop_last() =~= list.take(i));
        lemma_forward_stops(n, dest, list, i + 1, now);
    } else {
        assert(list.take(i) =~= list);
    }
}

impl FipsNode {
    // ========================================================================
    // Sessions
    // ========================================================================

    /// Initiate an end-to-end session with a remote node (Noise XK).
    ///
    /// `dest_npub` is the remote node's npub string. Returns the FMP wire packet to send.
    pub fn connect_session(&mut self, dest_npub: &str) -> (r: Result<Vec<u8>, String>)
        requires
            old(self).wf(),
        ensures
            final(self).wf(),
            exists|e: Seq<u8>, now: u64|
                identity::is_keypair(e) && (final(self)@, text::bytes_result(r))
                    == #[trigger] node_connect(old(self)@, dest_npub@, e, now),
    {
        self.connect_session_at(dest_npub, wire::current_time_ms(), None)
    }

    /// Initiate a session at a given time, with a given ephemeral key or a fresh one.
    pub fn connect_session_at(
        &mut self,
        dest_npub: &str,
        now_ms: u64,
        ephemeral: Option<SecretKey>,
    ) -> (r: Result<Vec<u8>, String>)
        requires
            old(self).wf(),
        ensures
            final(self).wf(),
            exists|e: Seq<u8>| #[trigger]
                session::drawn(ephemeral, e) && (final(self)@, text::bytes_result(r))
                    == node_connect(old(self)@, dest_npub@, e, now_ms),
    {
        proof {
            lemma_some_key(self@.secret, ephemeral);
        }
        if self.is_session_established(dest_npub) {
            return Err("session already established for this destination".to_string());
        }
        let x_only = match identity::decode_npub(dest_npub) {
            Ok(x) => x,
            Err(e) => return Err(e),
        };
        let dest_pub = match identity::pubkey_from_x_only(&x_only) {
            Ok(k) => k,
            Err(e) => return Err(e),
        };
        assert(identity::x_only(identity::even_key(x_only@)) =~= x_only@);
        let dest_addr = identity::node_addr_from_x_only(&x_only);
        if bytes::same16(&dest_addr, self.identity.node_addr()) {
            return Err("cannot start a session to self".to_string());
        }
        let secret = *self.identity.secret_key();
        let fsp = self.sessions.initiate_at(
            dest_addr,
            &dest_pub,
            self.session_epoch,
            &secret,
            now_ms,
            ephemeral,
        );
        self.forward(&dest_addr, fsp, now_ms)
    }

    /// Send a session payload on its way: in its envelope, in a frame.
    fn forward(&mut self, dest: &[u8; 16], fsp: Result<Vec<u8>, String>, now_ms: u64) -> (r: Result<
        Vec<u8>,
        String,
    >)
        requires
            old(self).wf(),
        ensures
            final(self).wf(),
            (final(self)@, text::bytes_result(r)) == node_forward(
                old(self)@,
                dest@,
                text::bytes_result(fsp),
                now_ms,
            ),
    {
        match fsp {
            Ok(payload) => {
                let inner = self.sessions.wrap_in_datagram(dest, payload.as_slice());
                self.build_encrypted_message(inner.as_slice(), now_ms)
            },
            Err(e) => Err(e),
        }
    }

    fn send_port(&mut self, dest: &[u8; 16], port: u16, payload: &[u8], now_ms: u64) -> (r: Result<
        Vec<u8>,
        String,
    >)
        requires
            old(self).wf(),
        ensures
            final(self).wf(),
            (final(self)@, text::bytes_result(r)) == node_send_port(
                old(self)@,
                dest@,
                port,
                payload@,
                now_ms,
            ),
    {
        let fsp = self.sessions.send_data_at(dest, port, port, payload, now_ms);
        self.forward(dest, fsp, now_ms)
    }

    /// Send a chat message through an established session.
    ///
    /// Returns the FMP wire packet to send.
    pub fn send_message(&mut self, dest_npub: &str, text: &str) -> (r: Result<Vec<u8>, String>)
        requires
            old(self).wf(),
        ensures
            final(self).wf(),
            exists|now: u64|
                (final(self)@, text::bytes_result(r)) == #[trigger] node_send_message(
                    old(self)@,
                    dest_npub@,
                    vstd::utf8::encode_utf8(text@),
                    now,
                ),
    {
        self.send_message_at(dest_npub, text, wire::current_time_ms())
    }

    /// Send a chat message at a given time.
    pub fn send_message_at(&mut self, dest_npub: &str, text: &str, now_ms: u64) -> (r: Result<
        Vec<u8>,
        String,
    >)
        requires
            old(self).wf(),
        ensures
            final(self).wf(),
            (final(self)@, text::bytes_result(r)) == node_send_message(
                old(self)@,
                dest_npub@,
                vstd::utf8::encode_utf8(text@),
                now_ms,
            ),
    {
        let x_only = match identity::decode_npub(dest_npub) {
            Ok(x) => x,
            Err(e) => return Err(e),
        };
        let dest_addr = identity::node_addr_from_x_only(&x_only);
        if bytes::same16(&dest_addr, self.identity.node_addr()) {
            return Err("cannot send a session message to self".to_string());
        }
        self.send_port(&dest_addr, wire::FSP_PORT_CHAT, text.as_bytes(), now_ms)
    }

    /// Send an ICMPv6 Echo Request through an established session.
    pub fn send_ping(&mut self, dest_npub: &str) -> (r: Result<Vec<u8>, String>)
        requires
            old(self).wf(),
        ensures
            final(self).wf(),
            exists|now: u64|
                (final(self)@, text::bytes_result(r)) == #[trigger] node_send_ping(
                    old(self)@,
                    dest_npub@,
                    now,
                ),
    {
        self.send_ping_at(dest_npub, wire::current_time_ms())
    }

    /// Send an ICMPv6 Echo Request at a given time.
    pub fn send_ping_at(&mut self, dest_npub: &str, now_ms: u64) -> (r: Result<Vec<u8>, String>)
        requires
            old(self).wf(),
        ensures
            final(self).wf(),
            (final(self)@, text::bytes_result(r)) == node_send_ping(
                old(self)@,
                dest_npub@,
                now_ms,
            ),
    {
        broadcast use vstd::std_specs::hash::group_hash_axioms;

        let x_only = match identity::decode_npub(dest_npub) {
            Ok(x) => x,
            Err(e) => return Err(e),
        };
        let dest_addr = identity::node_addr_from_x_only(&x_only);
        if bytes::same16(&dest_addr, self.identity.node_addr()) {
            return Err("cannot send an IPv6 ping to self through a session".to_string());
        }
        let src_ipv6 = ipv6::ipv6_from_node_addr(self.identity.node_addr());
        let dst_ipv6 = ipv6::ipv6_from_node_addr(&dest_addr);
        let seq: u16 = self.next_ping_seq;
        self.next_ping_seq = seq.wrapping_add(1);
        self.pending_pings.insert(seq, now_ms);
        let ipv6_packet = ipv6::build_icmpv6_echo_request(src_ipv6, dst_ipv6, seq);
        proof {
            ipv6::law_echo_request_parses(src_ipv6@, dst_ipv6@, seq);
        }
        match ipv6::compress_ipv6(ipv6_packet.as_slice()) {
            Some(compressed) => self.send_port(
                &dest_addr,
                wire::FSP_PORT_IPV6_SHIM,
                compressed.as_slice(),
                now_ms,
            ),
            None => Err("IPv6 shim compression failed".to_string()),
        }
    }

    /// Send a raw IPv6 packet through an established session on port 256.
    pub fn send_ipv6(&mut self, dest_npub: &str, packet: &[u8]) -> (r: Result<Vec<u8>, String>)
        requires
            old(self).wf(),
        ensures
            final(self).wf(),
            exists|now: u64|
                (final(self)@, text::bytes_result(r)) == #[trigger] node_send_ipv6(
                    old(self)@,
                    dest_npub@,
                    packet@,
                    now,
                ),
    {
        self.send_ipv6_at(dest_npub, packet, wire::current_time_ms())
    }

    /// Send a raw IPv6 packet at a given time.
    pub fn send_ipv6_at(&mut self, dest_npub: &str, packet: &[u8], now_ms: u64) -> (r: Result<
        Vec<u8>,
        String,
    >)
        requires
            old(self).wf(),
        ensures
            final(self).wf(),
            (final(self)@, text::bytes_result(r)) == node_send_ipv6(
                old(self)@,
                dest_npub@,
                packet@,
                now_ms,
            ),
    {
        let x_only = match identity::decode_npub(dest_npub) {
            Ok(x) => x,
            Err(e) => return Err(e),
        };
        let dest_addr = identity::node_addr_from_x_only(&x_only);
        if bytes::same16(&dest_addr, self.identity.node_addr()) {
            return Err("cannot send raw IPv6 to self through a session".to_string());
        }
        match ipv6::compress_ipv6(packet) {
            Some(compressed) => self.send_port(
                &dest_addr,
                wire::FSP_PORT_IPV6_SHIM,
                compressed.as_slice(),
                now_ms,
            ),
            None => Err("IPv6 shim compression failed".to_string()),
        }
    }

    /// Send an empty data packet to port 0 as a session-layer keepalive.
    pub fn send_keepalive(&mut self, dest_npub: &str) -> (r: Result<Vec<u8>, String>)
        requires
            old(self).wf(),
        ensures
            final(self).wf(),
            exists|now: u64|
                (final(self)@, text::bytes_result(r)) == #[trigger] node_send_keepalive(
                    old(self)@,
                    dest_npub@,
                    now,
                ),
    {
        self.send_keepalive_at(dest_npub, wire::current_time_ms())
    }

    /// Send a session-layer keepalive at a given time.
    pub fn send_keepalive_at(&mut self, dest_npub: &str, now_ms: u64) -> (r: Result<Vec<u8>, String>)
        requires
            old(self).wf(),
        ensures
            final(self).wf(),
            (final(self)@, text::bytes_result(r)) == node_send_keepalive(
                old(self)@,
                dest_npub@,
                now_ms,
            ),
    {
        let x_only = match identity::decode_npub(dest_npub) {
            Ok(x) => x,
            Err(e) => return Err(e),
        };
        let dest_addr = identity::node_addr_from_x_only(&x_only);
        let nothing: [u8; 0] = [];
        assert(nothing@ =~= Seq::<u8>::empty());
        self.send_port(&dest_addr, 0, &nothing, now_ms)
    }
}

// ============================================================================
// Laws
// ============================================================================

/// Whether two nodes are the ends of one link in one direction: what the first sends next is
/// sealed with the key that the second opens with, under a counter that is new to it.
pub open spec fn linked(sender: NodeModel, receiver: NodeModel) -> bool {
    &&& sender.link matches Some(l) && l is Established
    &&& receiver.link matches Some(l) && l is Established
    &&& sender.link->0->send.key is Some
    &&& sender.link->0->send.key == receiver.link->0->recv.key
    &&& sender.link->0->send.nonce <= u64::MAX
    &&& replay::replay_passes(receiver.link->0->replay, sender.link->0->send.nonce)
}

/// The receiving end of a link after it has accepted a frame.
pub open spec fn link_received(
    n: NodeModel,
    counter: nat,
    timestamp: nat,
    size: nat,
    now: u64,
) -> NodeModel {
    match n.link {
        Some(
            LinkModel::Established {
                send,
                recv,
                replay,
                our_idx,
                remote_idx,
                receiver,
                tree_seq,
                filter_seq,
            },
        ) => NodeModel {
            link: Some(
                LinkModel::Established {
                    send,
                    recv,
                    replay: replay::replay_accepted(replay, counter),
                    our_idx,
                    remote_idx,
                    receiver: mmp::receiver_recorded(
                        receiver,
                        counter,
                        timestamp,
                        size,
                        now as nat,
                    ),
                    tree_seq,
                    filter_seq,
                },
            ),
            ..n
        },
        _ => n,
    }
}

/// A frame that one end of a link sends is accepted at the other end and handed on with the type
/// and the payload that were put in.
pub proof fn law_frame_arrives(
    sender: NodeModel,
    receiver: NodeModel,
    inner: Seq<u8>,
    ephemeral: Seq<u8>,
    sent_at: u64,
    received_at: u64,
)
    requires
        linked(sender, receiver),
        inner.len() > 0,
        node_frame(sender, inner, sent_at).1 is Ok,
    ensures
        ({
            let frame = node_frame(sender, inner, sent_at).1->Ok_0;
            let accepted = link_received(
                receiver,
                sender.link->0->send.nonce,
                wire::timestamp(sent_at as nat),
                frame.len(),
                received_at,
            );
            node_incoming(receiver, frame, ephemeral, received_at) == node_dispatch(
                accepted,
                inner[0],
                inner.skip(1),
                ephemeral,
                received_at,
            )
        }),
{
    broadcast use bytes::lemma_le_bytes_len;

    let send = sender.link->0->send;
    let recv = receiver.link->0->recv;
    let remote_idx = sender.link->0->remote_idx;
    let stamp = wire::timestamp(sent_at as nat);
    let plain = bytes::le_bytes(stamp, 4) + inner;
    let header = wire::established_header(0, plain.len(), remote_idx as nat, send.nonce);
    bytes::lemma_le16_low(plain.len());
    let short = (plain.len() % 0x1_0000) as u16;
    assert(header == wire::established_header(0, short as nat, remote_idx as nat, send.nonce));
    cipher::law_sealed_opens(send, recv, header, plain);
    let ciphertext = cipher::cipher_sealed(send, header, plain).1->Ok_0;
    wire::law_established_header_round_trip(0, short, remote_idx, send.nonce as u64, ciphertext);
    let frame = header + ciphertext;
    bytes::lemma_le_integers(0, stamp as u32, 0);
    assert(plain.take(4) =~= bytes::le_bytes(stamp, 4));
    assert(plain[4] == inner[0]);
    assert(plain.skip(5) =~= inner.skip(1));
    assert(wire::phase_of(frame) == wire::PHASE_ESTABLISHED);
}

/// A frame whose counter was accepted before is refused as a replay, and nothing changes.
pub proof fn law_replayed_frame_is_refused(
    n: NodeModel,
    frame: Seq<u8>,
    ephemeral: Seq<u8>,
    now: u64,
)
    requires
        n.link matches Some(l) && l is Established,
        wire::is_encrypted(frame),
        !replay::replay_passes(n.link->0->replay, wire::counter_of(frame)),
    ensures
        node_incoming(n, frame, ephemeral, now).0 == n,
        node_incoming(n, frame, ephemeral, now).1 is Ok,
        node_incoming(n, frame, ephemeral, now).1->Ok_0.msg_type == "replay"@,
        node_incoming(n, frame, ephemeral, now).1->Ok_0.responses == Seq::<Seq<u8>>::empty(),
        node_incoming(n, frame, ephemeral, now).1->Ok_0.payload is None,
{
}

/// A frame that does not open is refused with the reason, and nothing changes: its counter stays
/// free for the frame that it belongs to.
pub proof fn law_bad_frame_changes_nothing(
    n: NodeModel,
    frame: Seq<u8>,
    ephemeral: Seq<u8>,
    now: u64,
)
    requires
        n.link matches Some(l) && l is Established,
        wire::is_encrypted(frame),
        replay::replay_passes(n.link->0->replay, wire::counter_of(frame)),
        cipher::cipher_opened_at(
            n.link->0->recv,
            wire::counter_of(frame),
            frame.take(16),
            frame.skip(16),
        ) is Err,
    ensures
        node_incoming(n, frame, ephemeral, now) == (
            n,
            Err::<ResultModel, Seq<char>>(
                cipher::cipher_opened_at(
                    n.link->0->recv,
                    wire::counter_of(frame),
                    frame.take(16),
                    frame.skip(16),
                )->Err_0,
            ),
        ),
{
}

/// A datagram for another node changes nothing and is answered with nothing.
pub proof fn law_foreign_datagram_is_ignored(
    n: NodeModel,
    payload: Seq<u8>,
    ephemeral: Seq<u8>,
    now: u64,
)
    requires
        wire::parsed_datagram(payload) matches Some(d) && d.dest_addr != node_addr(n),
    ensures
        node_datagram(n, payload, ephemeral, now).0 == n,
        node_datagram(n, payload, ephemeral, now).1 is Ok,
        node_datagram(n, payload, ephemeral, now).1->Ok_0.msg_type == "session_datagram_forward"@,
        node_datagram(n, payload, ephemeral, now).1->Ok_0.responses == Seq::<Seq<u8>>::empty(),
{
}

/// A chat message sent on a session is shown at the other end as it was written, whatever way
/// its datagram took.
#[verifier::rlimit(40)]
pub proof fn law_chat_arrives(
    sender: SessionsModel,
    receiver: NodeModel,
    message: Seq<char>,
    ephemeral: Seq<u8>,
    sent_at: nat,
    received_at: u64,
)
    requires
        sender.addr.len() == 16,
        receiver.sessions.addr == node_addr(receiver),
        session::established_with(sender, receiver.sessions.addr),
        session::established_with(receiver.sessions, sender.addr),
        ({
            let s = session::session_with(sender, receiver.sessions.addr).phase;
            let r = session::session_with(receiver.sessions, sender.addr).phase;
            &&& s->send.key == r->recv.key
            &&& s->send.key is Some
            &&& s->send.nonce <= u64::MAX
            &&& replay::replay_passes(r->replay, s->send.nonce)
        }),
        session::sessions_send(
            sender,
            receiver.sessions.addr,
            wire::FSP_PORT_CHAT as nat,
            wire::FSP_PORT_CHAT as nat,
            vstd::utf8::encode_utf8(message),
            sent_at,
        ).1 is Ok,
    ensures
        ({
            let (after, packet) = session::sessions_send(
                sender,
                receiver.sessions.addr,
                wire::FSP_PORT_CHAT as nat,
                wire::FSP_PORT_CHAT as nat,
                vstd::utf8::encode_utf8(message),
                sent_at,
            );
            let datagram = session::enveloped(after, receiver.sessions.addr, packet->Ok_0);
            let result = node_datagram(receiver, datagram.skip(1), ephemeral, received_at).1;
            &&& datagram[0] == wire::MSG_TYPE_SESSION_DATAGRAM
            &&& result is Ok
            &&& result->Ok_0.msg_type == "session_chat"@
            &&& result->Ok_0.payload == Some(vstd::utf8::encode_utf8(message))
            &&& result->Ok_0.info == Some(
                "Chat from "@ + text::hex_text(sender.addr.take(4)) + ": "@ + message,
            )
            &&& result->Ok_0.responses == Seq::<Seq<u8>>::empty()
        }),
{
    let bytes_sent = vstd::utf8::encode_utf8(message);
    text::law_text_is_shown(message);
    session::law_data_arrives(
        sender,
        receiver.sessions,
        wire::FSP_PORT_CHAT,
        wire::FSP_PORT_CHAT,
        bytes_sent,
        sent_at,
        received_at as nat,
    );
    let (after, packet) = session::sessions_send(
        sender,
        receiver.sessions.addr,
        wire::FSP_PORT_CHAT as nat,
        wire::FSP_PORT_CHAT as nat,
        bytes_sent,
        sent_at,
    );
    session::law_envelope_opens(after, receiver.sessions.addr, packet->Ok_0);
    let event = session::sessions_data(
        receiver.sessions,
        sender.addr,
        packet->Ok_0,
        received_at as nat,
    ).1;
    assert(event->Ok_0.fsp_responses =~= Seq::empty());
    assert(event->Ok_0.from == sender.addr);
    assert(packet->Ok_0.len() >= 4) by {
        bytes::lemma_le_bytes_len(0, 2);
    }
    assert(session::sessions_incoming(
        receiver.sessions,
        sender.addr,
        packet->Ok_0,
        receiver.session_epoch,
        receiver.secret,
        ephemeral,
        received_at as nat,
    ).1 == event);
}

/// A ping and its answer survive the shim: the request arrives as it was built, the reply arrives
/// as it was built, and it carries the sequence number of the request.
#[verifier::rlimit(40)]
pub proof fn law_ping_survives_shim(asker: Seq<u8>, answerer: Seq<u8>, seq: u16)
    requires
        asker.len() == 16,
        answerer.len() == 16,
    ensures
        ({
            let a = ipv6::ipv6_of(asker);
            let b = ipv6::ipv6_of(answerer);
            let request = ipv6::echo_request(a, b, seq);
            let reply = ipv6::echo_reply(request);
            &&& ipv6::is_shim(ipv6::compressed(request))
            &&& ipv6::decompressed(ipv6::compressed(request), a, b) == request
            &&& ipv6::is_echo(request, ipv6::ICMPV6_ECHO_REQUEST)
            &&& ipv6::is_shim(ipv6::compressed(reply))
            &&& ipv6::decompressed(ipv6::compressed(reply), b, a) == reply
            &&& ipv6::is_echo(reply, ipv6::ICMPV6_ECHO_REPLY)
            &&& ipv6::echo_seq(reply) == seq
        }),
{
    let a = ipv6::ipv6_of(asker);
    let b = ipv6::ipv6_of(answerer);
    let request = ipv6::echo_request(a, b, seq);
    let reply = ipv6::echo_reply(request);
    ipv6::law_echo_request_parses(a, b, seq);
    ipv6::law_echo_reply_answers(request);
    ipv6::law_echo_packet_parts(
        seq![0x60u8, 0u8, 0u8, 0u8],
        ipv6::DEFAULT_HOP_LIMIT,
        a,
        b,
        ipv6::ICMPV6_ECHO_REQUEST,
        ipv6::DEFAULT_PING_ID as nat,
        seq as nat,
        ipv6::ping_payload(),
    );
    ipv6::law_shim_round_trip(request);
    ipv6::law_echo_packet_parts(
        request.take(4),
        request[7],
        b,
        a,
        ipv6::ICMPV6_ECHO_REPLY,
        ipv6::echo_ident(request),
        ipv6::echo_seq(request),
        request.skip(48),
    );
    ipv6::law_shim_round_trip(reply);
}

/// Sending an IPv6 packet on a session.
pub open spec fn shim_sent(m: SessionsModel, dest: Seq<u8>, packet: Seq<u8>, now: nat) -> (
    SessionsModel,
    Result<Seq<u8>, Seq<char>>,
) {
    session::sessions_send(
        m,
        dest,
        wire::FSP_PORT_IPV6_SHIM as nat,
        wire::FSP_PORT_IPV6_SHIM as nat,
        ipv6::compressed(packet),
        now,
    )
}

proof fn lemma_shim_arrives(
    sender: SessionsModel,
    receiver: NodeModel,
    packet: Seq<u8>,
    ephemeral: Seq<u8>,
    sent_at: nat,
    received_at: u64,
)
    requires
        sender.addr.len() == 16,
        receiver.sessions.addr == node_addr(receiver),
        packet.len() >= 40,
        session::established_with(sender, receiver.sessions.addr),
        session::established_with(receiver.sessions, sender.addr),
        ({
            let s = session::session_with(sender, receiver.sessions.addr).phase;
            let r = session::session_with(receiver.sessions, sender.addr).phase;
            &&& s->send.key == r->recv.key
            &&& s->send.key is Some
            &&& s->send.nonce <= u64::MAX
            &&& replay::replay_passes(r->replay, s->send.nonce)
        }),
        shim_sent(sender, receiver.sessions.addr, packet, sent_at).1 is Ok,
    ensures
        ({
            let (after, sent) = shim_sent(sender, receiver.sessions.addr, packet, sent_at);
            let datagram = session::enveloped(after, receiver.sessions.addr, sent->Ok_0);
            let (heard, event) = session::sessions_data(
                receiver.sessions,
                sender.addr,
                sent->Ok_0,
                received_at as nat,
            );
            let result = node_datagram(receiver, datagram.skip(1), ephemeral, received_at);
            let base = ResultModel {
                responses: Seq::empty(),
                session_peer_npub: event->Ok_0.remote_npub,
                ..plain_result("session"@, Some(event->Ok_0.info))
            };
            &&& datagram[0] == wire::MSG_TYPE_SESSION_DATAGRAM
            &&& datagram.len() == 36 + sent->Ok_0.len()
            &&& result.1 is Ok
            &&& (result.0, result.1->Ok_0) == node_ipv6(
                NodeModel { sessions: heard, ..receiver },
                sender.addr,
                ipv6::decompressed(
                    ipv6::compressed(packet),
                    ipv6::ipv6_of(sender.addr),
                    ipv6::ipv6_of(node_addr(receiver)),
                ),
                base,
                received_at,
            )
            &&& heard.addr == receiver.sessions.addr
            &&& session::established_with(heard, sender.addr)
            &&& session::session_with(heard, sender.addr).phase->send == session::session_with(
                receiver.sessions,
                sender.addr,
            ).phase->send
        }),
{
    broadcast use bytes::lemma_le_bytes_len;

    session::law_data_arrives(
        sender,
        receiver.sessions,
        wire::FSP_PORT_IPV6_SHIM,
        wire::FSP_PORT_IPV6_SHIM,
        ipv6::compressed(packet),
        sent_at,
        received_at as nat,
    );
    let (after, sent) = shim_sent(sender, receiver.sessions.addr, packet, sent_at);
    session::law_envelope_opens(after, receiver.sessions.addr, sent->Ok_0);
    let (heard, event) = session::sessions_data(
        receiver.sessions,
        sender.addr,
        sent->Ok_0,
        received_at as nat,
    );
    assert(event->Ok_0.fsp_responses =~= Seq::empty());
    assert(event->Ok_0.from == sender.addr);
    assert(ipv6::is_shim(ipv6::compressed(packet)));
    assert(session::sessions_incoming(
        receiver.sessions,
        sender.addr,
        sent->Ok_0,
        receiver.session_epoch,
        receiver.secret,
        ephemeral,
        received_at as nat,
    ) == (heard, event));
}

/// Whether one node can ping another over their session: each end opens what the other seals,
/// neither passes IPv6 packets on as they come, and the second has a link to answer on.
pub open spec fn can_ping(asker: NodeModel, answerer: NodeModel) -> bool {
    &&& asker.sessions.addr == node_addr(asker)
    &&& answerer.sessions.addr == node_addr(answerer)
    &&& session::paired(asker.sessions, answerer.sessions)
    &&& session::paired(answerer.sessions, asker.sessions)
    &&& session::session_with(answerer.sessions, node_addr(asker)).phase->send.nonce != u64::MAX
    &&& !asker.raw_ipv6_passthrough
    &&& !answerer.raw_ipv6_passthrough
    &&& answerer.link matches Some(l) && l is Established
    &&& answerer.link->0->send.key is Some
    &&& answerer.link->0->send.nonce != u64::MAX
}

proof fn lemma_ping_sizes(asker: Seq<u8>, answerer: Seq<u8>, seq: u16)
    requires
        asker.len() == 16,
        answerer.len() == 16,
    ensures
        ({
            let request = ipv6::echo_request(ipv6::ipv6_of(asker), ipv6::ipv6_of(answerer), seq);
            &&& request.len() == 65
            &&& ipv6::echo_reply(request).len() == 65
            &&& ipv6::compressed(ipv6::echo_reply(request)).len() == 32
        }),
{
    broadcast use bytes::lemma_be_bytes_len;

    ipv6::law_echo_request_parses(ipv6::ipv6_of(asker), ipv6::ipv6_of(answerer), seq);
}

proof fn lemma_ping_leaves(asker: NodeModel, answerer: NodeModel, npub: Seq<char>, asked_at: u64)
    requires
        can_ping(asker, answerer),
        identity::decoded_npub(npub) == Ok::<Seq<u8>, Seq<char>>(
            identity::identity_x_only(answerer.secret),
        ),
        node_send_ping(asker, npub, asked_at).1 is Ok,
    ensures
        ({
            let b = node_addr(answerer);
            let seq = asker.next_ping_seq;
            let request = ipv6::echo_request(
                ipv6::ipv6_of(node_addr(asker)),
                ipv6::ipv6_of(b),
                seq,
            );
            let (asked, frame) = node_send_ping(asker, npub, asked_at);
            let (sending, packet) = shim_sent(asker.sessions, b, request, asked_at as nat);
            &&& packet is Ok
            &&& asked.sessions == sending
            &&& asked.secret == asker.secret
            &&& asked.raw_ipv6_passthrough == asker.raw_ipv6_passthrough
            &&& asked.pending_pings == asker.pending_pings.insert(seq, asked_at)
            &&& frame == node_frame(
                NodeModel { link: asker.link, ..asked },
                session::enveloped(sending, b, packet->Ok_0),
                asked_at,
            ).1
            &&& sending.addr == asker.sessions.addr
            &&& session::established_with(sending, b)
            &&& session::session_with(sending, b).phase->recv == session::session_with(
                asker.sessions,
                b,
            ).phase->recv
            &&& session::session_with(sending, b).phase->replay == session::session_with(
                asker.sessions,
                b,
            ).phase->replay
        }),
{
}

proof fn lemma_echo_is_answered(n: NodeModel, from: Seq<u8>, request: Seq<u8>, now: u64)
    requires
        n.sessions.addr.len() == 16,
        from.len() == 16,
        session::established_with(n.sessions, from),
        session::session_with(n.sessions, from).phase->send.key is Some,
        session::session_with(n.sessions, from).phase->send.nonce != u64::MAX,
        n.link matches Some(l) && l is Established,
        n.link->0->send.key is Some,
        n.link->0->send.nonce != u64::MAX,
        ipv6::compressed(ipv6::echo_reply(request)).len() == 32,
    ensures
        ({
            let (answering, answer) = shim_sent(
                n.sessions,
                from,
                ipv6::echo_reply(request),
                now as nat,
            );
            let back = session::enveloped(answering, from, answer->Ok_0);
            let sent = node_frame(NodeModel { sessions: answering, ..n }, back, now).1;
            &&& answer is Ok
            &&& sent is Ok
            &&& node_answers_echo(n, from, request, Seq::empty(), now).1 == seq![sent->Ok_0]
        }),
{
    broadcast use bytes::lemma_le_bytes_len;

    session::law_send_succeeds(
        n.sessions,
        from,
        wire::FSP_PORT_IPV6_SHIM as nat,
        wire::FSP_PORT_IPV6_SHIM as nat,
        ipv6::compressed(ipv6::echo_reply(request)),
        now as nat,
    );
    let (answering, answer) = shim_sent(
        n.sessions,
        from,
        ipv6::echo_reply(request),
        now as nat,
    );
    assert(answer->Ok_0.len() == 70);
    let back = session::enveloped(answering, from, answer->Ok_0);
    assert(back.len() == 106);
    let sent = node_frame(NodeModel { sessions: answering, ..n }, back, now).1;
    assert(sent is Ok);
    assert(Seq::<Seq<u8>>::empty().push(sent->Ok_0) =~= seq![sent->Ok_0]);
}

proof fn lemma_ping_is_heard(
    sender: SessionsModel,
    answerer: NodeModel,
    seq: u16,
    ephemeral: Seq<u8>,
    asked_at: u64,
    answered_at: u64,
)
    requires
        sender.addr.len() == 16,
        answerer.sessions.addr == node_addr(answerer),
        session::paired(sender, answerer.sessions),
        session::paired(answerer.sessions, sender),
        session::session_with(answerer.sessions, sender.addr).phase->send.nonce != u64::MAX,
        !answerer.raw_ipv6_passthrough,
        answerer.link matches Some(l) && l is Established,
        answerer.link->0->send.key is Some,
        answerer.link->0->send.nonce != u64::MAX,
        shim_sent(
            sender,
            node_addr(answerer),
            ipv6::echo_request(
                ipv6::ipv6_of(sender.addr),
                ipv6::ipv6_of(node_addr(answerer)),
                seq,
            ),
            asked_at as nat,
        ).1 is Ok,
    ensures
        ({
            let a = sender.addr;
            let b = node_addr(answerer);
            let request = ipv6::echo_request(ipv6::ipv6_of(a), ipv6::ipv6_of(b), seq);
            let (sending, packet) = shim_sent(sender, b, request, asked_at as nat);
            let there = session::enveloped(sending, b, packet->Ok_0);
            let told = node_datagram(answerer, there.skip(1), ephemeral, answered_at).1;
            let heard = session::sessions_data(
                answerer.sessions,
                a,
                packet->Ok_0,
                answered_at as nat,
            ).0;
            let (answering, answer) = shim_sent(
                heard,
                a,
                ipv6::echo_reply(request),
                answered_at as nat,
            );
            let back = session::enveloped(answering, a, answer->Ok_0);
            let sent = node_frame(
                NodeModel { sessions: answering, ..answerer },
                back,
                answered_at,
            ).1;
            &&& there[0] == wire::MSG_TYPE_SESSION_DATAGRAM
            &&& heard.addr == b
            &&& session::established_with(heard, a)
            &&& session::session_with(heard, a).phase->send == session::session_with(
                answerer.sessions,
                a,
            ).phase->send
            &&& answer is Ok
            &&& sent is Ok
            &&& told is Ok
            &&& told->Ok_0.msg_type == "ping_request"@
            &&& told->Ok_0.payload == Some(request)
            &&& told->Ok_0.responses == seq![sent->Ok_0]
        }),
{
    let a = sender.addr;
    let b = node_addr(answerer);
    let request = ipv6::echo_request(ipv6::ipv6_of(a), ipv6::ipv6_of(b), seq);
    law_ping_survives_shim(a, b, seq);
    lemma_ping_sizes(a, b, seq);
    lemma_shim_arrives(sender, answerer, request, ephemeral, asked_at as nat, answered_at);
    let packet = shim_sent(sender, b, request, asked_at as nat).1;
    let heard = session::sessions_data(
        answerer.sessions,
        a,
        packet->Ok_0,
        answered_at as nat,
    ).0;
    lemma_echo_is_answered(
        NodeModel { sessions: heard, ..answerer },
        a,
        request,
        answered_at,
    );
}

/// A ping is answered and the answer reported, whatever way the two datagrams take: the node
/// that the ping is for reports a request and has one frame to send, in which its answer stands;
/// and the node that asked, whatever its link is by then, reports the reply with the sequence
/// number and the round-trip time, and no longer waits for it.
#[verifier::rlimit(20)]
pub proof fn law_ping_round_trip(
    asker: NodeModel,
    answerer: NodeModel,
    npub: Seq<char>,
    link: Option<LinkModel>,
    ephemeral: Seq<u8>,
    later_ephemeral: Seq<u8>,
    asked_at: u64,
    answered_at: u64,
    reported_at: u64,
)
    requires
        can_ping(asker, answerer),
        identity::decoded_npub(npub) == Ok::<Seq<u8>, Seq<char>>(
            identity::identity_x_only(answerer.secret),
        ),
        node_send_ping(asker, npub, asked_at).1 is Ok,
    ensures
        ({
            let a = node_addr(asker);
            let b = node_addr(answerer);
            let seq = asker.next_ping_seq;
            let request = ipv6::echo_request(ipv6::ipv6_of(a), ipv6::ipv6_of(b), seq);
            let (asked, frame) = node_send_ping(asker, npub, asked_at);
            let (sending, packet) = shim_sent(asker.sessions, b, request, asked_at as nat);
            let there = session::enveloped(sending, b, packet->Ok_0);
            let (answered, told) = node_datagram(
                answerer,
                there.skip(1),
                ephemeral,
                answered_at,
            );
            let heard = session::sessions_data(
                answerer.sessions,
                a,
                packet->Ok_0,
                answered_at as nat,
            ).0;
            let (answering, answer) = shim_sent(
                heard,
                a,
                ipv6::echo_reply(request),
                answered_at as nat,
            );
            let back = session::enveloped(answering, a, answer->Ok_0);
            let sent = node_frame(
                NodeModel { sessions: answering, ..answerer },
                back,
                answered_at,
            ).1;
            let (done, reported) = node_datagram(
                NodeModel { link, ..asked },
                back.skip(1),
                later_ephemeral,
                reported_at,
            );
            &&& there[0] == wire::MSG_TYPE_SESSION_DATAGRAM
            &&& back[0] == wire::MSG_TYPE_SESSION_DATAGRAM
            &&& frame == node_frame(NodeModel { link: asker.link, ..asked }, there, asked_at).1
            &&& sent is Ok
            &&& told is Ok
            &&& told->Ok_0.msg_type == "ping_request"@
            &&& told->Ok_0.payload == Some(request)
            &&& told->Ok_0.responses == seq![sent->Ok_0]
            &&& reported is Ok
            &&& reported->Ok_0.msg_type == "ping_reply"@
            &&& reported->Ok_0.payload == Some(ipv6::echo_reply(request))
            &&& reported->Ok_0.info == Some(
                "ICMPv6 Echo Reply from "@ + ipv6::ipv6_text(ipv6::ipv6_of(b)) + " seq="@
                    + text::decimal(seq as nat) + " rtt="@ + text::decimal(
                    round_trip(asked_at, reported_at),
                ) + "ms"@,
            )
            &&& !done.pending_pings.contains_key(seq)
        }),
{
    let a = node_addr(asker);
    let b = node_addr(answerer);
    let seq = asker.next_ping_seq;
    let request = ipv6::echo_request(ipv6::ipv6_of(a), ipv6::ipv6_of(b), seq);
    let reply = ipv6::echo_reply(request);
    lemma_ping_leaves(asker, answerer, npub, asked_at);
    lemma_ping_is_heard(asker.sessions, answerer, seq, ephemeral, asked_at, answered_at);
    law_ping_survives_shim(a, b, seq);
    lemma_ping_sizes(a, b, seq);
    let asked = node_send_ping(asker, npub, asked_at).0;
    let packet = shim_sent(asker.sessions, b, request, asked_at as nat).1;
    let heard = session::sessions_data(
        answerer.sessions,
        a,
        packet->Ok_0,
        answered_at as nat,
    ).0;
    lemma_shim_arrives(
        heard,
        NodeModel { link, ..asked },
        reply,
        later_ephemeral,
        answered_at as nat,
        reported_at,
    );
}

/// Two nodes that are the ends of one link ping each other by nothing but their frames: the frame
/// of the ping is reported as a request and answered with one frame, and the node that asked
/// reports that frame as the reply, with the round-trip time.
pub proof fn law_ping_over_link(
    asker: NodeModel,
    answerer: NodeModel,
    npub: Seq<char>,
    ephemeral: Seq<u8>,
    later_ephemeral: Seq<u8>,
    asked_at: u64,
    answered_at: u64,
    reported_at: u64,
)
    requires
        can_ping(asker, answerer),
        linked(asker, answerer),
        linked(answerer, asker),
        identity::decoded_npub(npub) == Ok::<Seq<u8>, Seq<char>>(
            identity::identity_x_only(answerer.secret),
        ),
        node_send_ping(asker, npub, asked_at).1 is Ok,
    ensures
        ({
            let (asked, frame) = node_send_ping(asker, npub, asked_at);
            let told = node_incoming(answerer, frame->Ok_0, ephemeral, answered_at).1;
            let (done, reported) = node_incoming(
                asked,
                told->Ok_0.responses[0],
                later_ephemeral,
                reported_at,
            );
            &&& told is Ok
            &&& told->Ok_0.msg_type == "ping_request"@
            &&& told->Ok_0.responses.len() == 1
            &&& reported is Ok
            &&& reported->Ok_0.msg_type == "ping_reply"@
            &&& reported->Ok_0.info == Some(
                "ICMPv6 Echo Reply from "@ + ipv6::ipv6_text(ipv6::ipv6_of(node_addr(answerer)))
                    + " seq="@ + text::decimal(asker.next_ping_seq as nat) + " rtt="@
                    + text::decimal(round_trip(asked_at, reported_at)) + "ms"@,
            )
            &&& !done.pending_pings.contains_key(asker.next_ping_seq)
        }),
{
    let a = node_addr(asker);
    let b = node_addr(answerer);
    let request = ipv6::echo_request(ipv6::ipv6_of(a), ipv6::ipv6_of(b), asker.next_ping_seq);
    lemma_ping_leaves(asker, answerer, npub, asked_at);
    let (asked, frame) = node_send_ping(asker, npub, asked_at);
    let (sending, packet) = shim_sent(asker.sessions, b, request, asked_at as nat);
    let there = session::enveloped(sending, b, packet->Ok_0);
    law_frame_arrives(
        NodeModel { link: asker.link, ..asked },
        answerer,
        there,
        ephemeral,
        asked_at,
        answered_at,
    );
    let hearing = link_received(
        answerer,
        asker.link->0->send.nonce,
        wire::timestamp(asked_at as nat),
        frame->Ok_0.len(),
        answered_at,
    );
    let heard = session::sessions_data(
        hearing.sessions,
        a,
        packet->Ok_0,
        answered_at as nat,
    ).0;
    let (answering, answer) = shim_sent(
        heard,
        a,
        ipv6::echo_reply(request),
        answered_at as nat,
    );
    let back = session::enveloped(answering, a, answer->Ok_0);
    let replying = NodeModel { sessions: answering, ..hearing };
    let sent = node_frame(replying, back, answered_at).1;
    let waiting = link_received(
        asked,
        replying.link->0->send.nonce,
        wire::timestamp(answered_at as nat),
        sent->Ok_0.len(),
        reported_at,
    );
    law_ping_round_trip(
        asker,
        hearing,
        npub,
        waiting.link,
        ephemeral,
        later_ephemeral,
        asked_at,
        answered_at,
        reported_at,
    );
    law_frame_arrives(replying, asked, back, later_ephemeral, answered_at, reported_at);
    assert(waiting == NodeModel { link: waiting.link, ..asked });
}

/// The packet in which a peer sends its Noise message 2.
pub open spec fn msg2_packet(sender_idx: u32, receiver_idx: u32, noise_msg2: Seq<u8>) -> Seq<u8> {
    seq![wire::PHASE_MSG2, 0u8] + bytes::le_bytes(8 + noise_msg2.len(), 2) + bytes::le_bytes(
        sender_idx as nat,
        4,
    ) + bytes::le_bytes(receiver_idx as nat, 4) + noise_msg2
}

proof fn lemma_greeting_fits(n: NodeModel, now: u64)
    requires
        n.link matches Some(l) && l is Established,
        n.link->0->send.key is Some,
        n.link->0->send.nonce == 0,
        n.link->0->tree_seq == 1,
        tree::signed_announce(
            node_addr(n),
            n.secret,
            1,
            (now / 1000) as nat,
            node_addr(n),
            Seq::empty(),
        ) is Ok,
    ensures
        node_greets(n, now).1.responses.len() == 2,
{
    broadcast use bytes::lemma_le_bytes_len;

    let own = tree::EntryModel {
        node_addr: node_addr(n),
        sequence: 1,
        timestamp: (now / 1000) as nat,
    };
    let ancestry = seq![own] + Seq::<tree::EntryModel>::empty();
    let announce = tree::signed_announce(
        node_addr(n),
        n.secret,
        1,
        (now / 1000) as nat,
        node_addr(n),
        Seq::empty(),
    )->Ok_0;
    reveal_with_fuel(tree::entries_bytes, 2);
    assert(ancestry.drop_last() =~= Seq::<tree::EntryModel>::empty());
    assert(announce.len() == 132);
    let (n1, first) = node_tree_announce(n, now);
    assert(first is Ok);
    let bits = bloom::filter_inserted(Set::empty(), node_addr(n));
    assert(bloom::filter_announce(bits, n1.link->0->filter_seq as nat).len() == 1035);
}

/// A handshake with a peer that follows the IK pattern establishes the link: the peer can read
/// our first message, its answer is accepted, and each side sends with the cipher that the other
/// receives with. The peer is sent a tree announce and a filter announce at once, unless the
/// first cannot be signed.
#[verifier::rlimit(40)]
pub proof fn law_link_establishes(
    n: NodeModel,
    peer: Seq<u8>,
    peer_npub: Seq<char>,
    ephemeral: Seq<u8>,
    peer_ephemeral: Seq<u8>,
    epoch: Seq<u8>,
    peer_epoch: Seq<u8>,
    our_idx: u32,
    peer_idx: u32,
    now: u64,
)
    requires
        identity::is_keypair(n.secret),
        identity::is_keypair(peer),
        identity::is_keypair(ephemeral),
        identity::is_keypair(peer_ephemeral),
        epoch.len() == 8,
        peer_epoch.len() == 8,
        identity::decoded_npub(peer_npub) == Ok::<Seq<u8>, Seq<char>>(
            identity::identity_x_only(peer),
        ),
    ensures
        ({
            let (started, packet) = node_initiate(n, peer_npub, epoch, our_idx, ephemeral);
            let message = packet->Ok_0.skip(8);
            let heard = noise::ik_heard(peer, message);
            let (theirs, reply) = noise::ik_answer(heard->0, peer, peer_ephemeral, peer_epoch);
            let (done, result) = node_incoming(
                started,
                msg2_packet(peer_idx, our_idx, reply),
                ephemeral,
                now,
            );
            &&& packet is Ok
            &&& heard is Some
            &&& heard->0.remote_static == identity::public_of(n.secret)
            &&& result is Ok
            &&& result->Ok_0.msg_type == "msg2"@
            &&& done.link matches Some(l) && l is Established
            &&& done.link->0->send.key == noise::sym_split(theirs).0.key
            &&& done.link->0->recv == noise::sym_split(theirs).1
            &&& done.link->0->remote_idx == peer_idx
            &&& tree::signed_announce(
                node_addr(n),
                n.secret,
                1,
                (now / 1000) as nat,
                node_addr(n),
                Seq::empty(),
            ) is Ok ==> result->Ok_0.responses.len() == 2
        }),
{
    broadcast use bytes::lemma_le_bytes_len;

    let key = identity::even_key(identity::identity_x_only(peer));
    assert(identity::x_only(key) =~= identity::identity_x_only(peer));
    noise::law_ik_first_message(n.secret, ephemeral, peer, key, epoch);
    noise::law_ik_agreement(n.secret, ephemeral, peer, key, peer_ephemeral, epoch, peer_epoch);
    let (started, packet) = node_initiate(n, peer_npub, epoch, our_idx, ephemeral);
    let start = noise::ik_initiator(n.secret, key, epoch);
    let (hs, sent) = noise::ik_write_message_1(start, ephemeral);
    assert(packet->Ok_0.skip(8) =~= sent->Ok_0);
    let heard = noise::ik_heard(peer, sent->Ok_0)->0;
    let (theirs, reply) = noise::ik_answer(heard, peer, peer_ephemeral, peer_epoch);
    assert(reply.len() == 57) by {
        let (h2, accepted) = noise::ik_read_message_2(hs, reply);
        assert(accepted is Ok);
    }
    let msg2 = msg2_packet(peer_idx, our_idx, reply);
    assert(wire::msg2_noise_of(msg2) =~= reply);
    bytes::lemma_le_integers(0, peer_idx, 0);
    assert(msg2.subrange(4, 8) =~= bytes::le_bytes(peer_idx as nat, 4));
    assert(wire::phase_of(msg2) == wire::PHASE_MSG2);
    let (done_hs, accepted) = noise::ik_read_message_2(hs, reply);
    let link = link_established(done_hs, our_idx, peer_idx);
    let n1 = NodeModel { link: Some(link), ..started };
    let (n2, first) = node_tree_announce(n1, now);
    assert(n2.link->0->send.key == link->send.key);
    if tree::signed_announce(
        node_addr(n),
        n.secret,
        1,
        (now / 1000) as nat,
        node_addr(n),
        Seq::empty(),
    ) is Ok {
        lemma_greeting_fits(n1, now);
    }
}

/// Whether two nodes are the ends of one link in one direction, and nothing that the first has
/// yet to send would be taken for a replay.
pub open spec fn in_step(sender: NodeModel, receiver: NodeModel) -> bool {
    &&& linked(sender, receiver)
    &&& forall|c: nat|
        c >= sender.link->0->send.nonce ==> #[trigger] replay::replay_passes(
            receiver.link->0->replay,
            c,
        )
}

/// The ends of a link stay its ends when a frame went from one to the other, so that the next
/// frame arrives too. Each frame takes a counter of its own.
pub proof fn law_link_lasts(
    sender: NodeModel,
    receiver: NodeModel,
    inner: Seq<u8>,
    sent_at: u64,
    size: nat,
    received_at: u64,
)
    requires
        in_step(sender, receiver),
        node_frame(sender, inner, sent_at).1 is Ok,
    ensures
        ({
            let sent = node_frame(sender, inner, sent_at).0;
            let accepted = link_received(
                receiver,
                sender.link->0->send.nonce,
                wire::timestamp(sent_at as nat),
                size,
                received_at,
            );
            &&& sent.link->0->send.nonce == sender.link->0->send.nonce + 1
            &&& in_step(sent, accepted)
        }),
{
    let sent = node_frame(sender, inner, sent_at).0;
    let nonce = sender.link->0->send.nonce;
    let before = receiver.link->0->replay;
    let after = replay::replay_accepted(before, nonce);
    assert(nonce != u64::MAX);
    assert forall|c: nat| c >= nonce + 1 implies #[trigger] replay::replay_passes(after, c) by {
        assert(replay::replay_passes(before, c));
    }
    assert(replay::replay_passes(after, nonce + 1));
}

/// Whether two states are of one node: identity, session epoch, settings and coordinates are the
/// same.
pub open spec fn same_node(a: NodeModel, b: NodeModel) -> bool {
    &&& a.secret == b.secret
    &&& a.session_epoch == b.session_epoch
    &&& a.raw_ipv6_passthrough == b.raw_ipv6_passthrough
    &&& a.next_ping_seq == b.next_ping_seq
    &&& a.sessions.addr == b.sessions.addr
    &&& a.sessions.coords == b.sessions.coords
}

proof fn lemma_forwarding_keeps_node(n: NodeModel, dest: Seq<u8>, list: Seq<Seq<u8>>, now: u64)
    ensures
        same_node(node_forward_all(n, dest, list, now).0, n),
    decreases list.len(),
{
    if list.len() > 0 {
        lemma_forwarding_keeps_node(n, dest, list.drop_last(), now);
    }
}

proof fn lemma_datagram_keeps_node(
    n: NodeModel,
    payload: Seq<u8>,
    ephemeral: Seq<u8>,
    now: u64,
)
    ensures
        same_node(node_datagram(n, payload, ephemeral, now).0, n),
{
    if let Some(d) = wire::parsed_datagram(payload) {
        let (sessions, event) = session::sessions_incoming(
            n.sessions,
            d.src_addr,
            d.payload,
            n.session_epoch,
            n.secret,
            ephemeral,
            now as nat,
        );
        let n1 = NodeModel { sessions, ..n };
        assert(same_node(n1, n));
        if let Ok(ev) = event {
            lemma_forwarding_keeps_node(n1, d.src_addr, ev.fsp_responses, now);
            let (n2, sent) = node_forward_all(n1, d.src_addr, ev.fsp_responses, now);
            if let Ok(responses) = sent {
                let base = ResultModel {
                    responses,
                    session_peer_npub: ev.remote_npub,
                    ..plain_result("session"@, Some(ev.info))
                };
                let (n3, reported) = node_session_reports(n2, d.src_addr, ev.kind, base, now);
                assert(same_node(n3, n2));
                let (n4, result) = node_payload(n3, ev.from, ev.payload, reported, now);
                assert(same_node(n4, n3));
            }
        }
    }
}

/// Whatever comes in, a node stays who it is.
pub proof fn law_incoming_keeps_node(n: NodeModel, data: Seq<u8>, ephemeral: Seq<u8>, now: u64)
    ensures
        same_node(node_incoming(n, data, ephemeral, now).0, n),
{
    if let Some(LinkModel::Established { recv, .. }) = n.link {
        let counter = wire::counter_of(data);
        if let Ok(plaintext) = cipher::cipher_opened_at(
            recv,
            counter,
            data.take(16),
            data.skip(16),
        ) {
            let accepted = link_received(
                n,
                counter,
                bytes::le_value(plaintext.take(4)),
                data.len(),
                now,
            );
            lemma_datagram_keeps_node(accepted, plaintext.skip(5), ephemeral, now);
        }
    }
}

/// The reply to a ping that we wait for ends the wait, and tells how long it was.
pub proof fn law_ping_is_timed(
    n: NodeModel,
    from: Seq<u8>,
    reply: Seq<u8>,
    result: ResultModel,
    now: u64,
)
    requires
        !n.raw_ipv6_passthrough,
        ipv6::is_echo(reply, ipv6::ICMPV6_ECHO_REPLY),
        n.pending_pings.contains_key(ipv6::echo_seq(reply) as u16),
    ensures
        ({
            let seq = ipv6::echo_seq(reply) as u16;
            let (after, told) = node_ipv6(n, from, reply, result, now);
            &&& told.msg_type == "ping_reply"@
            &&& told.payload == Some(reply)
            &&& told.info == Some(
                "ICMPv6 Echo Reply from "@ + ipv6::ipv6_text(ipv6::ipv6_of(from)) + " seq="@
                    + text::decimal(seq as nat) + " rtt="@ + text::decimal(
                    round_trip(n.pending_pings[seq], now),
                ) + "ms"@,
            )
            &&& !after.pending_pings.contains_key(seq)
        }),
{
}

/// A link-layer message leaves as sixteen bytes of header (phase 0, no flags, the length of what is
/// sealed, the peer's index and the counter) and the sealed timestamp and message, bound to the
/// header. Nothing but the counter changes.
pub proof fn law_link_frame_layout(n: NodeModel, message: Seq<u8>, now: u64)
    requires
        n.link matches Some(l) && l is Established,
        n.link->0->send.key is Some,
        n.link->0->send.nonce < u64::MAX,
        message.len() + 4 <= crypto::AEAD_MAX_MESSAGE,
    ensures
        ({
            let (after, r) = node_frame(n, message, now);
            let send = n.link->0->send;
            let inner = bytes::le_bytes(now as nat % 0x1_0000_0000, 4) + message;
            let header = seq![0u8, 0u8] + bytes::le_bytes(inner.len(), 2) + bytes::le_bytes(
                n.link->0->remote_idx as nat,
                4,
            ) + bytes::le_bytes(send.nonce, 8);
            &&& r == Ok::<Seq<u8>, Seq<char>>(
                header + cipher::cipher_sealed(send, header, inner).1->Ok_0,
            )
            &&& r->Ok_0.len() == 36 + message.len()
            &&& after == NodeModel { link: after.link, ..n }
            &&& after.link matches Some(l) && l is Established
            &&& after.link->0->send.key == send.key
            &&& after.link->0->send.nonce == send.nonce + 1
            &&& after.link->0->recv == n.link->0->recv
            &&& after.link->0->replay == n.link->0->replay
            &&& after.link->0->Established_our_idx == n.link->0->Established_our_idx
            &&& after.link->0->remote_idx == n.link->0->remote_idx
            &&& after.link->0->receiver == n.link->0->receiver
            &&& after.link->0->tree_seq == n.link->0->tree_seq
            &&& after.link->0->filter_seq == n.link->0->filter_seq
        }),
{
    broadcast use bytes::lemma_le_bytes_len;

}

/// Without an established link nothing is sent and nothing changes.
pub proof fn law_no_link_no_sending(n: NodeModel, message: Seq<u8>, now: u64)
    requires
        !(n.link matches Some(l) && l is Established),
    ensures
        ({
            let none = n.link is None;
            &&& node_frame(n, message, now) == (
                n,
                Err::<Seq<u8>, Seq<char>>(
                    if none {
                        "no active link"@
                    } else {
                        "not in established state"@
                    },
                ),
            )
            &&& node_tree_announce(n, now) == (
                n,
                Err::<Seq<u8>, Seq<char>>("not established"@),
            )
            &&& node_filter_announce(n, now) == (
                n,
                Err::<Seq<u8>, Seq<char>>("not established"@),
            )
            &&& node_report(n, now) == (n, Err::<Seq<u8>, Seq<char>>("not established"@))
        }),
{
}

/// What a node announces of itself: its own address as root, signed and dated in seconds, and a
/// filter with its own address and nothing else. Each kind of announcement has numbers of its own,
/// which rise by one with every announcement and start over after the last; what else the link
/// holds changes as it does when that message is sent.
pub proof fn law_announcements(n: NodeModel, now: u64, signed: Seq<u8>)
    requires
        n.link matches Some(l) && l is Established,
        tree::signed_announce(
            node_addr(n),
            n.secret,
            n.link->0->tree_seq as nat,
            (now / 1000) as nat,
            node_addr(n),
            Seq::empty(),
        ) == Ok::<Seq<u8>, Seq<char>>(signed),
    ensures
        ({
            let (after, r) = node_tree_announce(n, now);
            let (sent, frame) = node_frame(n, signed, now);
            let next = after.link->0->tree_seq;
            &&& r == frame
            &&& after == NodeModel { link: after.link, ..n }
            &&& after.link matches Some(l) && l is Established
            &&& next == if n.link->0->tree_seq == 0xffff_ffff_ffff_ffff {
                0
            } else {
                n.link->0->tree_seq + 1
            }
            &&& after.link->0->filter_seq == n.link->0->filter_seq
            &&& after.link->0->send == sent.link->0->send
            &&& after.link->0->recv == n.link->0->recv
            &&& after.link->0->replay == n.link->0->replay
            &&& after.link->0->Established_our_idx == n.link->0->Established_our_idx
            &&& after.link->0->remote_idx == n.link->0->remote_idx
            &&& after.link->0->receiver == n.link->0->receiver
        }),
        ({
            let own = bloom::filter_inserted(Set::empty(), node_addr(n));
            let announce = bloom::filter_announce(own, n.link->0->filter_seq as nat);
            let (after, r) = node_filter_announce(n, now);
            let (sent, frame) = node_frame(n, announce, now);
            let next = after.link->0->filter_seq;
            &&& r == frame
            &&& after == NodeModel { link: after.link, ..n }
            &&& after.link matches Some(l) && l is Established
            &&& next == if n.link->0->filter_seq == 0xffff_ffff_ffff_ffff {
                0
            } else {
                n.link->0->filter_seq + 1
            }
            &&& after.link->0->tree_seq == n.link->0->tree_seq
            &&& after.link->0->send == sent.link->0->send
            &&& after.link->0->recv == n.link->0->recv
            &&& after.link->0->replay == n.link->0->replay
            &&& after.link->0->Established_our_idx == n.link->0->Established_our_idx
            &&& after.link->0->remote_idx == n.link->0->remote_idx
            &&& after.link->0->receiver == n.link->0->receiver
        }),
        ({
            let report = mmp::receiver_report(n.link->0->receiver, now as nat);
            let (after, r) = node_report(n, now);
            let (sent, frame) = node_frame(n, report, now);
            &&& r == frame
            &&& after == NodeModel { link: after.link, ..n }
            &&& after.link matches Some(l) && l is Established
            &&& after.link->0->receiver == mmp::receiver_reported(n.link->0->receiver)
            &&& after.link->0->tree_seq == n.link->0->tree_seq
            &&& after.link->0->filter_seq == n.link->0->filter_seq
            &&& after.link->0->send == sent.link->0->send
            &&& after.link->0->recv == n.link->0->recv
            &&& after.link->0->replay == n.link->0->replay
            &&& after.link->0->Established_our_idx == n.link->0->Established_our_idx
            &&& after.link->0->remote_idx == n.link->0->remote_idx
        }),
{
}

/// Greeting a peer: the tree announce goes first, the filter announce second, each under a counter
/// of its own. What fails is told, and what was built before it is still sent.
pub proof fn law_greeting(n: NodeModel, now: u64)
    ensures
        ({
            let (after, r) = node_greets(n, now);
            let (first, tree_frame) = node_tree_announce(n, now);
            let (second, filter_frame) = node_filter_announce(first, now);
            &&& r.msg_type == "msg2"@
            &&& r.session_peer_npub is None
            &&& r.payload is None
            &&& tree_frame is Ok && filter_frame is Ok ==> {
                &&& after == second
                &&& r.responses.len() == 2
                &&& r.responses[0] == tree_frame->Ok_0
                &&& r.responses[1] == filter_frame->Ok_0
                &&& r.info == Some(
                    "Noise IK handshake complete! Link established. Sent TreeAnnounce + FilterAnnounce."@,
                )
            }
            &&& tree_frame is Ok && filter_frame is Err ==> {
                &&& after == second
                &&& r.responses.len() == 1
                &&& r.responses[0] == tree_frame->Ok_0
                &&& r.info == Some(
                    "Handshake OK, but FilterAnnounce failed: "@ + filter_frame->Err_0,
                )
            }
            &&& tree_frame is Err ==> {
                &&& after == first
                &&& r.responses.len() == 0
                &&& r.info == Some("Handshake OK, but TreeAnnounce failed: "@ + tree_frame->Err_0)
            }
        }),
{
}

/// The second handshake message counts where it is awaited and has at least 69 bytes; the Noise
/// message in it is bytes 12 to 68, the peer's index starts at byte 4. A good one starts a link with an empty replay
/// window, empty counts and announcements numbered from 1, and greets; a bad one ends the
/// handshake.
pub proof fn law_second_message(n: NodeModel, data: Seq<u8>, now: u64)
    requires
        data.len() >= 69,
        data[0] % 16 == 2,
    ensures
        !(n.link matches Some(l) && l is Handshaking) ==> ({
            let (after, r) = node_msg2(n, data, now);
            &&& after == n
            &&& r == Err::<ResultModel, Seq<char>>(
                if n.link is None {
                    "no handshake in progress"@
                } else {
                    "received msg2 but not in handshaking state"@
                },
            )
        }),
        (n.link matches Some(l) && l is Handshaking) ==> ({
            let (done, read) = noise::ik_read_message_2(n.link->0->hs, data.subrange(12, 69));
            let (after, r) = node_msg2(n, data, now);
            &&& read is Err ==> after == NodeModel { link: None, ..n } && r == Err::<
                ResultModel,
                Seq<char>,
            >(read->Err_0)
            &&& read is Ok ==> exists|up: NodeModel|
                {
                    &&& up == NodeModel { link: up.link, ..n }
                    &&& up.link matches Some(l) && l is Established
                    &&& up.link->0->send == (noise::ik_transport(done)->Ok_0).0
                    &&& up.link->0->recv == (noise::ik_transport(done)->Ok_0).1
                    &&& up.link->0->replay == replay::replay_empty()
                    &&& up.link->0->receiver == mmp::receiver_new()
                    &&& up.link->0->Established_our_idx == n.link->0->Handshaking_our_idx
                    &&& up.link->0->remote_idx == data[4] + 0x100 * data[5] + 0x1_0000 * data[6]
                        + 0x100_0000 * data[7]
                    &&& up.link->0->tree_seq == 1
                    &&& up.link->0->filter_seq == 1
                    &&& after == (#[trigger] node_greets(up, now)).0
                    &&& r == Ok::<ResultModel, Seq<char>>(node_greets(up, now).1)
                }
        }),
{
    wire::law_msg2_is_read_in_place(data);
    bytes::law_le_value_weighs_bytes(data.subrange(4, 8));
    assert(wire::msg2_noise_of(data) =~= data.subrange(12, 69));
    if n.link matches Some(l) && l is Handshaking {
        let (done, read) = noise::ik_read_message_2(n.link->0->hs, data.subrange(12, 69));
        if read is Ok {
            let link = link_established(
                done,
                n.link->0->Handshaking_our_idx,
                wire::sender_idx_of(data) as u32,
            );
            let up = NodeModel { link: Some(link), ..n };
            assert(node_msg2(n, data, now).0 == node_greets(up, now).0);
        }
    }
}

/// Packets are told apart by the low half of their first byte: 2 is the second handshake message,
/// 0 a frame, and anything else is named and changes nothing. So does a packet that is too short.
pub proof fn law_packets_are_told_apart(
    n: NodeModel,
    data: Seq<u8>,
    ephemeral: Seq<u8>,
    now: u64,
)
    ensures
        ({
            let (after, r) = node_incoming(n, data, ephemeral, now);
            let phase = (data[0] % 16) as nat;
            &&& data.len() < 4 ==> after == n && r == Err::<ResultModel, Seq<char>>(
                "packet too short"@,
            )
            &&& data.len() >= 4 && phase == 2 && data.len() >= 69 ==> (after, r) == node_msg2(
                n,
                data,
                now,
            )
            &&& data.len() >= 4 && phase == 2 && data.len() < 69 ==> after == n && r == Err::<
                ResultModel,
                Seq<char>,
            >("invalid msg2 packet"@)
            &&& data.len() >= 4 && phase == 0 ==> (after, r) == node_encrypted(
                n,
                data,
                ephemeral,
                now,
            )
            &&& data.len() >= 4 && phase != 0 && phase != 2 ==> {
                &&& after == n
                &&& r is Ok
                &&& r->Ok_0.msg_type == "unknown_phase_"@ + text::decimal(phase)
                &&& r->Ok_0.info == Some("Unknown FMP phase: 0x"@ + text::hexadecimal(phase))
                &&& r->Ok_0.responses.len() == 0
                &&& r->Ok_0.payload is None
                &&& r->Ok_0.session_peer_npub is None
            }
        }),
{
    if data.len() >= 4 {
        wire::law_first_byte(data);
        wire::law_msg2_is_read_in_place(data);
    }
}

/// A frame counts on an established link only. It is one if it has at least 32 bytes and starts
/// with a zero; a counter that was seen is named as a replay, and a frame that does not open is an
/// error. None of these changes anything.
pub proof fn law_refused_frames(n: NodeModel, data: Seq<u8>, ephemeral: Seq<u8>, now: u64)
    requires
        data.len() >= 4,
    ensures
        ({
            let (after, r) = node_encrypted(n, data, ephemeral, now);
            let up = n.link matches Some(l) && l is Established;
            let whole = data.len() >= 32 && data[0] == 0;
            let counter = wire::counter_of(data);
            let fresh = replay::replay_passes(n.link->0->replay, counter);
            let opened = cipher::cipher_opened_at(
                n.link->0->recv,
                counter,
                data.subrange(0, 16),
                data.subrange(16, data.len() as int),
            );
            &&& n.link is None ==> after == n && r == Err::<ResultModel, Seq<char>>(
                "no active link"@,
            )
            &&& n.link is Some && !up ==> after == n && r == Err::<ResultModel, Seq<char>>(
                "received encrypted frame but handshake not complete"@,
            )
            &&& up && !whole ==> after == n && r == Err::<ResultModel, Seq<char>>(
                "invalid encrypted frame"@,
            )
            &&& up && whole && !fresh ==> {
                &&& after == n
                &&& r is Ok
                &&& r->Ok_0.msg_type == "replay"@
                &&& r->Ok_0.info == Some("Replay detected: counter "@ + text::decimal(counter))
                &&& r->Ok_0.responses.len() == 0
                &&& r->Ok_0.payload is None
            }
            &&& up && whole && fresh && opened is Err ==> after == n && r == Err::<
                ResultModel,
                Seq<char>,
            >(opened->Err_0)
        }),
{
    wire::law_frame_is_read_in_place(data);
    if data.len() >= 32 {
        assert(data.take(16) =~= data.subrange(0, 16));
        assert(data.skip(16) =~= data.subrange(16, data.len() as int));
    }
}

/// A frame that is new and opens spends its counter. If it has a message type, the frame is counted
/// with its size and the timestamp in its first four bytes, and what is behind goes on under that
/// type; if it has none, it is shown as it is and not counted.
pub proof fn law_accepted_frames(
    n: NodeModel,
    data: Seq<u8>,
    plain: Seq<u8>,
    ephemeral: Seq<u8>,
    now: u64,
)
    requires
        n.link matches Some(l) && l is Established,
        data.len() >= 32,
        data[0] == 0,
        replay::replay_passes(n.link->0->replay, wire::counter_of(data)),
        cipher::cipher_opened_at(
            n.link->0->recv,
            wire::counter_of(data),
            data.subrange(0, 16),
            data.subrange(16, data.len() as int),
        ) == Ok::<Seq<u8>, Seq<char>>(plain),
    ensures
        exists|seen: NodeModel|
            {
                let (after, r) = node_encrypted(n, data, ephemeral, now);
                let counter = wire::counter_of(data);
                let stamp = plain[0] + 0x100 * plain[1] + 0x1_0000 * plain[2] + 0x100_0000
                    * plain[3];
                &&& #[trigger] same_link(seen, n)
                &&& seen.link->0->replay == replay::replay_accepted(n.link->0->replay, counter)
                &&& plain.len() < 5 ==> {
                    &&& seen.link->0->receiver == n.link->0->receiver
                    &&& after == seen
                    &&& r is Ok
                    &&& r->Ok_0.msg_type == "data_short"@
                    &&& r->Ok_0.payload == Some(plain)
                    &&& r->Ok_0.info == Some("Encrypted frame (inner header too short)"@)
                    &&& r->Ok_0.responses.len() == 0
                }
                &&& plain.len() >= 5 ==> {
                    &&& seen.link->0->receiver == mmp::receiver_recorded(
                        n.link->0->receiver,
                        counter,
                        stamp as nat,
                        data.len(),
                        now as nat,
                    )
                    &&& (after, r) == node_dispatch(
                        seen,
                        plain[4],
                        plain.subrange(5, plain.len() as int),
                        ephemeral,
                        now,
                    )
                }
            },
{
    wire::law_frame_is_read_in_place(data);
    assert(data.take(16) =~= data.subrange(0, 16));
    assert(data.skip(16) =~= data.subrange(16, data.len() as int));
    let counter = wire::counter_of(data);
    if plain.len() >= 5 {
        bytes::law_le_value_weighs_bytes(plain.take(4));
        assert(plain.skip(5) =~= plain.subrange(5, plain.len() as int));
        let seen = link_received(n, counter, bytes::le_value(plain.take(4)), data.len(), now);
        assert(same_link(seen, n));
    } else {
        let counted = link_received(n, counter, 0, data.len(), now);
        let seen = NodeModel {
            link: Some(
                LinkModel::Established {
                    send: counted.link->0->send,
                    recv: counted.link->0->recv,
                    replay: counted.link->0->replay,
                    our_idx: counted.link->0->Established_our_idx,
                    remote_idx: counted.link->0->remote_idx,
                    receiver: n.link->0->receiver,
                    tree_seq: counted.link->0->tree_seq,
                    filter_seq: counted.link->0->filter_seq,
                },
            ),
            ..n
        };
        assert(same_link(seen, n));
    }
}

/// Whether two states of a node differ in nothing but what its established link has received.
pub open spec fn same_link(a: NodeModel, b: NodeModel) -> bool {
    &&& a == NodeModel { link: a.link, ..b }
    &&& a.link matches Some(l) && l is Established
    &&& b.link matches Some(l) && l is Established
    &&& a.link->0->send == b.link->0->send
    &&& a.link->0->recv == b.link->0->recv
    &&& a.link->0->Established_our_idx == b.link->0->Established_our_idx
    &&& a.link->0->remote_idx == b.link->0->remote_idx
    &&& a.link->0->tree_seq == b.link->0->tree_seq
    &&& a.link->0->filter_seq == b.link->0->filter_seq
}

/// What a node makes of a link message: a datagram goes to its session, a sender report is answered
/// with a receiver report, and everything else is told and changes nothing. Of these, only a
/// message of unknown type is handed on.
pub proof fn law_messages_by_type(
    n: NodeModel,
    kind: u8,
    payload: Seq<u8>,
    ephemeral: Seq<u8>,
    now: u64,
)
    ensures
        ({
            let (after, r) = node_dispatch(n, kind, payload, ephemeral, now);
            let size = text::decimal(payload.len());
            let (reported, report) = node_report(n, now);
            &&& kind == 0 ==> (after, r) == node_datagram(n, payload, ephemeral, now)
            &&& kind != 0 ==> r is Ok && r->Ok_0.session_peer_npub is None
            &&& kind == 1 ==> {
                &&& after == reported
                &&& r->Ok_0.msg_type == "sender_report"@
                &&& r->Ok_0.payload is None
                &&& report is Ok ==> r->Ok_0.responses.len() == 1 && r->Ok_0.responses[0]
                    == report->Ok_0 && r->Ok_0.info == Some(
                    "SenderReport received, sent ReceiverReport"@,
                )
                &&& report is Err ==> r->Ok_0.responses.len() == 0 && r->Ok_0.info == Some(
                    "SenderReport received, ReceiverReport failed: "@ + report->Err_0,
                )
            }
            &&& kind > 1 ==> after == n && r->Ok_0.responses.len() == 0
            &&& kind == 2 ==> r->Ok_0.msg_type == "receiver_report"@ && r->Ok_0.info is None
            &&& kind == 0x10 ==> r->Ok_0.msg_type == "tree_announce"@ && r->Ok_0.info == Some(
                "TreeAnnounce received ("@ + size + " bytes)"@,
            )
            &&& kind == 0x20 ==> r->Ok_0.msg_type == "filter_announce"@ && r->Ok_0.info == Some(
                "FilterAnnounce received ("@ + size + " bytes)"@,
            )
            &&& kind == 0x50 ==> r->Ok_0.msg_type == "disconnect"@ && r->Ok_0.info == Some(
                "Disconnect received"@,
            )
            &&& kind == 0x51 ==> r->Ok_0.msg_type == "heartbeat"@ && r->Ok_0.info is None
            &&& kind == 2 || kind == 0x10 || kind == 0x20 || kind == 0x50 || kind == 0x51
                ==> r->Ok_0.payload is None
            &&& kind > 2 && kind != 0x10 && kind != 0x20 && kind != 0x50 && kind != 0x51 ==> {
                &&& r->Ok_0.payload == Some(payload)
                &&& r->Ok_0.msg_type == "link_msg_0x"@ + text::hex_byte(kind)
                &&& r->Ok_0.info == Some("Unknown link message type: 0x"@ + text::hex_byte(kind))
            }
        }),
{
}

/// Session payloads are forwarded one by one in their order, each in an envelope to the
/// destination and in a frame of its own with the next counter. Nothing but the counter changes.
pub proof fn law_forwarding_in_order(n: NodeModel, dest: Seq<u8>, list: Seq<Seq<u8>>, now: u64)
    requires
        n.link matches Some(l) && l is Established,
        node_forward_all(n, dest, list, now).1 is Ok,
    ensures
        ({
            let (after, r) = node_forward_all(n, dest, list, now);
            let frames = r->Ok_0;
            let send = n.link->0->send;
            &&& frames.len() == list.len()
            &&& forall|i: int|
                0 <= i < list.len() ==> Ok::<Seq<u8>, Seq<char>>(#[trigger] frames[i])
                    == link_frame(
                    CipherModel {
                        key: send.key,
                        nonce: if send.key is Some {
                            send.nonce + i as nat
                        } else {
                            send.nonce
                        },
                    },
                    n.link->0->remote_idx,
                    session::enveloped(n.sessions, dest, list[i]),
                    now,
                ).1
            &&& after == NodeModel { link: after.link, ..n }
            &&& after.link matches Some(l) && l is Established
            &&& after.link->0->send.key == send.key
            &&& send.key is Some ==> after.link->0->send.nonce == send.nonce + list.len()
            &&& send.key is None ==> after.link->0->send.nonce == send.nonce
            &&& after.link->0->recv == n.link->0->recv
            &&& after.link->0->replay == n.link->0->replay
            &&& after.link->0->Established_our_idx == n.link->0->Established_our_idx
            &&& after.link->0->remote_idx == n.link->0->remote_idx
            &&& after.link->0->receiver == n.link->0->receiver
            &&& after.link->0->tree_seq == n.link->0->tree_seq
            &&& after.link->0->filter_seq == n.link->0->filter_seq
        }),
    decreases list.len(),
{
    if list.len() > 0 {
        law_forwarding_in_order(n, dest, list.drop_last(), now);
        let front = node_forward_all(n, dest, list.drop_last(), now).1->Ok_0;
        let frames = node_forward_all(n, dest, list, now).1->Ok_0;
        assert(frames.drop_last() =~= front);
        assert forall|i: int| 0 <= i < list.len() - 1 implies frames[i] == #[trigger] front[i]
            && list[i] == list.drop_last()[i] by {
        }
    }
}

/// A report from a session peer is named; a sender report is answered on the session with a
/// receiver report in one frame behind what was to be sent anyway. No other event is touched.
pub proof fn law_session_reports(
    n: NodeModel,
    src: Seq<u8>,
    kind: SessionEventKind,
    result: ResultModel,
    now: u64,
)
    ensures
        ({
            let (after, r) = node_session_reports(n, src, kind, result, now);
            let (sessions, report) = session::sessions_report(
                n.sessions,
                src,
                now as nat,
                now as nat,
            );
            let n1 = NodeModel { sessions, ..n };
            let (n2, frame) = node_frame(
                n1,
                session::enveloped(sessions, src, report->Ok_0),
                now,
            );
            let asks = kind == SessionEventKind::SenderReport;
            let tells = kind == SessionEventKind::ReceiverReport;
            &&& r.info == result.info
            &&& r.payload == result.payload
            &&& r.session_peer_npub == result.session_peer_npub
            &&& asks ==> r.msg_type == "session_sender_report"@
            &&& tells ==> r.msg_type == "session_receiver_report"@
            &&& !asks && !tells ==> r.msg_type == result.msg_type
            &&& !asks ==> after == n && r.responses == result.responses
            &&& asks && report is Err ==> after == n1 && r.responses == result.responses
            &&& asks && report is Ok ==> after == n2
            &&& asks && report is Ok && frame is Err ==> r.responses == result.responses
            &&& asks && report is Ok && frame is Ok ==> r.responses == result.responses + seq![
                frame->Ok_0,
            ]
        }),
{
}

/// An echo request is answered to the peer it came from with the shim of the echo reply, from port
/// 256 to port 256, in one frame.
pub proof fn law_echo_is_answered(
    n: NodeModel,
    from: Seq<u8>,
    request: Seq<u8>,
    responses: Seq<Seq<u8>>,
    now: u64,
)
    ensures
        ({
            let (after, r) = node_answers_echo(n, from, request, responses, now);
            let (sessions, sent) = session::sessions_send(
                n.sessions,
                from,
                256,
                256,
                ipv6::compressed(ipv6::echo_reply(request)),
                now as nat,
            );
            let n1 = NodeModel { sessions, ..n };
            let (n2, frame) = node_frame(n1, session::enveloped(sessions, from, sent->Ok_0), now);
            &&& sent is Err ==> after == n1 && r == responses
            &&& sent is Ok ==> after == n2
            &&& sent is Ok && frame is Err ==> r == responses
            &&& sent is Ok && frame is Ok ==> r == responses + seq![frame->Ok_0]
        }),
{
}

/// An IPv6 packet from a peer is handed on in any case. Where the node passes packets through, or
/// the packet is no ping, that is all. Otherwise an echo reply ends the wait for its number, and
/// for no other, and tells how long it was where there was a wait; an echo request is answered.
pub proof fn law_ipv6_packets(
    n: NodeModel,
    from: Seq<u8>,
    packet: Seq<u8>,
    result: ResultModel,
    now: u64,
)
    ensures
        ({
            let (after, r) = node_ipv6(n, from, packet, result, now);
            let source = ipv6::ipv6_text(ipv6::ipv6_of(from));
            let is_reply = ipv6::is_echo(packet, 129);
            let is_request = ipv6::is_echo(packet, 128);
            let seq = ipv6::echo_seq(packet);
            let waited = n.pending_pings.contains_key(seq as u16);
            let took: nat = if now >= n.pending_pings[seq as u16] {
                (now - n.pending_pings[seq as u16]) as nat
            } else {
                0
            };
            &&& r.payload == Some(packet)
            &&& r.session_peer_npub == result.session_peer_npub
            &&& n.raw_ipv6_passthrough || (!is_reply && !is_request) ==> {
                &&& after == n
                &&& r.msg_type == "session_ipv6"@
                &&& r.info == Some("IPv6 shim packet from "@ + source)
                &&& r.responses == result.responses
            }
            &&& !n.raw_ipv6_passthrough && is_reply ==> {
                &&& after == NodeModel { pending_pings: after.pending_pings, ..n }
                &&& !after.pending_pings.contains_key(seq as u16)
                &&& forall|other: u16|
                    other != seq ==> (#[trigger] after.pending_pings.contains_key(other)
                        <==> n.pending_pings.contains_key(other))
                &&& forall|other: u16|
                    other != seq && #[trigger] n.pending_pings.contains_key(other)
                        ==> after.pending_pings[other] == n.pending_pings[other]
                &&& r.msg_type == "ping_reply"@
                &&& r.responses == result.responses
                &&& !waited ==> r.info == Some(
                    "ICMPv6 Echo Reply from "@ + source + " seq="@ + text::decimal(seq),
                )
                &&& waited ==> r.info == Some(
                    "ICMPv6 Echo Reply from "@ + source + " seq="@ + text::decimal(seq) + " rtt="@
                        + text::decimal(took) + "ms"@,
                )
            }
            &&& !n.raw_ipv6_passthrough && is_request ==> {
                let (answered, responses) = node_answers_echo(
                    n,
                    from,
                    packet,
                    result.responses,
                    now,
                );
                &&& after == answered
                &&& r.msg_type == "ping_request"@
                &&& r.responses == responses
                &&& r.info == Some(
                    "ICMPv6 Echo Request from "@ + source + " seq="@ + text::decimal(seq)
                        + ", sent Echo Reply"@,
                )
            }
        }),
{
    ipv6::law_echo_is_recognized(packet, 129);
    ipv6::law_echo_is_recognized(packet, 128);
    if packet.len() >= 48 {
        assert(ipv6::echo_seq(packet) <= 0xffff);
    }
}

/// What a node makes of data from a peer, by the port it is for: port 1 is a chat line and is
/// shown; port 256 is a packet in the shim, from the peer's address to ours; data for any other
/// port is handed on. Only a packet can change anything.
pub proof fn law_data_by_port(
    n: NodeModel,
    from: Seq<u8>,
    port: nat,
    data: Seq<u8>,
    result: ResultModel,
    now: u64,
)
    ensures
        node_payload(n, from, None, result, now) == (n, result),
        ({
            let (after, r) = node_payload(n, from, Some((port, data)), result, now);
            let shim = data.len() >= 7 && data[0] == 0;
            let packet = ipv6::decompressed(
                data,
                ipv6::ipv6_of(from),
                ipv6::ipv6_of(node_addr(n)),
            );
            &&& port == 256 && shim ==> (after, r) == node_ipv6(n, from, packet, result, now)
            &&& port != 256 || !shim ==> {
                &&& after == n
                &&& r.payload == Some(data)
                &&& r.responses == result.responses
                &&& r.session_peer_npub == result.session_peer_npub
            }
            &&& port == 1 ==> {
                &&& r.msg_type == "session_chat"@
                &&& r.info == Some(
                    "Chat from "@ + text::hex_text(from.take(4)) + ": "@ + text::shown_text(data),
                )
            }
            &&& port == 256 && !shim ==> {
                &&& r.msg_type == "session_ipv6_bad"@
                &&& r.info == Some("Failed to decompress IPv6 shim packet"@)
            }
            &&& port != 1 && port != 256 ==> {
                &&& r.msg_type == "session_port_"@ + text::decimal(port)
                &&& r.info == result.info
            }
        }),
{
}

/// A datagram is ours if bytes 19 to 34 are our address; then what stands behind byte 34 goes to
/// our session with the node in bytes 3 to 18, the answers go back to that node in their order,
/// and what the session brought is told and handled by its kind and its port. A datagram for
/// another node is named with its destination and its hop count.
pub proof fn law_datagrams(n: NodeModel, payload: Seq<u8>, ephemeral: Seq<u8>, now: u64)
    ensures
        ({
            let (after, r) = node_datagram(n, payload, ephemeral, now);
            let src = payload.subrange(3, 19);
            let dest = payload.subrange(19, 35);
            let whole = payload.len() >= 35;
            let ours = whole && dest == node_addr(n);
            let (sessions, event) = session::sessions_incoming(
                n.sessions,
                src,
                payload.subrange(35, payload.len() as int),
                n.session_epoch,
                n.secret,
                ephemeral,
                now as nat,
            );
            let n1 = NodeModel { sessions, ..n };
            let ev = event->Ok_0;
            let (n2, sent) = node_forward_all(n1, src, ev.fsp_responses, now);
            &&& !whole ==> after == n && r == Err::<ResultModel, Seq<char>>(
                "invalid SessionDatagram (too short)"@,
            )
            &&& whole && !ours ==> {
                &&& after == n
                &&& r is Ok
                &&& r->Ok_0.msg_type == "session_datagram_forward"@
                &&& r->Ok_0.info == Some(
                    "SessionDatagram not for us (dest="@ + text::hex_text(dest) + ", ttl="@
                        + text::decimal(payload[0] as nat) + ")"@,
                )
                &&& r->Ok_0.responses.len() == 0
                &&& r->Ok_0.payload is None
            }
            &&& ours && event is Err ==> after == n1 && r == Err::<ResultModel, Seq<char>>(
                event->Err_0,
            )
            &&& ours && event is Ok && sent is Err ==> {
                &&& after == n2
                &&& r is Ok
                &&& r->Ok_0.msg_type == "session_error"@
                &&& r->Ok_0.info == Some(
                    "Failed to encrypt session response: "@ + sent->Err_0,
                )
                &&& r->Ok_0.responses.len() == 0
            }
            &&& ours && event is Ok && sent is Ok ==> exists|base: ResultModel|
                {
                    &&& base.msg_type == "session"@
                    &&& base.info == Some(ev.info)
                    &&& base.responses == sent->Ok_0
                    &&& base.session_peer_npub == ev.remote_npub
                    &&& base.payload is None
                    &&& after == node_payload(
                        (#[trigger] node_session_reports(n2, src, ev.kind, base, now)).0,
                        ev.from,
                        ev.payload,
                        node_session_reports(n2, src, ev.kind, base, now).1,
                        now,
                    ).0
                    &&& r == Ok::<ResultModel, Seq<char>>(
                        node_payload(
                            node_session_reports(n2, src, ev.kind, base, now).0,
                            ev.from,
                            ev.payload,
                            node_session_reports(n2, src, ev.kind, base, now).1,
                            now,
                        ).1,
                    )
                }
        }),
{
    wire::law_datagram_is_read_in_place(payload);
    if payload.len() >= 35 {
        let src = payload.subrange(3, 19);
        assert(payload.skip(35) =~= payload.subrange(35, payload.len() as int));
        let (sessions, event) = session::sessions_incoming(
            n.sessions,
            src,
            payload.subrange(35, payload.len() as int),
            n.session_epoch,
            n.secret,
            ephemeral,
            now as nat,
        );
        let n1 = NodeModel { sessions, ..n };
        let ev = event->Ok_0;
        let (n2, sent) = node_forward_all(n1, src, ev.fsp_responses, now);
        let base = ResultModel {
            responses: sent->Ok_0,
            session_peer_npub: ev.remote_npub,
            ..plain_result("session"@, Some(ev.info))
        };
        let told = node_session_reports(n2, src, ev.kind, base, now);
        assert(told.0 == told.0);
    }
}

/// A new node has its own address, no link, no session and no ping under way; it stands alone in
/// the tree, numbers its pings from 1 and answers pings itself.
pub proof fn law_new_node(secret: Seq<u8>, epoch: Seq<u8>)
    ensures
        ({
            let n = node_new(secret, epoch);
            let addr = crypto::sha256(
                crypto::secp256k1_public(secret)@.subrange(1, 33),
            )@.subrange(0, 16);
            &&& n.secret == secret
            &&& n.session_epoch == epoch
            &&& node_addr(n) == addr
            &&& n.sessions.addr == addr
            &&& n.sessions.coords.len() == 1
            &&& n.sessions.coords[0] == addr
            &&& forall|peer: Seq<u8>| !(#[trigger] session::has_session(n.sessions, peer))
            &&& n.link is None
            &&& n.next_ping_seq == 1
            &&& forall|seq: u16| !(#[trigger] n.pending_pings.contains_key(seq))
            &&& !n.raw_ipv6_passthrough
        }),
{
    identity::law_address_of_secret(secret);
}

/// The key that an npub names is a 2 and its 32 bytes, where that is a point of the curve.
pub proof fn law_key_of_npub(npub: Seq<char>)
    ensures
        ({
            let x = identity::decoded_npub(npub);
            let key = seq![2u8] + x->Ok_0;
            let r = npub_key(npub);
            &&& r is Ok <==> x is Ok && crypto::secp256k1_point(key) is Some
            &&& r is Ok ==> r->Ok_0 == key
            &&& x is Err ==> r->Err_0 == x->Err_0
            &&& x is Ok && crypto::secp256k1_point(key) is None ==> r->Err_0
                == "invalid x-only key: crypto error"@
        }),
{
    assert(identity::even_key(identity::decoded_npub(npub)->Ok_0) =~= seq![2u8]
        + identity::decoded_npub(npub)->Ok_0);
}

/// A handshake starts whatever link there was: the packet carries our index and the first IK
/// message, written by our key to the peer's key with the given epoch and ephemeral key. A bad npub
/// changes nothing.
pub proof fn law_starting_a_handshake(
    n: NodeModel,
    npub: Seq<char>,
    epoch: Seq<u8>,
    our_idx: u32,
    ephemeral: Seq<u8>,
)
    requires
        epoch.len() == 8,
    ensures
        ({
            let (after, r) = node_initiate(n, npub, epoch, our_idx, ephemeral);
            let key = npub_key(npub);
            let (hs, message) = noise::ik_write_message_1(
                noise::ik_initiator(n.secret, key->Ok_0, epoch),
                ephemeral,
            );
            let packet = r->Ok_0;
            &&& key is Err ==> after == n && r == Err::<Seq<u8>, Seq<char>>(key->Err_0)
            &&& key is Ok ==> {
                &&& r is Ok
                &&& after == NodeModel { link: after.link, ..n }
                &&& after.link matches Some(l) && l is Handshaking
                &&& after.link->0->hs == hs
                &&& after.link->0->Handshaking_our_idx == our_idx
                &&& message is Ok
                &&& packet == wire::msg1_packet(our_idx as nat, message->Ok_0)
            }
        }),
{
}

/// A handshake does not start without an epoch and an index: what went wrong first is the answer,
/// the npub before the epoch and the epoch before the index, and nothing changes.
pub proof fn law_failed_draws(
    n: NodeModel,
    npub: Seq<char>,
    epoch: Result<Seq<u8>, Seq<char>>,
    idx: Result<Seq<u8>, Seq<char>>,
    ephemeral: Seq<u8>,
)
    requires
        npub_key(npub) is Err || epoch is Err || idx is Err,
    ensures
        ({
            let (after, r) = node_initiate_drawn(n, npub, epoch, idx, ephemeral);
            let key = npub_key(npub);
            &&& after == n
            &&& r is Err
            &&& key is Err ==> r->Err_0 == key->Err_0
            &&& key is Ok && epoch is Err ==> r->Err_0 == epoch->Err_0
            &&& key is Ok && epoch is Ok ==> r->Err_0 == idx->Err_0
        }),
{
}

/// The index that was drawn is read lowest byte first, and both draws are used as they came.
pub proof fn law_drawn_values_are_used(
    n: NodeModel,
    npub: Seq<char>,
    epoch: Seq<u8>,
    idx: Seq<u8>,
    ephemeral: Seq<u8>,
)
    requires
        idx.len() == 4,
    ensures
        node_initiate_drawn(n, npub, Ok(epoch), Ok(idx), ephemeral) == node_initiate(
            n,
            npub,
            epoch,
            (idx[0] + 0x100 * idx[1] + 0x1_0000 * idx[2] + 0x100_0000 * idx[3]) as u32,
            ephemeral,
        ),
{
    bytes::law_le_value_weighs_bytes(idx);
}

/// What is sent to a node through a session goes in one frame, in an envelope to that node; where
/// the session refuses, nothing leaves and its answer is the answer. Sending on a port sends from
/// that port to that port.
pub proof fn law_sending_on_a_port(
    n: NodeModel,
    dest: Seq<u8>,
    port: u16,
    payload: Seq<u8>,
    now: u64,
)
    ensures
        ({
            let (after, r) = node_send_port(n, dest, port, payload, now);
            let (sessions, sent) = session::sessions_send(
                n.sessions,
                dest,
                port as nat,
                port as nat,
                payload,
                now as nat,
            );
            let n1 = NodeModel { sessions, ..n };
            &&& sent is Err ==> after == n1 && r == Err::<Seq<u8>, Seq<char>>(sent->Err_0)
            &&& sent is Ok ==> (after, r) == node_frame(
                n1,
                session::enveloped(sessions, dest, sent->Ok_0),
                now,
            )
        }),
{
}

/// Who is written to is the node whose key the npub names: its address is the first half of the
/// digest of the key. A bad npub is refused with its fault; a node does not write to itself, but
/// may keep a session alive with anyone. Chat goes to port 1 and packets, in the shim, to port
/// 256; an empty message to port 0 keeps a session alive.
pub proof fn law_sending_by_npub(
    n: NodeModel,
    npub: Seq<char>,
    message: Seq<u8>,
    now: u64,
)
    ensures
        ({
            let x = identity::decoded_npub(npub);
            let dest = crypto::sha256(x->Ok_0)@.subrange(0, 16);
            let own = dest == node_addr(n);
            let chat = node_send_message(n, npub, message, now);
            let packet = node_send_ipv6(n, npub, message, now);
            let alive = node_send_keepalive(n, npub, now);
            let whole = message.len() >= 40 && message[0] / 16 == 6;
            &&& x is Err ==> {
                let refused = (n, Err::<Seq<u8>, Seq<char>>(x->Err_0));
                &&& chat == refused
                &&& packet == refused
                &&& alive == refused
                &&& node_send_ping(n, npub, now) == refused
            }
            &&& x is Ok && own ==> {
                &&& chat == (n, Err::<Seq<u8>, Seq<char>>("cannot send a session message to self"@))
                &&& packet == (
                    n,
                    Err::<Seq<u8>, Seq<char>>("cannot send raw IPv6 to self through a session"@),
                )
                &&& node_send_ping(n, npub, now) == (
                    n,
                    Err::<Seq<u8>, Seq<char>>(
                        "cannot send an IPv6 ping to self through a session"@,
                    ),
                )
            }
            &&& x is Ok ==> alive == node_send_port(n, dest, 0, Seq::empty(), now)
            &&& x is Ok && !own ==> {
                &&& chat == node_send_port(n, dest, 1, message, now)
                &&& whole ==> packet == node_send_port(n, dest, 256, ipv6::compressed(message), now)
                &&& !whole ==> packet == (
                    n,
                    Err::<Seq<u8>, Seq<char>>("IPv6 shim compression failed"@),
                )
            }
        }),
{
    identity::law_address_of_key(identity::decoded_npub(npub)->Ok_0);
    ipv6::law_shim_layout(message);
}

/// A ping to another node spends one number, the next one after it is one higher or 0 after 65535,
/// and notes when it was sent; no other wait is touched. What leaves is the shim of the echo
/// request from our address to the node's, with that number, on port 256.
pub proof fn law_sending_a_ping(n: NodeModel, npub: Seq<char>, x: Seq<u8>, now: u64)
    requires
        identity::decoded_npub(npub) == Ok::<Seq<u8>, Seq<char>>(x),
        crypto::sha256(x)@.subrange(0, 16) != node_addr(n),
    ensures
        exists|noted: NodeModel|
            {
                let dest = crypto::sha256(x)@.subrange(0, 16);
                let seq = n.next_ping_seq;
                let request = ipv6::echo_request(
                    ipv6::ipv6_of(node_addr(n)),
                    ipv6::ipv6_of(dest),
                    seq,
                );
                &&& noted == NodeModel {
                    next_ping_seq: noted.next_ping_seq,
                    pending_pings: noted.pending_pings,
                    ..n
                }
                &&& noted.next_ping_seq as int == (seq + 1) % 0x1_0000
                &&& #[trigger] noted.pending_pings.contains_key(n.next_ping_seq)
                &&& noted.pending_pings[seq] == now
                &&& forall|other: u16|
                    other != seq ==> (#[trigger] noted.pending_pings.contains_key(other)
                        <==> n.pending_pings.contains_key(other))
                &&& forall|other: u16|
                    other != seq && #[trigger] n.pending_pings.contains_key(other)
                        ==> noted.pending_pings[other] == n.pending_pings[other]
                &&& node_send_ping(n, npub, now) == node_send_port(
                    noted,
                    dest,
                    256,
                    ipv6::compressed(request),
                    now,
                )
            },
{
    identity::law_address_of_key(x);
    let dest = crypto::sha256(x)@.subrange(0, 16);
    let seq = n.next_ping_seq;
    let noted = NodeModel {
        next_ping_seq: if seq == u16::MAX {
            0
        } else {
            (seq + 1) as u16
        },
        pending_pings: n.pending_pings.insert(seq, now),
        ..n
    };
    let request = ipv6::echo_request(ipv6::ipv6_of(node_addr(n)), ipv6::ipv6_of(dest), seq);
    assert(noted.pending_pings.contains_key(n.next_ping_seq));
    assert(node_send_ping(n, npub, now) == node_send_port(
        noted,
        dest,
        256,
        ipv6::compressed(request),
        now,
    ));
}

/// A session is started with the node that an npub names, unless there is one or the node is
/// ourselves; the message that starts it leaves in one frame, in an envelope to that node.
pub proof fn law_connecting(n: NodeModel, npub: Seq<char>, ephemeral: Seq<u8>, now: u64)
    ensures
        ({
            let (after, r) = node_connect(n, npub, ephemeral, now);
            let x = identity::decoded_npub(npub);
            let dest = crypto::sha256(x->Ok_0)@.subrange(0, 16);
            let up = x is Ok && session::established_with(n.sessions, dest);
            let key = npub_key(npub);
            let (sessions, sent) = session::sessions_initiate(
                n.sessions,
                dest,
                key->Ok_0,
                n.session_epoch,
                n.secret,
                ephemeral,
                now as nat,
            );
            let n1 = NodeModel { sessions, ..n };
            let fresh = !up && key is Ok && dest != node_addr(n);
            &&& node_session_established(n, npub) == up
            &&& up ==> after == n && r == Err::<Seq<u8>, Seq<char>>(
                "session already established for this destination"@,
            )
            &&& !up && key is Err ==> after == n && r == Err::<Seq<u8>, Seq<char>>(key->Err_0)
            &&& !up && key is Ok && dest == node_addr(n) ==> after == n && r == Err::<
                Seq<u8>,
                Seq<char>,
            >("cannot start a session to self"@)
            &&& fresh && sent is Err ==> after == n1 && r == Err::<Seq<u8>, Seq<char>>(
                sent->Err_0,
            )
            &&& fresh && sent is Ok ==> (after, r) == node_frame(
                n1,
                session::enveloped(sessions, dest, sent->Ok_0),
                now,
            )
        }),
{
    let x = identity::decoded_npub(npub);
    identity::law_address_of_key(x->Ok_0);
    assert(identity::x_only(identity::even_key(x->Ok_0)) =~= x->Ok_0);
}

/// What cannot be sealed is not sent, and the answer says so; the link keeps what it has but for
/// the cipher, which is as sealing leaves it.
pub proof fn law_unsealed_is_not_sent(n: NodeModel, message: Seq<u8>, now: u64)
    requires
        n.link matches Some(l) && l is Established,
    ensures
        ({
            let (after, r) = node_frame(n, message, now);
            let send = n.link->0->send;
            let inner = bytes::le_bytes(now as nat % 0x1_0000_0000, 4) + message;
            let header = seq![0u8, 0u8] + bytes::le_bytes(inner.len(), 2) + bytes::le_bytes(
                n.link->0->remote_idx as nat,
                4,
            ) + bytes::le_bytes(send.nonce, 8);
            let (cipher, sealed) = cipher::cipher_sealed(send, header, inner);
            &&& r is Ok <==> sealed is Ok
            &&& r is Ok ==> r->Ok_0 == header + sealed->Ok_0
            &&& r is Err ==> r->Err_0 == "encrypt failed: "@ + sealed->Err_0
            &&& same_link(
                after,
                NodeModel {
                    link: Some(
                        LinkModel::Established {
                            send: cipher,
                            recv: n.link->0->recv,
                            replay: n.link->0->replay,
                            our_idx: n.link->0->Established_our_idx,
                            remote_idx: n.link->0->remote_idx,
                            receiver: n.link->0->receiver,
                            tree_seq: n.link->0->tree_seq,
                            filter_seq: n.link->0->filter_seq,
                        },
                    ),
                    ..n
                },
            )
        }),
{
    broadcast use bytes::lemma_le_bytes_len;

}

} // verus!

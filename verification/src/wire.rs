//! FMP wire format (link-layer packet framing) and FSP session framing.
//!
//! ## Common prefix (4 bytes, all packets)
//! ```text
//! [ver(4bit)+phase(4bit)] [flags:1] [payload_len:2 LE]
//! ```
//!
//! ## Packet types
//! | Phase | Type            | Total wire size |
//! |-------|-----------------|-----------------|
//! | 0x1   | Noise IK msg1   | 114 bytes       |
//! | 0x2   | Noise IK msg2   | 69 bytes        |
//! | 0x0   | Encrypted frame | 32+ bytes       |

use crate::bytes;
use crate::noise::HANDSHAKE_MSG1_SIZE;
use vstd::prelude::*;
use vstd::slice::slice_subrange;

verus! {

// ============================================================================
// Protocol constants
// ============================================================================

/// FMP protocol version.
pub const FMP_VERSION: u8 = 0;

pub const PHASE_ESTABLISHED: u8 = 0x0;

pub const PHASE_MSG1: u8 = 0x1;

pub const PHASE_MSG2: u8 = 0x2;

/// Common prefix size (all packets).
pub const COMMON_PREFIX_SIZE: usize = 4;

/// Established frame header: prefix(4) + receiver_idx(4) + counter(8) = 16.
pub const ESTABLISHED_HEADER_SIZE: usize = 16;

/// Msg1 wire: prefix(4) + sender_idx(4) + noise_msg1(106) = 114.
pub const MSG1_WIRE_SIZE: usize = 114;

/// Msg2 wire: prefix(4) + sender_idx(4) + receiver_idx(4) + noise_msg2(57) = 69.
pub const MSG2_WIRE_SIZE: usize = 69;

/// Minimum encrypted frame: header(16) + tag(16) = 32.
pub const ENCRYPTED_MIN_SIZE: usize = 32;

/// Inner header size (timestamp + message type).
pub const INNER_HEADER_SIZE: usize = 5;

// ============================================================================
// Link-layer message types
// ============================================================================

/// SessionDatagram: encapsulated session-layer payload for multi-hop forwarding.
pub const MSG_TYPE_SESSION_DATAGRAM: u8 = 0x00;

/// MMP SenderReport.
pub const MSG_TYPE_SENDER_REPORT: u8 = 0x01;

/// MMP ReceiverReport.
pub const MSG_TYPE_RECEIVER_REPORT: u8 = 0x02;

/// TreeAnnounce: spanning tree declaration.
pub const MSG_TYPE_TREE_ANNOUNCE: u8 = 0x10;

/// FilterAnnounce: bloom filter routing update.
pub const MSG_TYPE_FILTER_ANNOUNCE: u8 = 0x20;

/// Disconnect: orderly link closure.
pub const MSG_TYPE_DISCONNECT: u8 = 0x50;

/// Heartbeat: liveness keepalive (empty payload).
pub const MSG_TYPE_HEARTBEAT: u8 = 0x51;

// ============================================================================
// Time
// ============================================================================

/// Get current time in milliseconds since epoch, from the system clock
/// (`std::time::SystemTime::now`). Nothing is known of it.
///
/// `wasm32` has no system clock: there, callers read the page's clock and use the functions that
/// take the time as an argument.
#[verifier::external_body]
pub fn current_time_ms() -> u64 {
    std::time::SystemTime::now()
        .duration_since(std::time::UNIX_EPOCH)
        .unwrap_or_default()
        .as_millis() as u64
}

/// Whole seconds of a time in milliseconds.
pub fn unix_secs_of(time_ms: u64) -> (r: u64)
    ensures
        r == time_ms / 1000,
{
    time_ms / 1000
}

/// The timestamp that frames carry: the lowest 32 bits of a time in milliseconds.
pub fn timestamp_of(time_ms: u64) -> (r: u32)
    ensures
        r == timestamp(time_ms as nat),
{
    (time_ms % 0x1_0000_0000) as u32
}

/// The timestamp that frames carry: the lowest 32 bits of a time in milliseconds.
pub open spec fn timestamp(time_ms: nat) -> nat {
    time_ms % 0x1_0000_0000
}

/// Get current Unix timestamp in seconds.
pub fn current_unix_secs() -> (r: u64)
    ensures
        r <= u64::MAX / 1000,
{
    unix_secs_of(current_time_ms())
}

/// Get a session-relative timestamp in milliseconds (wrapping u32).
pub fn current_timestamp_ms() -> (r: u32)
    ensures
        exists|now: nat| now <= u64::MAX && r == #[trigger] timestamp(now),
{
    let now: u64 = current_time_ms();
    assert(timestamp(now as nat) == timestamp(now as nat));
    timestamp_of(now)
}

// ============================================================================
// Parsing
// ============================================================================

/// The protocol version in the first byte of a packet.
pub open spec fn version_of(data: Seq<u8>) -> u8 {
    data[0] / 16
}

/// The phase in the first byte of a packet.
pub open spec fn phase_of(data: Seq<u8>) -> u8 {
    data[0] % 16
}

/// Parsed common prefix.
pub struct CommonPrefix {
    pub phase: u8,
}

impl CommonPrefix {
    /// Parse the prefix that all packets share.
    pub fn parse(data: &[u8]) -> (r: Option<Self>)
        ensures
            r is Some <==> data@.len() >= COMMON_PREFIX_SIZE,
            r matches Some(p) ==> p.phase == phase_of(data@),
    {
        if data.len() < COMMON_PREFIX_SIZE {
            return None;
        }
        Some(Self { phase: data[0] % 16 })
    }
}

/// Parsed msg2 header.
pub struct Msg2Header {
    pub sender_idx: u32,
    pub noise_payload: Vec<u8>,
}

/// Whether a packet is a msg2: long enough, and of that phase.
pub open spec fn is_msg2(data: Seq<u8>) -> bool {
    data.len() >= MSG2_WIRE_SIZE && phase_of(data) == PHASE_MSG2
}

/// The sender index in a msg1 or msg2.
pub open spec fn sender_idx_of(data: Seq<u8>) -> nat {
    bytes::le_value(data.subrange(4, 8))
}

/// The Noise message in a msg2.
pub open spec fn msg2_noise_of(data: Seq<u8>) -> Seq<u8> {
    data.subrange(12, 69)
}

impl Msg2Header {
    /// Parse a msg2. The receiver index is our own and is not read.
    pub fn parse(data: &[u8]) -> (r: Option<Self>)
        ensures
            r is Some <==> is_msg2(data@),
            r matches Some(h) ==> h.sender_idx == sender_idx_of(data@) && h.noise_payload@
                == msg2_noise_of(data@),
    {
        if data.len() < MSG2_WIRE_SIZE {
            return None;
        }
        if data[0] % 16 != PHASE_MSG2 {
            return None;
        }
        let sender_idx: u32 = bytes::u32_le_at(data, 4);
        let noise_payload = bytes::to_vec(slice_subrange(data, 12, MSG2_WIRE_SIZE));
        Some(Self { sender_idx, noise_payload })
    }
}

/// Parsed encrypted frame header.
pub struct EncryptedHeader {
    pub counter: u64,
    pub header_bytes: [u8; 16],
}

/// Whether a packet is an encrypted frame: long enough, of our version and established.
pub open spec fn is_encrypted(data: Seq<u8>) -> bool {
    data.len() >= ENCRYPTED_MIN_SIZE && version_of(data) == FMP_VERSION && phase_of(data)
        == PHASE_ESTABLISHED
}

/// The counter in the header of an encrypted frame.
pub open spec fn counter_of(data: Seq<u8>) -> nat {
    bytes::le_value(data.subrange(8, 16))
}

impl EncryptedHeader {
    /// Parse the header of an encrypted frame.
    pub fn parse(data: &[u8]) -> (r: Option<Self>)
        ensures
            r is Some <==> is_encrypted(data@),
            r matches Some(h) ==> h.counter == counter_of(data@) && h.header_bytes@ == data@.take(
                16,
            ),
    {
        if data.len() < ENCRYPTED_MIN_SIZE {
            return None;
        }
        if data[0] / 16 != FMP_VERSION || data[0] % 16 != PHASE_ESTABLISHED {
            return None;
        }
        let counter: u64 = bytes::u64_le_at(data, 8);
        let header_bytes = bytes::array16_at(data, 0);
        assert(header_bytes@ =~= data@.take(16));
        Some(Self { counter, header_bytes })
    }

    /// What stands behind the header.
    pub fn ciphertext<'a>(&self, data: &'a [u8]) -> (r: &'a [u8])
        requires
            data@.len() >= ESTABLISHED_HEADER_SIZE,
        ensures
            r@ == data@.skip(16),
    {
        let r = slice_subrange(data, ESTABLISHED_HEADER_SIZE, data.len());
        assert(r@ =~= data@.skip(16));
        r
    }
}

// ============================================================================
// Building
// ============================================================================

/// A msg1 packet: `[prefix:4][sender_idx:4 LE][noise_msg1:106]`.
pub open spec fn msg1_packet(sender_idx: nat, noise_msg1: Seq<u8>) -> Seq<u8> {
    seq![PHASE_MSG1, 0u8] + bytes::le_bytes(4 + noise_msg1.len(), 2) + bytes::le_bytes(
        sender_idx,
        4,
    ) + noise_msg1
}

/// Build a msg1 wire packet.
pub fn build_msg1(sender_idx: u32, noise_msg1: &[u8]) -> (r: Vec<u8>)
    requires
        noise_msg1@.len() == HANDSHAKE_MSG1_SIZE,
    ensures
        r@ == msg1_packet(sender_idx as nat, noise_msg1@),
        r@.len() == MSG1_WIRE_SIZE,
{
    broadcast use bytes::lemma_le_bytes_len;

    let mut pkt: Vec<u8> = Vec::with_capacity(MSG1_WIRE_SIZE);
    pkt.push(FMP_VERSION * 16 + PHASE_MSG1);
    pkt.push(0x00);
    assert(pkt@ =~= seq![PHASE_MSG1, 0u8]);
    bytes::push_len_le(&mut pkt, 4 + noise_msg1.len());
    bytes::push_u32_le(&mut pkt, sender_idx);
    bytes::append(&mut pkt, noise_msg1);
    pkt
}

/// The header of an established frame:
/// `[prefix:2][payload_len:2 LE][receiver_idx:4 LE][counter:8 LE]`.
pub open spec fn established_header(
    flags: u8,
    payload_len: nat,
    receiver_idx: nat,
    counter: nat,
) -> Seq<u8> {
    seq![PHASE_ESTABLISHED, flags] + bytes::le_bytes(payload_len, 2) + bytes::le_bytes(
        receiver_idx,
        4,
    ) + bytes::le_bytes(counter, 8)
}

/// Build the 16-byte FMP header for an established frame.
///
/// Used as both the wire header and the AEAD associated data. `payload_len` is the inner
/// plaintext length (before the AEAD tag is appended).
pub fn build_established_header(
    flags: u8,
    payload_len: u16,
    receiver_idx: u32,
    counter: u64,
) -> (r: [u8; 16])
    ensures
        r@ == established_header(flags, payload_len as nat, receiver_idx as nat, counter as nat),
{
    broadcast use bytes::lemma_le_bytes_len;

    let mut hdr: Vec<u8> = Vec::with_capacity(ESTABLISHED_HEADER_SIZE);
    hdr.push(FMP_VERSION * 16 + PHASE_ESTABLISHED);
    hdr.push(flags);
    assert(hdr@ =~= seq![PHASE_ESTABLISHED, flags]);
    bytes::push_u16_le(&mut hdr, payload_len);
    bytes::push_u32_le(&mut hdr, receiver_idx);
    bytes::push_u64_le(&mut hdr, counter);
    let r = bytes::array16_at(hdr.as_slice(), 0);
    assert(r@ =~= hdr@);
    r
}

/// Parse inner header from decrypted plaintext.
///
/// Returns (timestamp, msg_type, payload).
pub fn parse_inner(data: &[u8]) -> (r: Option<(u32, u8, &[u8])>)
    ensures
        r is Some <==> data@.len() >= INNER_HEADER_SIZE,
        r matches Some(v) ==> v.0 == bytes::le_value(data@.take(4)) && v.1 == data@[4] && v.2@
            == data@.skip(5),
{
    if data.len() < INNER_HEADER_SIZE {
        return None;
    }
    let timestamp: u32 = bytes::u32_le_at(data, 0);
    assert(data@.subrange(0, 4) =~= data@.take(4));
    let msg_type: u8 = data[4];
    let rest = slice_subrange(data, INNER_HEADER_SIZE, data.len());
    assert(rest@ =~= data@.skip(5));
    Some((timestamp, msg_type, rest))
}

// ============================================================================
// FSP (FIPS Session Protocol)
// ============================================================================

/// FSP header size (ver_phase + flags + payload_len + counter).
pub const FSP_HEADER_SIZE: usize = 12;

/// FSP inner header size (timestamp + msg_type + inner_flags).
pub const FSP_INNER_HEADER_SIZE: usize = 6;

/// FSP phase of encrypted session data.
pub const FSP_PHASE_ESTABLISHED: u8 = 0x0;

/// FSP phase of a SessionSetup.
pub const FSP_PHASE_SETUP: u8 = 0x1;

/// FSP phase of a SessionAck.
pub const FSP_PHASE_ACK: u8 = 0x2;

/// FSP phase of a SessionMsg3.
pub const FSP_PHASE_MSG3: u8 = 0x3;

/// FSP session message type for data (inside the AEAD envelope).
pub const FSP_MSG_TYPE_DATA: u8 = 0x10;

/// FSP port for chat messages.
pub const FSP_PORT_CHAT: u16 = 1;

/// FSP port for the IPv6 shim.
pub const FSP_PORT_IPV6_SHIM: u16 = 256;

/// AEAD tag size.
pub const AEAD_TAG_SIZE: usize = 16;

// ============================================================================
// SessionDatagram (link-layer envelope for session payloads)
// ============================================================================

/// SessionDatagram header size: ttl(1) + path_mtu(2) + src_addr(16) + dest_addr(16) = 35.
pub const SESSION_DATAGRAM_HEADER_SIZE: usize = 35;

/// What a SessionDatagram carries.
#[verifier::ext_equal]
pub struct DatagramModel {
    pub ttl: u8,
    pub path_mtu: nat,
    pub src_addr: Seq<u8>,
    pub dest_addr: Seq<u8>,
    pub payload: Seq<u8>,
}

/// `[ttl:1][path_mtu:2 LE][src_addr:16][dest_addr:16][fsp_payload...]`
pub open spec fn datagram_bytes(d: DatagramModel) -> Seq<u8> {
    seq![d.ttl] + bytes::le_bytes(d.path_mtu, 2) + d.src_addr + d.dest_addr + d.payload
}

/// What the bytes of a SessionDatagram say, if there are enough of them.
pub open spec fn parsed_datagram(data: Seq<u8>) -> Option<DatagramModel> {
    if data.len() < SESSION_DATAGRAM_HEADER_SIZE {
        None
    } else {
        Some(
            DatagramModel {
                ttl: data[0],
                path_mtu: bytes::le_value(data.subrange(1, 3)),
                src_addr: data.subrange(3, 19),
                dest_addr: data.subrange(19, 35),
                payload: data.skip(35),
            },
        )
    }
}

/// Build a SessionDatagram payload (after msg_type 0x00).
///
/// The msg_type byte (0x00) is prepended by the caller.
pub fn build_session_datagram_body(
    ttl: u8,
    path_mtu: u16,
    src_addr: &[u8; 16],
    dest_addr: &[u8; 16],
    fsp_payload: &[u8],
) -> (r: Vec<u8>)
    ensures
        r@ == datagram_bytes(
            (DatagramModel {
                ttl,
                path_mtu: path_mtu as nat,
                src_addr: src_addr@,
                dest_addr: dest_addr@,
                payload: fsp_payload@,
            }),
        ),
{
    let mut body: Vec<u8> = Vec::new();
    body.push(ttl);
    assert(body@ =~= seq![ttl]);
    bytes::push_u16_le(&mut body, path_mtu);
    bytes::append(&mut body, src_addr);
    bytes::append(&mut body, dest_addr);
    bytes::append(&mut body, fsp_payload);
    body
}

/// Parse a SessionDatagram body (after msg_type 0x00 has been stripped).
///
/// Returns (ttl, path_mtu, src_addr, dest_addr, fsp_payload).
pub fn parse_session_datagram_body(data: &[u8]) -> (r: Option<
    (u8, u16, [u8; 16], [u8; 16], &[u8]),
>)
    ensures
        match r {
            None => parsed_datagram(data@) is None,
            Some(d) => parsed_datagram(data@) == Some(
                DatagramModel {
                    ttl: d.0,
                    path_mtu: d.1 as nat,
                    src_addr: d.2@,
                    dest_addr: d.3@,
                    payload: d.4@,
                },
            ),
        },
{
    if data.len() < SESSION_DATAGRAM_HEADER_SIZE {
        return None;
    }
    let ttl: u8 = data[0];
    let path_mtu: u16 = bytes::u16_le_at(data, 1);
    let src_addr = bytes::array16_at(data, 3);
    let dest_addr = bytes::array16_at(data, 19);
    let payload = slice_subrange(data, SESSION_DATAGRAM_HEADER_SIZE, data.len());
    assert(payload@ =~= data@.skip(35));
    Some((ttl, path_mtu, src_addr, dest_addr, payload))
}

/// A parsed datagram is the one that was built.
pub proof fn law_datagram_round_trip(d: DatagramModel)
    requires
        d.path_mtu < 0x1_0000,
        d.src_addr.len() == 16,
        d.dest_addr.len() == 16,
    ensures
        parsed_datagram(datagram_bytes(d)) == Some(d),
{
    bytes::lemma_le_integers(d.path_mtu as u16, 0, 0);
    let b = datagram_bytes(d);
    assert(b.subrange(1, 3) =~= bytes::le_bytes(d.path_mtu, 2));
    assert(b.subrange(3, 19) =~= d.src_addr);
    assert(b.subrange(19, 35) =~= d.dest_addr);
    assert(b.skip(35) =~= d.payload);
}

// ============================================================================
// Coordinates (compact, address-only)
// ============================================================================

/// The addresses in a list, as byte sequences.
pub open spec fn addresses(coords: Seq<[u8; 16]>) -> Seq<Seq<u8>> {
    coords.map_values(|a: [u8; 16]| a@)
}

/// The bytes of a list of addresses, one after another.
pub open spec fn joined(coords: Seq<Seq<u8>>) -> Seq<u8>
    decreases coords.len(),
{
    if coords.len() == 0 {
        Seq::empty()
    } else {
        joined(coords.drop_last()) + coords.last()
    }
}

/// `[count:2 LE][addr:16 * count]`
pub open spec fn coords_bytes(coords: Seq<Seq<u8>>) -> Seq<u8> {
    bytes::le_bytes(coords.len(), 2) + joined(coords)
}

/// Whether every address in a list has 16 bytes.
pub open spec fn all_addresses(coords: Seq<Seq<u8>>) -> bool {
    forall|i: int| 0 <= i < coords.len() ==> (#[trigger] coords[i]).len() == 16
}

/// Encode coordinates as [count:2 LE][addr:16 * count].
pub fn encode_coords(coords: &[[u8; 16]]) -> (r: Vec<u8>)
    ensures
        r@ == coords_bytes(addresses(coords@)),
{
    let mut out: Vec<u8> = Vec::new();
    bytes::push_len_le(&mut out, coords.len());
    let ghost head = bytes::le_bytes(coords@.len(), 2);
    assert(out@ =~= head + joined(addresses(coords@).take(0)));
    let mut i: usize = 0;
    while i < coords.len()
        invariant
            i <= coords.len(),
            out@ == head + joined(addresses(coords@).take(i as int)),
        decreases coords.len() - i,
    {
        let addr = coords[i];
        bytes::append(&mut out, &addr);
        proof {
            let next = addresses(coords@).take(i + 1);
            assert(next.drop_last() =~= addresses(coords@).take(i as int));
            assert(next.last() == addr@);
            assert(out@ =~= head + joined(next));
        }
        i = i + 1;
    }
    assert(addresses(coords@).take(i as int) =~= addresses(coords@));
    out
}

/// What stands at `pos` as a list of addresses: the list, and the position behind it.
pub open spec fn parsed_coords(data: Seq<u8>, pos: int) -> Option<(Seq<Seq<u8>>, int)> {
    if pos + 2 > data.len() {
        None
    } else {
        let count = bytes::le_value(data.subrange(pos, pos + 2));
        if pos + 2 + 16 * count > data.len() {
            None
        } else {
            Some(
                (
                    Seq::new(
                        count,
                        |i: int| data.subrange(pos + 2 + 16 * i, pos + 18 + 16 * i),
                    ),
                    pos + 2 + 16 * count,
                ),
            )
        }
    }
}

/// Parse coordinate array at a given offset.
///
/// Returns (coords, new_position).
pub fn parse_coords(data: &[u8], pos: usize) -> (r: Option<(Vec<[u8; 16]>, usize)>)
    ensures
        match r {
            None => parsed_coords(data@, pos as int) is None,
            Some(v) => parsed_coords(data@, pos as int) == Some((addresses(v.0@), v.1 as int))
                && v.1 <= data@.len(),
        },
{
    if data.len() < 2 || pos > data.len() - 2 {
        return None;
    }
    let count: usize = bytes::u16_le_at(data, pos) as usize;
    let mut p: usize = pos + 2;
    let mut coords: Vec<[u8; 16]> = Vec::with_capacity(count);
    let mut i: usize = 0;
    while i < count
        invariant
            i <= count,
            pos + 2 <= data.len(),
            count == bytes::le_value(data@.subrange(pos as int, pos + 2)),
            p == pos + 2 + 16 * i,
            p <= data.len(),
            coords@.len() == i,
            forall|j: int|
                0 <= j < i ==> (#[trigger] coords@[j])@ == data@.subrange(
                    pos + 2 + 16 * j,
                    pos + 18 + 16 * j,
                ),
        decreases count - i,
    {
        if data.len() - p < 16 {
            return None;
        }
        coords.push(bytes::array16_at(data, p));
        p = p + 16;
        i = i + 1;
    }
    proof {
        let expected = (parsed_coords(data@, pos as int)->0).0;
        assert(addresses(coords@) =~= expected);
    }
    Some((coords, p))
}

proof fn lemma_joined_len(coords: Seq<Seq<u8>>)
    requires
        all_addresses(coords),
    ensures
        joined(coords).len() == 16 * coords.len(),
    decreases coords.len(),
{
    if coords.len() > 0 {
        assert forall|i: int| 0 <= i < coords.drop_last().len() implies (
        #[trigger] coords.drop_last()[i]).len() == 16 by {
            assert(coords.drop_last()[i] == coords[i]);
        }
        lemma_joined_len(coords.drop_last());
        assert(coords[coords.len() - 1].len() == 16);
    }
}

proof fn lemma_joined_at(coords: Seq<Seq<u8>>, i: int)
    requires
        all_addresses(coords),
        0 <= i < coords.len(),
    ensures
        joined(coords).len() == 16 * coords.len(),
        joined(coords).subrange(16 * i, 16 * i + 16) == coords[i],
    decreases coords.len(),
{
    lemma_joined_len(coords);
    let front = coords.drop_last();
    assert forall|j: int| 0 <= j < front.len() implies (#[trigger] front[j]).len() == 16 by {
        assert(front[j] == coords[j]);
    }
    lemma_joined_len(front);
    assert(coords[coords.len() - 1].len() == 16);
    if i == coords.len() - 1 {
        assert(joined(coords).subrange(16 * i, 16 * i + 16) =~= coords[i]);
    } else {
        lemma_joined_at(front, i);
        assert(joined(coords).subrange(16 * i, 16 * i + 16) =~= joined(front).subrange(
            16 * i,
            16 * i + 16,
        ));
    }
}

/// A list of addresses that stands anywhere in some bytes is read back as it was written.
pub proof fn law_coords_round_trip(before: Seq<u8>, coords: Seq<Seq<u8>>, after: Seq<u8>)
    requires
        all_addresses(coords),
        coords.len() < 0x1_0000,
    ensures
        parsed_coords(before + coords_bytes(coords) + after, before.len() as int) == Some(
            (coords, (before + coords_bytes(coords)).len() as int),
        ),
{
    let data = before + coords_bytes(coords) + after;
    let pos = before.len() as int;
    bytes::lemma_le_integers(coords.len() as u16, 0, 0);
    lemma_joined_len(coords);
    assert(data.subrange(pos, pos + 2) =~= bytes::le_bytes(coords.len(), 2));
    let found = (parsed_coords(data, pos)->0).0;
    assert forall|i: int| 0 <= i < coords.len() implies #[trigger] found[i] == coords[i] by {
        lemma_joined_at(coords, i);
        assert(data.subrange(pos + 2 + 16 * i, pos + 18 + 16 * i) =~= joined(coords).subrange(
            16 * i,
            16 * i + 16,
        ));
    }
    assert(found =~= coords);
}

// ============================================================================
// SessionSetup / SessionAck / SessionMsg3
// ============================================================================

/// What follows the FSP prefix in a SessionSetup or SessionAck:
/// `[flags:1][src_coords][dest_coords][hs_len:2 LE][hs_payload]`
pub open spec fn setup_body(src: Seq<Seq<u8>>, dest: Seq<Seq<u8>>, handshake: Seq<u8>) -> Seq<u8> {
    seq![0u8] + coords_bytes(src) + coords_bytes(dest) + bytes::le_bytes(handshake.len(), 2)
        + handshake
}

/// What follows the FSP prefix in a SessionMsg3: `[flags:1][hs_len:2 LE][hs_payload]`
pub open spec fn msg3_body(handshake: Seq<u8>) -> Seq<u8> {
    seq![0u8] + bytes::le_bytes(handshake.len(), 2) + handshake
}

/// A session handshake message: `[phase:1][0][body_len:2 LE][body]`
pub open spec fn session_message(phase: u8, body: Seq<u8>) -> Seq<u8> {
    seq![phase, 0u8] + bytes::le_bytes(body.len(), 2) + body
}

/// Build a SessionSetup (FSP phase 0x1) payload.
pub fn build_session_setup(
    src_coords: &[[u8; 16]],
    dest_coords: &[[u8; 16]],
    handshake_payload: &[u8],
) -> (r: Vec<u8>)
    ensures
        r@ == session_message(
            FSP_PHASE_SETUP,
            setup_body(addresses(src_coords@), addresses(dest_coords@), handshake_payload@),
        ),
{
    build_with_coords(FSP_PHASE_SETUP, src_coords, dest_coords, handshake_payload)
}

/// Build a SessionAck (FSP phase 0x2) payload.
pub fn build_session_ack(
    src_coords: &[[u8; 16]],
    dest_coords: &[[u8; 16]],
    handshake_payload: &[u8],
) -> (r: Vec<u8>)
    ensures
        r@ == session_message(
            FSP_PHASE_ACK,
            setup_body(addresses(src_coords@), addresses(dest_coords@), handshake_payload@),
        ),
{
    build_with_coords(FSP_PHASE_ACK, src_coords, dest_coords, handshake_payload)
}

fn build_with_coords(
    phase: u8,
    src_coords: &[[u8; 16]],
    dest_coords: &[[u8; 16]],
    handshake_payload: &[u8],
) -> (r: Vec<u8>)
    ensures
        r@ == session_message(
            phase,
            setup_body(addresses(src_coords@), addresses(dest_coords@), handshake_payload@),
        ),
{
    let src_enc = encode_coords(src_coords);
    let dest_enc = encode_coords(dest_coords);
    let mut body: Vec<u8> = Vec::new();
    body.push(0x00);
    assert(body@ =~= seq![0u8]);
    bytes::append(&mut body, src_enc.as_slice());
    bytes::append(&mut body, dest_enc.as_slice());
    bytes::push_len_le(&mut body, handshake_payload.len());
    bytes::append(&mut body, handshake_payload);
    with_fsp_prefix(phase, body.as_slice())
}

fn with_fsp_prefix(phase: u8, body: &[u8]) -> (r: Vec<u8>)
    ensures
        r@ == session_message(phase, body@),
{
    let mut out: Vec<u8> = Vec::new();
    out.push(phase);
    out.push(0x00);
    assert(out@ =~= seq![phase, 0u8]);
    bytes::push_len_le(&mut out, body.len());
    bytes::append(&mut out, body);
    out
}

/// Build a SessionMsg3 (FSP phase 0x3) payload. It carries no coordinates.
pub fn build_session_msg3(handshake_payload: &[u8]) -> (r: Vec<u8>)
    ensures
        r@ == session_message(FSP_PHASE_MSG3, msg3_body(handshake_payload@)),
{
    let mut body: Vec<u8> = Vec::new();
    body.push(0x00);
    assert(body@ =~= seq![0u8]);
    bytes::push_len_le(&mut body, handshake_payload.len());
    bytes::append(&mut body, handshake_payload);
    with_fsp_prefix(FSP_PHASE_MSG3, body.as_slice())
}

/// A length-prefixed field at `pos`, if it is all there.
pub open spec fn parsed_field(data: Seq<u8>, pos: int) -> Option<Seq<u8>> {
    if pos + 2 > data.len() {
        None
    } else {
        let n = bytes::le_value(data.subrange(pos, pos + 2)) as int;
        if pos + 2 + n > data.len() {
            None
        } else {
            Some(data.subrange(pos + 2, pos + 2 + n))
        }
    }
}

/// What the body of a SessionSetup or SessionAck says: source coordinates, destination
/// coordinates and handshake payload. The first byte is flags and not read.
pub open spec fn parsed_setup(data: Seq<u8>) -> Option<(Seq<Seq<u8>>, Seq<Seq<u8>>, Seq<u8>)> {
    if data.len() < 1 {
        None
    } else {
        match parsed_coords(data, 1) {
            None => None,
            Some((src, p)) => match parsed_coords(data, p) {
                None => None,
                Some((dest, q)) => match parsed_field(data, q) {
                    None => None,
                    Some(handshake) => Some((src, dest, handshake)),
                },
            },
        }
    }
}

/// The handshake payload in the body of a SessionMsg3.
pub open spec fn parsed_msg3(data: Seq<u8>) -> Option<Seq<u8>> {
    parsed_field(data, 1)
}

fn parse_field(data: &[u8], pos: usize) -> (r: Option<Vec<u8>>)
    ensures
        match r {
            None => parsed_field(data@, pos as int) is None,
            Some(v) => parsed_field(data@, pos as int) == Some(v@),
        },
{
    if data.len() < 2 || pos > data.len() - 2 {
        return None;
    }
    let n: usize = bytes::u16_le_at(data, pos) as usize;
    let start: usize = pos + 2;
    if n > data.len() - start {
        return None;
    }
    Some(bytes::to_vec(slice_subrange(data, start, start + n)))
}

/// Parse a SessionSetup body (after the 4-byte FSP prefix).
///
/// Returns (src_coords, dest_coords, handshake_payload).
pub fn parse_session_setup_body(data: &[u8]) -> (r: Option<
    (Vec<[u8; 16]>, Vec<[u8; 16]>, Vec<u8>),
>)
    ensures
        match r {
            None => parsed_setup(data@) is None,
            Some(v) => parsed_setup(data@) == Some((addresses(v.0@), addresses(v.1@), v.2@)),
        },
{
    if data.len() < 1 {
        return None;
    }
    let (src_coords, after_src) = match parse_coords(data, 1) {
        Some(v) => v,
        None => return None,
    };
    let (dest_coords, after_dest) = match parse_coords(data, after_src) {
        Some(v) => v,
        None => return None,
    };
    match parse_field(data, after_dest) {
        Some(handshake) => Some((src_coords, dest_coords, handshake)),
        None => None,
    }
}

/// Parse a SessionAck body (same layout as SessionSetup).
pub fn parse_session_ack_body(data: &[u8]) -> (r: Option<
    (Vec<[u8; 16]>, Vec<[u8; 16]>, Vec<u8>),
>)
    ensures
        match r {
            None => parsed_setup(data@) is None,
            Some(v) => parsed_setup(data@) == Some((addresses(v.0@), addresses(v.1@), v.2@)),
        },
{
    parse_session_setup_body(data)
}

/// Parse a SessionMsg3 body (after the 4-byte FSP prefix).
///
/// Returns the handshake payload.
pub fn parse_session_msg3_body(data: &[u8]) -> (r: Option<Vec<u8>>)
    ensures
        match r {
            None => parsed_msg3(data@) is None,
            Some(v) => parsed_msg3(data@) == Some(v@),
        },
{
    parse_field(data, 1)
}

proof fn lemma_field_read_back(before: Seq<u8>, field: Seq<u8>)
    requires
        field.len() < 0x1_0000,
    ensures
        parsed_field(
            before + bytes::le_bytes(field.len(), 2) + field,
            before.len() as int,
        ) == Some(field),
{
    let data = before + bytes::le_bytes(field.len(), 2) + field;
    let pos = before.len() as int;
    bytes::lemma_le_integers(field.len() as u16, 0, 0);
    assert(data.subrange(pos, pos + 2) =~= bytes::le_bytes(field.len(), 2));
    assert(data.subrange(pos + 2, pos + 2 + field.len()) =~= field);
}

/// The body of a SessionSetup or SessionAck is read back as it was written.
pub proof fn law_setup_round_trip(src: Seq<Seq<u8>>, dest: Seq<Seq<u8>>, handshake: Seq<u8>)
    requires
        all_addresses(src),
        all_addresses(dest),
        src.len() < 0x1_0000,
        dest.len() < 0x1_0000,
        handshake.len() < 0x1_0000,
    ensures
        parsed_setup(setup_body(src, dest, handshake)) == Some((src, dest, handshake)),
{
    let data = setup_body(src, dest, handshake);
    let field = bytes::le_bytes(handshake.len(), 2) + handshake;
    let head = seq![0u8];
    law_coords_round_trip(head, src, coords_bytes(dest) + field);
    assert(data =~= head + coords_bytes(src) + (coords_bytes(dest) + field));
    law_coords_round_trip(head + coords_bytes(src), dest, field);
    assert(data =~= (head + coords_bytes(src)) + coords_bytes(dest) + field);
    lemma_field_read_back(head + coords_bytes(src) + coords_bytes(dest), handshake);
}

/// The body of a SessionMsg3 is read back as it was written.
pub proof fn law_msg3_round_trip(handshake: Seq<u8>)
    requires
        handshake.len() < 0x1_0000,
    ensures
        parsed_msg3(msg3_body(handshake)) == Some(handshake),
{
    lemma_field_read_back(seq![0u8], handshake);
}

/// A session message carries its phase in front and its body behind the 4-byte prefix.
pub proof fn law_session_message_parts(phase: u8, body: Seq<u8>)
    requires
        phase < 16,
    ensures
        phase_of(session_message(phase, body)) == phase,
        session_message(phase, body).skip(4) == body,
        session_message(phase, body).len() == 4 + body.len(),
{
    bytes::lemma_le_bytes_len(body.len(), 2);
    assert(session_message(phase, body).skip(4) =~= body);
}

// ============================================================================
// Session data
// ============================================================================

/// The header of encrypted session data: `[0][flags:1][payload_len:2 LE][counter:8 LE]`
pub open spec fn fsp_header(flags: u8, payload_len: nat, counter: nat) -> Seq<u8> {
    seq![FSP_PHASE_ESTABLISHED, flags] + bytes::le_bytes(payload_len, 2) + bytes::le_bytes(
        counter,
        8,
    )
}

/// The header inside the encryption: `[timestamp:4 LE][msg_type:1][inner_flags:1]`
pub open spec fn fsp_inner(timestamp: nat, msg_type: u8, inner_flags: u8) -> Seq<u8> {
    bytes::le_bytes(timestamp, 4) + seq![msg_type, inner_flags]
}

/// Build FSP established header (12 bytes, used as AEAD associated data).
pub fn build_fsp_header(flags: u8, payload_len: u16, counter: u64) -> (r: [u8; 12])
    ensures
        r@ == fsp_header(flags, payload_len as nat, counter as nat),
{
    broadcast use bytes::lemma_le_bytes_len;

    let mut hdr: Vec<u8> = Vec::with_capacity(FSP_HEADER_SIZE);
    hdr.push(FSP_PHASE_ESTABLISHED);
    hdr.push(flags);
    assert(hdr@ =~= seq![FSP_PHASE_ESTABLISHED, flags]);
    bytes::push_u16_le(&mut hdr, payload_len);
    bytes::push_u64_le(&mut hdr, counter);
    let r = bytes::array12_at(hdr.as_slice(), 0);
    assert(r@ =~= hdr@);
    r
}

/// Build FSP inner header (6 bytes): [timestamp:4 LE][msg_type:1][inner_flags:1].
pub fn build_fsp_inner(timestamp: u32, msg_type: u8, inner_flags: u8) -> (r: [u8; 6])
    ensures
        r@ == fsp_inner(timestamp as nat, msg_type, inner_flags),
{
    let mut t: Vec<u8> = Vec::with_capacity(4);
    bytes::push_u32_le(&mut t, timestamp);
    proof {
        bytes::lemma_le_bytes_len(timestamp as nat, 4);
        assert(t@ =~= bytes::le_bytes(timestamp as nat, 4));
    }
    let r: [u8; 6] = [t[0], t[1], t[2], t[3], msg_type, inner_flags];
    assert(r@ =~= fsp_inner(timestamp as nat, msg_type, inner_flags));
    r
}

/// Whether there is enough for an FSP header and a tag.
pub open spec fn has_fsp_header(data: Seq<u8>) -> bool {
    data.len() >= FSP_HEADER_SIZE + AEAD_TAG_SIZE
}

/// The counter in an FSP header.
pub open spec fn fsp_counter_of(data: Seq<u8>) -> nat {
    bytes::le_value(data.subrange(4, 12))
}

/// Parse FSP encrypted header (12 bytes).
///
/// Returns (flags, payload_len, counter, header_bytes).
pub fn parse_fsp_header(data: &[u8]) -> (r: Option<(u8, u16, u64, [u8; 12])>)
    ensures
        r is Some <==> has_fsp_header(data@),
        r matches Some(v) ==> v.0 == data@[1] && v.1 == bytes::le_value(data@.subrange(2, 4))
            && v.2 == fsp_counter_of(data@) && v.3@ == data@.take(12),
{
    if data.len() < FSP_HEADER_SIZE + AEAD_TAG_SIZE {
        return None;
    }
    let flags: u8 = data[1];
    let payload_len: u16 = bytes::u16_le_at(data, 2);
    let counter: u64 = bytes::u64_le_at(data, 4);
    let hdr = bytes::array12_at(data, 0);
    assert(hdr@ =~= data@.take(12));
    Some((flags, payload_len, counter, hdr))
}

/// The header of an encrypted frame is read back as it was written.
pub proof fn law_established_header_round_trip(
    flags: u8,
    payload_len: u16,
    receiver_idx: u32,
    counter: u64,
    ciphertext: Seq<u8>,
)
    requires
        ciphertext.len() >= AEAD_TAG_SIZE,
    ensures
        ({
            let header = established_header(
                flags,
                payload_len as nat,
                receiver_idx as nat,
                counter as nat,
            );
            let frame = header + ciphertext;
            &&& is_encrypted(frame)
            &&& counter_of(frame) == counter
            &&& frame.take(16) == header
            &&& frame.skip(16) == ciphertext
        }),
{
    bytes::lemma_le_integers(payload_len, receiver_idx, counter);
    let header = established_header(
        flags,
        payload_len as nat,
        receiver_idx as nat,
        counter as nat,
    );
    let frame = header + ciphertext;
    assert(frame.subrange(8, 16) =~= bytes::le_bytes(counter as nat, 8));
    assert(frame.take(16) =~= header);
    assert(frame.skip(16) =~= ciphertext);
}

/// The header of session data is read back as it was written.
pub proof fn law_fsp_header_round_trip(
    flags: u8,
    payload_len: u16,
    counter: u64,
    ciphertext: Seq<u8>,
)
    requires
        ciphertext.len() >= AEAD_TAG_SIZE,
    ensures
        ({
            let header = fsp_header(flags, payload_len as nat, counter as nat);
            let data = header + ciphertext;
            &&& has_fsp_header(data)
            &&& phase_of(data) == FSP_PHASE_ESTABLISHED
            &&& data[1] == flags
            &&& bytes::le_value(data.subrange(2, 4)) == payload_len
            &&& fsp_counter_of(data) == counter
            &&& data.take(12) == header
            &&& data.skip(12) == ciphertext
        }),
{
    bytes::lemma_le_integers(payload_len, 0, counter);
    let header = fsp_header(flags, payload_len as nat, counter as nat);
    let data = header + ciphertext;
    assert(data.subrange(2, 4) =~= bytes::le_bytes(payload_len as nat, 2));
    assert(data.subrange(4, 12) =~= bytes::le_bytes(counter as nat, 8));
    assert(data.take(12) =~= header);
    assert(data.skip(12) =~= ciphertext);
}

// ============================================================================
// Where everything stands
// ============================================================================

/// The first byte holds the version in its upper half and the phase in its lower half.
pub proof fn law_first_byte(data: Seq<u8>)
    ensures
        version_of(data) < 16,
        phase_of(data) < 16,
        data[0] == 16 * version_of(data) + phase_of(data),
{
}

/// A timestamp is what is left of a time when whole multiples of `2^32` milliseconds are taken off.
pub proof fn law_timestamp_wraps(time_ms: nat)
    ensures
        timestamp(time_ms) < 0x1_0000_0000,
        time_ms < 0x1_0000_0000 ==> timestamp(time_ms) == time_ms,
        timestamp(time_ms + 0x1_0000_0000) == timestamp(time_ms),
        timestamp(time_ms + 1) == if timestamp(time_ms) == 0xffff_ffff {
            0
        } else {
            timestamp(time_ms) + 1
        },
{
}

/// Where everything stands in a msg1.
pub proof fn law_msg1_layout(sender_idx: u32, noise_msg1: Seq<u8>)
    requires
        noise_msg1.len() == 106,
    ensures
        ({
            let p = msg1_packet(sender_idx as nat, noise_msg1);
            &&& p.len() == 114
            &&& p[0] == 1
            &&& p[1] == 0
            &&& p[2] == 110
            &&& p[3] == 0
            &&& p[4] + 0x100 * p[5] + 0x1_0000 * p[6] + 0x100_0000 * p[7] == sender_idx
            &&& p.subrange(8, 114) == noise_msg1
        }),
{
    bytes::lemma_le_integers(110, sender_idx, 0);
    let p = msg1_packet(sender_idx as nat, noise_msg1);
    let (n, x) = (bytes::le_bytes(110, 2), bytes::le_bytes(sender_idx as nat, 4));
    bytes::law_le_value_weighs_bytes(n);
    bytes::law_le_value_weighs_bytes(x);
    reveal_with_fuel(bytes::le_bytes, 3);
    assert(p[2] == n[0] && p[3] == n[1]);
    assert(p[4] == x[0] && p[5] == x[1] && p[6] == x[2] && p[7] == x[3]);
    assert(p.subrange(8, 114) =~= noise_msg1);
}

/// A packet is taken for a msg2 if and only if it has 69 bytes or more and phase 2; its sender
/// index and its Noise message then stand at fixed places.
pub proof fn law_msg2_is_read_in_place(data: Seq<u8>)
    requires
        data.len() >= 1,
    ensures
        is_msg2(data) <==> data.len() >= 69 && data[0] % 16 == 2,
        data.len() >= 69 ==> sender_idx_of(data) == data[4] + 0x100 * data[5] + 0x1_0000 * data[6]
            + 0x100_0000 * data[7],
        data.len() >= 69 ==> msg2_noise_of(data) == data.subrange(12, 69),
{
    if data.len() >= 69 {
        bytes::law_le_value_weighs_bytes(data.subrange(4, 8));
    }
}

/// A packet is taken for an encrypted frame if and only if it has 32 bytes or more and starts with
/// a zero; its counter then stands in bytes 8 to 15, lowest byte first.
pub proof fn law_frame_is_read_in_place(data: Seq<u8>)
    requires
        data.len() >= 1,
    ensures
        is_encrypted(data) <==> data.len() >= 32 && data[0] == 0,
        data.len() >= 32 ==> counter_of(data) == data[8] + 0x100 * data[9] + 0x1_0000 * data[10]
            + 0x100_0000 * data[11] + 0x1_0000_0000 * data[12] + 0x100_0000_0000 * data[13]
            + 0x1_0000_0000_0000 * data[14] + 0x100_0000_0000_0000 * data[15],
{
    if data.len() >= 32 {
        bytes::law_le_value_weighs_bytes(data.subrange(8, 16));
    }
}

/// Where everything stands in the header of an encrypted frame.
pub proof fn law_established_header_layout(
    flags: u8,
    payload_len: u16,
    receiver_idx: u32,
    counter: u64,
)
    ensures
        ({
            let h = established_header(
                flags,
                payload_len as nat,
                receiver_idx as nat,
                counter as nat,
            );
            &&& h.len() == 16
            &&& h[0] == 0
            &&& h[1] == flags
            &&& h[2] + 0x100 * h[3] == payload_len
            &&& h[4] + 0x100 * h[5] + 0x1_0000 * h[6] + 0x100_0000 * h[7] == receiver_idx
            &&& h[8] + 0x100 * h[9] + 0x1_0000 * h[10] + 0x100_0000 * h[11] + 0x1_0000_0000 * h[12]
                + 0x100_0000_0000 * h[13] + 0x1_0000_0000_0000 * h[14] + 0x100_0000_0000_0000
                * h[15] == counter
        }),
{
    bytes::lemma_le_integers(payload_len, receiver_idx, counter);
    let h = established_header(flags, payload_len as nat, receiver_idx as nat, counter as nat);
    let n = bytes::le_bytes(payload_len as nat, 2);
    let x = bytes::le_bytes(receiver_idx as nat, 4);
    let c = bytes::le_bytes(counter as nat, 8);
    bytes::law_le_value_weighs_bytes(n);
    bytes::law_le_value_weighs_bytes(x);
    bytes::law_le_value_weighs_bytes(c);
    assert(h.subrange(2, 4) =~= n);
    assert(h.subrange(4, 8) =~= x);
    assert(h.subrange(8, 16) =~= c);
    assert(forall|i: int| 0 <= i < 2 ==> #[trigger] n[i] == h[2 + i]);
    assert(forall|i: int| 0 <= i < 4 ==> #[trigger] x[i] == h[4 + i]);
    assert(forall|i: int| 0 <= i < 8 ==> #[trigger] c[i] == h[8 + i]);
}

/// Where everything stands in a SessionDatagram.
pub proof fn law_datagram_layout(d: DatagramModel)
    requires
        d.path_mtu < 0x1_0000,
        d.src_addr.len() == 16,
        d.dest_addr.len() == 16,
    ensures
        ({
            let b = datagram_bytes(d);
            &&& b.len() == 35 + d.payload.len()
            &&& b[0] == d.ttl
            &&& b[1] + 0x100 * b[2] == d.path_mtu
            &&& b.subrange(3, 19) == d.src_addr
            &&& b.subrange(19, 35) == d.dest_addr
            &&& b.skip(35) == d.payload
        }),
{
    bytes::lemma_le_integers(d.path_mtu as u16, 0, 0);
    let b = datagram_bytes(d);
    let n = bytes::le_bytes(d.path_mtu, 2);
    bytes::law_le_value_weighs_bytes(n);
    assert(b[1] == n[0] && b[2] == n[1]);
    assert(b.subrange(3, 19) =~= d.src_addr);
    assert(b.subrange(19, 35) =~= d.dest_addr);
    assert(b.skip(35) =~= d.payload);
}

/// What is read of a SessionDatagram: anything of 35 bytes is one, with all fields at their places.
pub proof fn law_datagram_is_read_in_place(data: Seq<u8>)
    ensures
        parsed_datagram(data) is Some <==> data.len() >= 35,
        parsed_datagram(data) matches Some(d) ==> {
            &&& d.ttl == data[0]
            &&& d.path_mtu == data[1] + 0x100 * data[2]
            &&& d.src_addr == data.subrange(3, 19)
            &&& d.dest_addr == data.subrange(19, 35)
            &&& d.payload == data.skip(35)
        },
{
    if data.len() >= 35 {
        bytes::law_le_value_weighs_bytes(data.subrange(1, 3));
    }
}

/// A list of addresses is its length in two bytes, lowest first, and the addresses in order.
pub proof fn law_coords_layout(coords: Seq<Seq<u8>>)
    requires
        coords.len() < 0x1_0000,
        forall|i: int| 0 <= i < coords.len() ==> (#[trigger] coords[i]).len() == 16,
    ensures
        ({
            let b = coords_bytes(coords);
            &&& b.len() == 2 + 16 * coords.len()
            &&& b[0] + 0x100 * b[1] == coords.len()
            &&& forall|i: int|
                0 <= i < coords.len() ==> b.subrange(2 + 16 * i, 18 + 16 * i)
                    == #[trigger] coords[i]
        }),
{
    bytes::lemma_le_integers(coords.len() as u16, 0, 0);
    let b = coords_bytes(coords);
    let n = bytes::le_bytes(coords.len(), 2);
    bytes::law_le_value_weighs_bytes(n);
    lemma_joined_len(coords);
    assert(b[0] == n[0] && b[1] == n[1]);
    assert forall|i: int| 0 <= i < coords.len() implies b.subrange(2 + 16 * i, 18 + 16 * i)
        == #[trigger] coords[i] by {
        lemma_joined_at(coords, i);
        assert(b.subrange(2 + 16 * i, 18 + 16 * i) =~= joined(coords).subrange(
            16 * i,
            16 * i + 16,
        ));
    }
}

/// What is read as a list of addresses at a position: as many as the two bytes there count, if
/// there are as many, and then the position behind them.
pub proof fn law_coords_are_read_in_place(data: Seq<u8>, pos: int)
    requires
        0 <= pos,
    ensures
        ({
            let r = parsed_coords(data, pos);
            let count = data[pos] + 0x100 * data[pos + 1];
            &&& r is Some <==> pos + 2 <= data.len() && pos + 2 + 16 * count <= data.len()
            &&& r matches Some((list, end)) ==> {
                &&& list.len() == count
                &&& end == pos + 2 + 16 * count
                &&& forall|i: int|
                    0 <= i < count ==> #[trigger] list[i] == data.subrange(
                        pos + 2 + 16 * i,
                        pos + 18 + 16 * i,
                    )
            }
        }),
{
    if pos + 2 <= data.len() {
        bytes::law_le_value_weighs_bytes(data.subrange(pos, pos + 2));
    }
}

/// A field at a position is as long as the two bytes there say, lowest first.
pub proof fn law_field_is_read_in_place(data: Seq<u8>, pos: int)
    requires
        0 <= pos,
    ensures
        ({
            let r = parsed_field(data, pos);
            let n = data[pos] + 0x100 * data[pos + 1];
            &&& r is Some <==> pos + 2 <= data.len() && pos + 2 + n <= data.len()
            &&& r matches Some(field) ==> field == data.subrange(pos + 2, pos + 2 + n)
        }),
{
    if pos + 2 <= data.len() {
        bytes::law_le_value_weighs_bytes(data.subrange(pos, pos + 2));
    }
}

/// What is read of the body of a SessionSetup or SessionAck: behind one byte of flags the source
/// coordinates, behind them the destination coordinates, behind them the handshake payload. The
/// body of a SessionMsg3 has only the flags and the handshake payload.
pub proof fn law_handshake_bodies_are_read_in_order(data: Seq<u8>)
    ensures
        ({
            let src = parsed_coords(data, 1);
            let dest = parsed_coords(data, (src->0).1);
            let field = parsed_field(data, (dest->0).1);
            &&& parsed_setup(data) is Some <==> data.len() >= 1 && src is Some && dest is Some
                && field is Some
            &&& parsed_setup(data) matches Some(v) ==> v.0 == (src->0).0 && v.1 == (dest->0).0
                && v.2 == field->0
            &&& parsed_msg3(data) == parsed_field(data, 1)
        }),
{
}

/// Where everything stands in a session handshake message: phase, a zero and the length of what
/// follows in front; then a zero byte of flags; then, in a SessionSetup and a SessionAck, both
/// coordinate lists; then the length of the handshake payload, and the payload.
pub proof fn law_handshake_message_layout(
    phase: u8,
    src: Seq<Seq<u8>>,
    dest: Seq<Seq<u8>>,
    handshake: Seq<u8>,
)
    requires
        handshake.len() < 0x1_0000,
    ensures
        ({
            let m = session_message(phase, setup_body(src, dest, handshake));
            let (a, b) = (coords_bytes(src), coords_bytes(dest));
            let n = m.len() - 4;
            let p = 5 + a.len() as int;
            let q = p + b.len();
            &&& n == 1 + a.len() + b.len() + 2 + handshake.len()
            &&& m[0] == phase
            &&& m[1] == 0
            &&& n < 0x1_0000 ==> m[2] + 0x100 * m[3] == n
            &&& m[4] == 0
            &&& m.subrange(5, p) == a
            &&& m.subrange(p, q) == b
            &&& m[q] + 0x100 * m[q + 1] == handshake.len()
            &&& m.skip(q + 2) == handshake
        }),
        ({
            let m = session_message(phase, msg3_body(handshake));
            let n = m.len() - 4;
            &&& n == 3 + handshake.len()
            &&& m[0] == phase
            &&& m[1] == 0
            &&& n < 0x1_0000 ==> m[2] + 0x100 * m[3] == n
            &&& m[4] == 0
            &&& m[5] + 0x100 * m[6] == handshake.len()
            &&& m.skip(7) == handshake
        }),
{
    broadcast use bytes::lemma_le_bytes_len;

    let h = bytes::le_bytes(handshake.len(), 2);
    bytes::lemma_le_integers(handshake.len() as u16, 0, 0);
    bytes::law_le_value_weighs_bytes(h);
    let m = session_message(phase, setup_body(src, dest, handshake));
    let (a, b) = (coords_bytes(src), coords_bytes(dest));
    let n = setup_body(src, dest, handshake).len();
    let p = 5 + a.len() as int;
    let q = p + b.len();
    assert(m.subrange(2, 4) =~= bytes::le_bytes(n, 2));
    lemma_prefix_length(m, n);
    assert(m.subrange(5, p) =~= a);
    assert(m.subrange(p, q) =~= b);
    assert(m[q] == h[0] && m[q + 1] == h[1]);
    assert(m.skip(q + 2) =~= handshake);
    let m3 = session_message(phase, msg3_body(handshake));
    assert(m3.subrange(2, 4) =~= bytes::le_bytes(msg3_body(handshake).len(), 2));
    lemma_prefix_length(m3, msg3_body(handshake).len());
    assert(m3[5] == h[0] && m3[6] == h[1]);
    assert(m3.skip(7) =~= handshake);
}

proof fn lemma_prefix_length(m: Seq<u8>, n: nat)
    requires
        m.len() >= 4,
        m.subrange(2, 4) == bytes::le_bytes(n, 2),
    ensures
        n < 0x1_0000 ==> m[2] + 0x100 * m[3] == n,
{
    if n < 0x1_0000 {
        bytes::lemma_le_integers(n as u16, 0, 0);
        bytes::law_le_value_weighs_bytes(m.subrange(2, 4));
    }
}

/// Where everything stands in the two headers of session data, and when there is room for the
/// outer one.
pub proof fn law_fsp_headers_layout(
    flags: u8,
    payload_len: u16,
    counter: u64,
    timestamp: u32,
    msg_type: u8,
    inner_flags: u8,
)
    ensures
        ({
            let h = fsp_header(flags, payload_len as nat, counter as nat);
            &&& h.len() == 12
            &&& h[0] == 0
            &&& h[1] == flags
            &&& h[2] + 0x100 * h[3] == payload_len
            &&& h[4] + 0x100 * h[5] + 0x1_0000 * h[6] + 0x100_0000 * h[7] + 0x1_0000_0000 * h[8]
                + 0x100_0000_0000 * h[9] + 0x1_0000_0000_0000 * h[10] + 0x100_0000_0000_0000
                * h[11] == counter
        }),
        ({
            let i = fsp_inner(timestamp as nat, msg_type, inner_flags);
            &&& i.len() == 6
            &&& i[0] + 0x100 * i[1] + 0x1_0000 * i[2] + 0x100_0000 * i[3] == timestamp
            &&& i[4] == msg_type
            &&& i[5] == inner_flags
        }),
{
    bytes::lemma_le_integers(payload_len, timestamp, counter);
    let h = fsp_header(flags, payload_len as nat, counter as nat);
    let n = bytes::le_bytes(payload_len as nat, 2);
    let c = bytes::le_bytes(counter as nat, 8);
    let t = bytes::le_bytes(timestamp as nat, 4);
    bytes::law_le_value_weighs_bytes(n);
    bytes::law_le_value_weighs_bytes(c);
    bytes::law_le_value_weighs_bytes(t);
    assert(forall|i: int| 0 <= i < 2 ==> #[trigger] n[i] == h[2 + i]);
    assert(forall|i: int| 0 <= i < 8 ==> #[trigger] c[i] == h[4 + i]);
    let i = fsp_inner(timestamp as nat, msg_type, inner_flags);
    assert(i[0] == t[0] && i[1] == t[1] && i[2] == t[2] && i[3] == t[3]);
}

/// Session data needs 12 bytes of header and 16 of tag; its counter stands in bytes 4 to 11.
pub proof fn law_session_data_is_read_in_place(data: Seq<u8>)
    ensures
        has_fsp_header(data) <==> data.len() >= 28,
        data.len() >= 28 ==> fsp_counter_of(data) == data[4] + 0x100 * data[5] + 0x1_0000 * data[6]
            + 0x100_0000 * data[7] + 0x1_0000_0000 * data[8] + 0x100_0000_0000 * data[9]
            + 0x1_0000_0000_0000 * data[10] + 0x100_0000_0000_0000 * data[11],
{
    if data.len() >= 28 {
        bytes::law_le_value_weighs_bytes(data.subrange(4, 12));
    }
}

} // verus!

//! FMP link framing, read and written in full.
//!
//! Where [`crate::wire`] reads only what a browser node acts on, this module reads every field of
//! the link-layer packets and refuses packets of another protocol version.

use crate::bytes;
use crate::noise::{HANDSHAKE_MSG1_SIZE, HANDSHAKE_MSG2_SIZE};
use crate::wire;
use vstd::prelude::*;
use vstd::slice::slice_subrange;

verus! {

/// FMP protocol version.
pub const FMP_VERSION: u8 = 0;

pub const PHASE_ESTABLISHED: u8 = 0x0;

pub const PHASE_MSG1: u8 = 0x1;

pub const PHASE_MSG2: u8 = 0x2;

/// Common prefix size (all packets).
pub const COMMON_PREFIX_SIZE: usize = 4;

/// Established frame header: prefix(4) + receiver_idx(4) + counter(8) = 16.
pub const ESTABLISHED_HEADER_SIZE: usize = 16;

/// Msg1 wire: prefix(4) + sender_idx(4) + noise_msg1(106) = 114.
pub const MSG1_WIRE_SIZE: usize = COMMON_PREFIX_SIZE + 4 + HANDSHAKE_MSG1_SIZE;

/// Msg2 wire: prefix(4) + sender_idx(4) + receiver_idx(4) + noise_msg2(57) = 69.
pub const MSG2_WIRE_SIZE: usize = COMMON_PREFIX_SIZE + 4 + 4 + HANDSHAKE_MSG2_SIZE;

/// Minimum encrypted frame: header(16) + tag(16) = 32.
pub const ENCRYPTED_MIN_SIZE: usize = ESTABLISHED_HEADER_SIZE + 16;

/// Inner header size (timestamp + message type).
pub const INNER_HEADER_SIZE: usize = 5;

/// Flag bit for the key epoch (byte 1 of the common prefix, established frames only).
pub const FLAG_KEY_EPOCH: u8 = 0x01;

// ============================================================================
// Parsing
// ============================================================================

/// The payload length in the common prefix.
pub open spec fn payload_len_of(data: Seq<u8>) -> nat {
    bytes::le_value(data.subrange(2, 4))
}

/// The receiver index in an encrypted frame.
pub open spec fn frame_receiver_of(data: Seq<u8>) -> nat {
    bytes::le_value(data.subrange(4, 8))
}

/// Whether a packet is a msg1 of our version.
pub open spec fn is_msg1(data: Seq<u8>) -> bool {
    data.len() >= MSG1_WIRE_SIZE && wire::version_of(data) == FMP_VERSION && wire::phase_of(data)
        == PHASE_MSG1
}

/// Whether a packet is a msg2 of our version.
pub open spec fn is_msg2(data: Seq<u8>) -> bool {
    data.len() >= MSG2_WIRE_SIZE && wire::version_of(data) == FMP_VERSION && wire::phase_of(data)
        == PHASE_MSG2
}

/// Parsed common prefix.
pub struct CommonPrefix {
    pub version: u8,
    pub phase: u8,
    pub flags: u8,
    pub payload_len: u16,
}

impl CommonPrefix {
    /// Parse the prefix that all packets share.
    pub fn parse(data: &[u8]) -> (r: Option<Self>)
        ensures
            r is Some <==> data@.len() >= COMMON_PREFIX_SIZE,
            r matches Some(p) ==> {
                &&& p.version == wire::version_of(data@)
                &&& p.phase == wire::phase_of(data@)
                &&& p.flags == data@[1]
                &&& p.payload_len == payload_len_of(data@)
            },
    {
        if data.len() < COMMON_PREFIX_SIZE {
            return None;
        }
        Some(
            Self {
                version: data[0] / 16,
                phase: data[0] % 16,
                flags: data[1],
                payload_len: bytes::u16_le_at(data, 2),
            },
        )
    }
}

/// Parsed msg1 header.
pub struct Msg1Header {
    pub sender_idx: u32,
    pub noise_payload: Vec<u8>,
}

impl Msg1Header {
    /// Parse a msg1.
    pub fn parse(data: &[u8]) -> (r: Option<Self>)
        ensures
            r is Some <==> is_msg1(data@),
            r matches Some(h) ==> {
                &&& h.sender_idx == wire::sender_idx_of(data@)
                &&& h.noise_payload@ == data@.subrange(8, 114)
            },
    {
        if data.len() < MSG1_WIRE_SIZE {
            return None;
        }
        let prefix = CommonPrefix::parse(data)?;
        if prefix.version != FMP_VERSION || prefix.phase != PHASE_MSG1 {
            return None;
        }
        let sender_idx: u32 = bytes::u32_le_at(data, 4);
        let noise_payload = bytes::to_vec(slice_subrange(data, 8, MSG1_WIRE_SIZE));
        Some(Self { sender_idx, noise_payload })
    }
}

/// Parsed msg2 header.
pub struct Msg2Header {
    pub sender_idx: u32,
    pub receiver_idx: u32,
    pub noise_payload: Vec<u8>,
}

impl Msg2Header {
    /// Parse a msg2.
    pub fn parse(data: &[u8]) -> (r: Option<Self>)
        ensures
            r is Some <==> is_msg2(data@),
            r matches Some(h) ==> {
                &&& h.sender_idx == wire::sender_idx_of(data@)
                &&& h.receiver_idx == bytes::le_value(data@.subrange(8, 12))
                &&& h.noise_payload@ == wire::msg2_noise_of(data@)
            },
    {
        if data.len() < MSG2_WIRE_SIZE {
            return None;
        }
        let prefix = CommonPrefix::parse(data)?;
        if prefix.version != FMP_VERSION || prefix.phase != PHASE_MSG2 {
            return None;
        }
        let sender_idx: u32 = bytes::u32_le_at(data, 4);
        let receiver_idx: u32 = bytes::u32_le_at(data, 8);
        let noise_payload = bytes::to_vec(slice_subrange(data, 12, MSG2_WIRE_SIZE));
        Some(Self { sender_idx, receiver_idx, noise_payload })
    }
}

/// Parsed encrypted frame header.
pub struct EncryptedHeader {
    pub flags: u8,
    pub payload_len: u16,
    pub receiver_idx: u32,
    pub counter: u64,
    pub header_bytes: [u8; 16],
}

impl EncryptedHeader {
    /// Parse the header of an encrypted frame.
    pub fn parse(data: &[u8]) -> (r: Option<Self>)
        ensures
            r is Some <==> wire::is_encrypted(data@),
            r matches Some(h) ==> {
                &&& h.flags == data@[1]
                &&& h.payload_len == payload_len_of(data@)
                &&& h.receiver_idx == frame_receiver_of(data@)
                &&& h.counter == wire::counter_of(data@)
                &&& h.header_bytes@ == data@.take(16)
            },
    {
        if data.len() < ENCRYPTED_MIN_SIZE {
            return None;
        }
        if data[0] / 16 != FMP_VERSION || data[0] % 16 != PHASE_ESTABLISHED {
            return None;
        }
        let payload_len: u16 = bytes::u16_le_at(data, 2);
        let receiver_idx: u32 = bytes::u32_le_at(data, 4);
        let counter: u64 = bytes::u64_le_at(data, 8);
        let header_bytes = bytes::array16_at(data, 0);
        assert(header_bytes@ =~= data@.take(16));
        Some(Self { flags: data[1], payload_len, receiver_idx, counter, header_bytes })
    }

    /// What stands behind the header.
    pub fn ciphertext<'a>(&self, data: &'a [u8]) -> (r: &'a [u8])
        requires
            data@.len() >= ESTABLISHED_HEADER_SIZE,
        ensures
            r@ == data@.skip(16),
    {
        let r = slice_subrange(data, ESTABLISHED_HEADER_SIZE, data.len());
        assert(r@ =~= data@.skip(16));
        r
    }
}

// ============================================================================
// Building
// ============================================================================

/// The first byte of a packet: the low four bits of the version above those of the phase.
pub fn ver_phase_byte(version: u8, phase: u8) -> (r: u8)
    ensures
        r == (version % 16) * 16 + phase % 16,
{
    (version % 16) * 16 + phase % 16
}

/// Build a msg1 wire packet.
///
/// Wire format: `[prefix:4][sender_idx:4 LE][noise_msg1:106]` = 114 bytes.
pub fn build_msg1(sender_idx: u32, noise_msg1: &[u8]) -> (r: Vec<u8>)
    requires
        noise_msg1@.len() == HANDSHAKE_MSG1_SIZE,
    ensures
        r@ == wire::msg1_packet(sender_idx as nat, noise_msg1@),
        r@.len() == MSG1_WIRE_SIZE,
{
    broadcast use bytes::lemma_le_bytes_len;

    let mut pkt: Vec<u8> = Vec::with_capacity(MSG1_WIRE_SIZE);
    pkt.push(ver_phase_byte(FMP_VERSION, PHASE_MSG1));
    pkt.push(0x00);
    assert(pkt@ =~= seq![PHASE_MSG1, 0u8]);
    bytes::push_len_le(&mut pkt, 4 + noise_msg1.len());
    bytes::push_u32_le(&mut pkt, sender_idx);
    bytes::append(&mut pkt, noise_msg1);
    pkt
}

/// How many bytes of a ciphertext are left without its 16-byte tag.
pub open spec fn untagged_len(ciphertext: Seq<u8>) -> nat {
    if ciphertext.len() >= 16 {
        (ciphertext.len() - 16) as nat
    } else {
        0
    }
}

/// An encrypted frame: `[header:16][ciphertext+tag]`. The header counts the bytes without the tag.
pub open spec fn encrypted_frame(
    flags: u8,
    receiver_idx: nat,
    counter: nat,
    ciphertext: Seq<u8>,
) -> Seq<u8> {
    wire::established_header(flags, untagged_len(ciphertext), receiver_idx, counter) + ciphertext
}

/// Build an encrypted frame wire packet.
///
/// The 16-byte header is used as AEAD associated data.
pub fn build_encrypted_frame(
    flags: u8,
    receiver_idx: u32,
    counter: u64,
    ciphertext: &[u8],
) -> (r: Vec<u8>)
    ensures
        r@ == encrypted_frame(flags, receiver_idx as nat, counter as nat, ciphertext@),
{
    let payload_len: usize = if ciphertext.len() >= 16 {
        ciphertext.len() - 16
    } else {
        0
    };
    let mut pkt: Vec<u8> = Vec::new();
    pkt.push(ver_phase_byte(FMP_VERSION, PHASE_ESTABLISHED));
    pkt.push(flags);
    assert(pkt@ =~= seq![PHASE_ESTABLISHED, flags]);
    bytes::push_len_le(&mut pkt, payload_len);
    bytes::push_u32_le(&mut pkt, receiver_idx);
    bytes::push_u64_le(&mut pkt, counter);
    bytes::append(&mut pkt, ciphertext);
    pkt
}

/// What an encrypted frame encloses: `[timestamp:4 LE][msg_type:1][payload...]`.
pub open spec fn inner_message(timestamp: nat, msg_type: u8, payload: Seq<u8>) -> Seq<u8> {
    bytes::le_bytes(timestamp, 4) + seq![msg_type] + payload
}

/// Build inner header (prepended to plaintext before AEAD encryption).
pub fn build_inner(timestamp: u32, msg_type: u8, payload: &[u8]) -> (r: Vec<u8>)
    ensures
        r@ == inner_message(timestamp as nat, msg_type, payload@),
{
    let mut inner: Vec<u8> = Vec::new();
    bytes::push_u32_le(&mut inner, timestamp);
    assert(inner@ =~= bytes::le_bytes(timestamp as nat, 4));
    inner.push(msg_type);
    assert(inner@ =~= bytes::le_bytes(timestamp as nat, 4) + seq![msg_type]);
    bytes::append(&mut inner, payload);
    inner
}

/// Parse inner header from decrypted plaintext.
///
/// Returns (timestamp, msg_type, payload).
pub fn parse_inner(data: &[u8]) -> (r: Option<(u32, u8, &[u8])>)
    ensures
        r is Some <==> data@.len() >= INNER_HEADER_SIZE,
        r matches Some(v) ==> v.0 == bytes::le_value(data@.take(4)) && v.1 == data@[4] && v.2@
            == data@.skip(5),
{
    wire::parse_inner(data)
}

// ============================================================================
// Laws
// ============================================================================

/// A msg1 is read back as it was written.
pub proof fn law_msg1_round_trip(sender_idx: u32, noise_msg1: Seq<u8>)
    requires
        noise_msg1.len() == HANDSHAKE_MSG1_SIZE,
    ensures
        ({
            let pkt = wire::msg1_packet(sender_idx as nat, noise_msg1);
            &&& is_msg1(pkt)
            &&& wire::sender_idx_of(pkt) == sender_idx
            &&& pkt.subrange(8, 114) == noise_msg1
            &&& payload_len_of(pkt) == pkt.len() - COMMON_PREFIX_SIZE
        }),
{
    broadcast use bytes::lemma_le_bytes_len;

    let pkt = wire::msg1_packet(sender_idx as nat, noise_msg1);
    bytes::lemma_le_integers(110, sender_idx, 0);
    assert(pkt.subrange(2, 4) =~= bytes::le_bytes(110, 2));
    assert(pkt.subrange(4, 8) =~= bytes::le_bytes(sender_idx as nat, 4));
    assert(pkt.subrange(8, 114) =~= noise_msg1);
}

/// An encrypted frame is read back as it was written.
pub proof fn law_encrypted_frame_round_trip(
    flags: u8,
    receiver_idx: u32,
    counter: u64,
    ciphertext: Seq<u8>,
)
    requires
        16 <= ciphertext.len() < 0x1_0010,
    ensures
        ({
            let frame = encrypted_frame(flags, receiver_idx as nat, counter as nat, ciphertext);
            &&& wire::is_encrypted(frame)
            &&& frame[1] == flags
            &&& payload_len_of(frame) == ciphertext.len() - 16
            &&& frame_receiver_of(frame) == receiver_idx
            &&& wire::counter_of(frame) == counter
            &&& frame.skip(16) == ciphertext
        }),
{
    let len = (ciphertext.len() - 16) as u16;
    bytes::lemma_le_integers(len, receiver_idx, counter);
    wire::law_established_header_round_trip(flags, len, receiver_idx, counter, ciphertext);
    let frame = encrypted_frame(flags, receiver_idx as nat, counter as nat, ciphertext);
    assert(frame.subrange(2, 4) =~= bytes::le_bytes(len as nat, 2));
    assert(frame.subrange(4, 8) =~= bytes::le_bytes(receiver_idx as nat, 4));
}

/// An inner message is read back as it was written.
pub proof fn law_inner_round_trip(timestamp: u32, msg_type: u8, payload: Seq<u8>)
    ensures
        ({
            let inner = inner_message(timestamp as nat, msg_type, payload);
            &&& inner.len() >= INNER_HEADER_SIZE
            &&& bytes::le_value(inner.take(4)) == timestamp
            &&& inner[4] == msg_type
            &&& inner.skip(5) == payload
        }),
{
    let inner = inner_message(timestamp as nat, msg_type, payload);
    bytes::lemma_le_integers(0, timestamp, 0);
    assert(inner.take(4) =~= bytes::le_bytes(timestamp as nat, 4));
    assert(inner.skip(5) =~= payload);
}

/// A packet is taken for a msg1 if and only if it has 114 bytes and starts with a one, and for a
/// msg2 if and only if it has 69 bytes and starts with a two. Lengths and indices stand at fixed
/// places, lowest byte first.
pub proof fn law_packets_are_told_apart(data: Seq<u8>)
    requires
        data.len() >= 16,
    ensures
        is_msg1(data) <==> data.len() >= 114 && data[0] == 1,
        is_msg2(data) <==> data.len() >= 69 && data[0] == 2,
        payload_len_of(data) == data[2] + 0x100 * data[3],
        frame_receiver_of(data) == data[4] + 0x100 * data[5] + 0x1_0000 * data[6] + 0x100_0000
            * data[7],
{
    bytes::law_le_value_weighs_bytes(data.subrange(2, 4));
    bytes::law_le_value_weighs_bytes(data.subrange(4, 8));
}

/// Where everything stands in an encrypted frame: its header, in which the length is that of the
/// ciphertext without its tag, and the ciphertext.
pub proof fn law_encrypted_frame_layout(
    flags: u8,
    receiver_idx: u32,
    counter: u64,
    ciphertext: Seq<u8>,
)
    ensures
        ({
            let f = encrypted_frame(flags, receiver_idx as nat, counter as nat, ciphertext);
            let n = if ciphertext.len() >= 16 {
                ciphertext.len() - 16
            } else {
                0
            };
            &&& f.len() == 16 + ciphertext.len()
            &&& f.skip(16) == ciphertext
            &&& n < 0x1_0000 ==> f.take(16) == wire::established_header(
                flags,
                n as nat,
                receiver_idx as nat,
                counter as nat,
            )
            &&& n < 0x1_0000 ==> f[2] + 0x100 * f[3] == n
            &&& f[0] == 0
            &&& f[1] == flags
        }),
{
    broadcast use bytes::lemma_le_bytes_len;

    let f = encrypted_frame(flags, receiver_idx as nat, counter as nat, ciphertext);
    let n = untagged_len(ciphertext);
    assert(f.skip(16) =~= ciphertext);
    if n < 0x1_0000 {
        wire::law_established_header_layout(flags, n as u16, receiver_idx, counter);
        assert(f.take(16) =~= wire::established_header(
            flags,
            n,
            receiver_idx as nat,
            counter as nat,
        ));
        assert(f[2] == f.take(16)[2] && f[3] == f.take(16)[3]);
    }
}

/// Where everything stands in an inner message.
pub proof fn law_inner_layout(timestamp: u32, msg_type: u8, payload: Seq<u8>)
    ensures
        ({
            let i = inner_message(timestamp as nat, msg_type, payload);
            &&& i.len() == 5 + payload.len()
            &&& i[0] + 0x100 * i[1] + 0x1_0000 * i[2] + 0x100_0000 * i[3] == timestamp
            &&& i[4] == msg_type
            &&& i.skip(5) == payload
        }),
{
    bytes::lemma_le_integers(0, timestamp, 0);
    let i = inner_message(timestamp as nat, msg_type, payload);
    let t = bytes::le_bytes(timestamp as nat, 4);
    bytes::law_le_value_weighs_bytes(t);
    assert(i[0] == t[0] && i[1] == t[1] && i[2] == t[2] && i[3] == t[3]);
    assert(i.skip(5) =~= payload);
}

} // verus!

//! IPv6 helpers for browser-side FIPS traffic: addresses derived from node addresses, the IPv6
//! shim (compression of packets inside a session), and ICMPv6 echo.

use crate::bytes;
use crate::text;
use vstd::prelude::*;
use vstd::slice::slice_subrange;

verus! {

/// FIPS IPv6 prefix (`fd00::/8`).
pub const FIPS_ADDRESS_PREFIX: u8 = 0xfd;

/// Compressed format byte for mesh-internal IPv6 shim traffic.
pub const IPV6_SHIM_FORMAT_COMPRESSED: u8 = 0x00;

pub const IPV6_HEADER_SIZE: usize = 40;

pub const IPV6_SHIM_RESIDUAL_SIZE: usize = 6;

pub const IPV6_NEXT_HEADER_ICMPV6: u8 = 58;

pub const ICMPV6_ECHO_REQUEST: u8 = 128;

pub const ICMPV6_ECHO_REPLY: u8 = 129;

pub const DEFAULT_HOP_LIMIT: u8 = 64;

pub const DEFAULT_PING_ID: u16 = 0xF105;

// ============================================================================
// Addresses
// ============================================================================

/// The IPv6 address of a node: the FIPS prefix, then the first 15 bytes of the node address.
pub open spec fn ipv6_of(node_addr: Seq<u8>) -> Seq<u8> {
    seq![FIPS_ADDRESS_PREFIX] + node_addr.take(15)
}

/// Derive the FIPS IPv6 address bytes from a node address.
pub fn ipv6_from_node_addr(node_addr: &[u8; 16]) -> (r: [u8; 16])
    ensures
        r@ == ipv6_of(node_addr@),
{
    let mut r: [u8; 16] = [FIPS_ADDRESS_PREFIX; 16];
    let mut i: usize = 0;
    while i < 15
        invariant
            i <= 15,
            r@[0] == FIPS_ADDRESS_PREFIX,
            forall|j: int| 0 < j <= i ==> r@[j] == node_addr@[j - 1],
        decreases 15 - i,
    {
        r[i + 1] = node_addr[i];
        i = i + 1;
    }
    assert(r@ =~= ipv6_of(node_addr@));
    r
}

/// The eight 16-bit groups of an address.
pub open spec fn groups(addr: Seq<u8>) -> Seq<nat> {
    Seq::new(8, |i: int| bytes::be_value(addr.subrange(2 * i, 2 * i + 2)))
}

/// How many zero groups stand in a row from group `i` on.
pub open spec fn zero_run(g: Seq<nat>, i: int) -> nat
    decreases g.len() - i,
{
    if i < 0 || i >= g.len() || g[i] != 0 {
        0
    } else {
        1 + zero_run(g, i + 1)
    }
}

/// The first of the `n` leading positions from which the longest row of zero groups starts.
pub open spec fn longest_zero_run(g: Seq<nat>, n: nat) -> int
    decreases n,
{
    if n == 0 {
        0
    } else {
        let best = longest_zero_run(g, (n - 1) as nat);
        if zero_run(g, n - 1) > zero_run(g, best) {
            n - 1
        } else {
            best
        }
    }
}

/// Groups in hexadecimal without leading zeros, with colons between them.
pub open spec fn groups_text(g: Seq<nat>) -> Seq<char>
    decreases g.len(),
{
    if g.len() == 0 {
        Seq::empty()
    } else if g.len() == 1 {
        text::hexadecimal(g[0])
    } else {
        groups_text(g.drop_last()) + ":"@ + text::hexadecimal(g.last())
    }
}

/// Whether an address maps an IPv4 address.
pub open spec fn maps_ipv4(addr: Seq<u8>) -> bool {
    addr.take(12) == bytes::zeros(10) + seq![0xffu8, 0xffu8]
}

/// The conventional text of an address: the first longest row of at least two zero groups is
/// left out, and a mapped IPv4 address is written in dotted form.
pub open spec fn ipv6_text(addr: Seq<u8>) -> Seq<char> {
    let g = groups(addr);
    let start = longest_zero_run(g, 8);
    let len = zero_run(g, start);
    if maps_ipv4(addr) {
        "::ffff:"@ + text::decimal(addr[12] as nat) + "."@ + text::decimal(addr[13] as nat) + "."@
            + text::decimal(addr[14] as nat) + "."@ + text::decimal(addr[15] as nat)
    } else if len > 1 {
        groups_text(g.take(start)) + "::"@ + groups_text(g.skip(start + len))
    } else {
        groups_text(g)
    }
}

/// Format IPv6 bytes in conventional colon-separated hex.
pub fn format_ipv6(addr: &[u8; 16]) -> (r: String)
    ensures
        r@ == ipv6_text(addr@),
{
    if is_ipv4_mapped(addr) {
        let mut r = "::ffff:".to_string();
        r.append(text::decimal_text(addr[12] as u64).as_str());
        r.append(".");
        r.append(text::decimal_text(addr[13] as u64).as_str());
        r.append(".");
        r.append(text::decimal_text(addr[14] as u64).as_str());
        r.append(".");
        r.append(text::decimal_text(addr[15] as u64).as_str());
        return r;
    }
    let mut g: Vec<u16> = Vec::with_capacity(8);
    let mut i: usize = 0;
    while i < 8
        invariant
            i <= 8,
            g@.len() == i,
            forall|j: int|
                0 <= j < i ==> #[trigger] g@[j] == bytes::be_value(
                    addr@.subrange(2 * j, 2 * j + 2),
                ),
        decreases 8 - i,
    {
        g.push(bytes::u16_be_at(addr, 2 * i));
        i = i + 1;
    }
    let ghost spec_g = groups(addr@);
    assert(values(g@) =~= spec_g);
    let mut best: usize = 0;
    let mut best_len: usize = run_at(&g, 0);
    let mut n: usize = 0;
    while n < 8
        invariant
            n <= 8,
            g@.len() == 8,
            spec_g == values(g@),
            best == longest_zero_run(spec_g, n as nat),
            best < 8,
            best_len == zero_run(spec_g, best as int),
            best + best_len <= 8,
        decreases 8 - n,
    {
        let len: usize = run_at(&g, n);
        if len > best_len {
            best = n;
            best_len = len;
        }
        n = n + 1;
    }
    if best_len > 1 {
        let head = groups_string(&g, 0, best);
        let tail = groups_string(&g, best + best_len, 8);
        assert(spec_g.take(best as int) =~= spec_g.subrange(0, best as int));
        assert(spec_g.skip(best + best_len) =~= spec_g.subrange(best + best_len, 8));
        text::join3(head.as_str(), "::", tail.as_str())
    } else {
        assert(spec_g =~= spec_g.subrange(0, 8));
        groups_string(&g, 0, 8)
    }
}

/// Machine numbers as numbers.
pub open spec fn values(g: Seq<u16>) -> Seq<nat> {
    g.map_values(|v: u16| v as nat)
}

fn is_ipv4_mapped(addr: &[u8; 16]) -> (r: bool)
    ensures
        r == maps_ipv4(addr@),
{
    let mut i: usize = 0;
    while i < 10
        invariant
            i <= 10,
            forall|j: int| 0 <= j < i ==> addr@[j] == 0,
        decreases 10 - i,
    {
        if addr[i] != 0 {
            assert(addr@.take(12)[i as int] != (bytes::zeros(10) + seq![0xffu8, 0xffu8])[i as int]);
            return false;
        }
        i = i + 1;
    }
    let r = addr[10] == 0xff && addr[11] == 0xff;
    proof {
        let expected = bytes::zeros(10) + seq![0xffu8, 0xffu8];
        if r {
            assert(addr@.take(12) =~= expected);
        } else {
            assert(addr@.take(12)[10] != expected[10] || addr@.take(12)[11] != expected[11]);
        }
    }
    r
}

fn run_at(g: &Vec<u16>, from: usize) -> (r: usize)
    requires
        g@.len() == 8,
        from < 8,
    ensures
        r == zero_run(values(g@), from as int),
        from + r <= 8,
{
    let mut i: usize = from;
    while i < 8 && g[i] == 0
        invariant
            from <= i <= 8,
            g@.len() == 8,
            zero_run(values(g@), from as int) == (i - from) + zero_run(values(g@), i as int),
        decreases 8 - i,
    {
        i = i + 1;
    }
    i - from
}

fn groups_string(g: &Vec<u16>, from: usize, to: usize) -> (r: String)
    requires
        from <= to <= g@.len(),
    ensures
        r@ == groups_text(values(g@).subrange(from as int, to as int)),
{
    let mut r = String::new();
    if from == to {
        return r;
    }
    r = text::hexadecimal_text(g[from] as u64);
    let mut i: usize = from + 1;
    while i < to
        invariant
            from < i <= to <= g@.len(),
            r@ == groups_text(values(g@).subrange(from as int, i as int)),
        decreases to - i,
    {
        let next = text::hexadecimal_text(g[i] as u64);
        r = text::join3(r.as_str(), ":", next.as_str());
        proof {
            let longer = values(g@).subrange(from as int, i + 1);
            assert(longer.drop_last() =~= values(g@).subrange(from as int, i as int));
        }
        i = i + 1;
    }
    r
}

// ============================================================================
// IPv6 shim
// ============================================================================

/// Whether bytes start like an IPv6 packet: a whole header, of version 6.
pub open spec fn is_ipv6(packet: Seq<u8>) -> bool {
    packet.len() >= IPV6_HEADER_SIZE && packet[0] / 16 == 6
}

/// The shim form of a packet: the format byte, the first four header bytes, next header and hop
/// limit, then the payload. Addresses and length are left out.
pub open spec fn compressed(packet: Seq<u8>) -> Seq<u8> {
    seq![IPV6_SHIM_FORMAT_COMPRESSED] + packet.take(4) + packet.subrange(6, 8) + packet.skip(40)
}

/// Whether bytes are a shim payload in the compressed format.
pub open spec fn is_shim(payload: Seq<u8>) -> bool {
    payload.len() >= 1 + IPV6_SHIM_RESIDUAL_SIZE && payload[0] == IPV6_SHIM_FORMAT_COMPRESSED
}

/// The packet that a shim payload stands for, between two addresses.
pub open spec fn decompressed(payload: Seq<u8>, src: Seq<u8>, dst: Seq<u8>) -> Seq<u8> {
    seq![(0x60 + payload[1] % 16) as u8] + payload.subrange(2, 5) + bytes::be_bytes(
        (payload.len() - 7) as nat,
        2,
    ) + payload.subrange(5, 7) + src + dst + payload.skip(7)
}

/// Compress a full IPv6 packet to the shim format.
pub fn compress_ipv6(ipv6_packet: &[u8]) -> (r: Option<Vec<u8>>)
    ensures
        r is Some <==> is_ipv6(ipv6_packet@),
        r matches Some(v) ==> v@ == compressed(ipv6_packet@),
{
    if ipv6_packet.len() < IPV6_HEADER_SIZE || ipv6_packet[0] / 16 != 6 {
        return None;
    }
    let mut out: Vec<u8> = Vec::new();
    out.push(IPV6_SHIM_FORMAT_COMPRESSED);
    assert(out@ =~= seq![IPV6_SHIM_FORMAT_COMPRESSED]);
    bytes::append(&mut out, slice_subrange(ipv6_packet, 0, 4));
    bytes::append(&mut out, slice_subrange(ipv6_packet, 6, 8));
    bytes::append(&mut out, slice_subrange(ipv6_packet, IPV6_HEADER_SIZE, ipv6_packet.len()));
    assert(out@ =~= compressed(ipv6_packet@));
    Some(out)
}

/// Decompress a shim payload back to a full IPv6 packet.
pub fn decompress_ipv6(shim_payload: &[u8], src_ipv6: [u8; 16], dst_ipv6: [u8; 16]) -> (r: Option<
    Vec<u8>,
>)
    ensures
        r is Some <==> is_shim(shim_payload@),
        r matches Some(v) ==> v@ == decompressed(shim_payload@, src_ipv6@, dst_ipv6@),
{
    if shim_payload.len() < 1 + IPV6_SHIM_RESIDUAL_SIZE {
        return None;
    }
    if shim_payload[0] != IPV6_SHIM_FORMAT_COMPRESSED {
        return None;
    }
    let upper_len: usize = shim_payload.len() - 7;
    proof {
        bytes::lemma_be16_low(upper_len as nat);
    }
    let mut ipv6: Vec<u8> = Vec::new();
    ipv6.push(0x60 + shim_payload[1] % 16);
    assert(ipv6@ =~= seq![(0x60 + shim_payload@[1] % 16) as u8]);
    bytes::append(&mut ipv6, slice_subrange(shim_payload, 2, 5));
    bytes::push_u16_be(&mut ipv6, (upper_len % 0x1_0000) as u16);
    bytes::append(&mut ipv6, slice_subrange(shim_payload, 5, 7));
    bytes::append(&mut ipv6, &src_ipv6);
    bytes::append(&mut ipv6, &dst_ipv6);
    bytes::append(&mut ipv6, slice_subrange(shim_payload, 7, shim_payload.len()));
    assert(ipv6@ =~= decompressed(shim_payload@, src_ipv6@, dst_ipv6@));
    Some(ipv6)
}

/// Decompressing a compressed packet between its own addresses gives the packet back, if its
/// length field is right.
pub proof fn law_shim_round_trip(packet: Seq<u8>)
    requires
        is_ipv6(packet),
        packet.subrange(4, 6) == bytes::be_bytes((packet.len() - 40) as nat, 2),
    ensures
        is_shim(compressed(packet)),
        decompressed(compressed(packet), packet.subrange(8, 24), packet.subrange(24, 40))
            == packet,
{
    let c = compressed(packet);
    bytes::lemma_be_bytes_len((packet.len() - 40) as nat, 2);
    assert(c[1] == packet[0]);
    assert(0x60 + packet[0] % 16 == packet[0]);
    assert(c.subrange(2, 5) =~= packet.subrange(1, 4));
    assert(c.subrange(5, 7) =~= packet.subrange(6, 8));
    assert(c.skip(7) =~= packet.skip(40));
    assert(decompressed(c, packet.subrange(8, 24), packet.subrange(24, 40)) =~= packet);
}

/// Compressing a decompressed payload gives the payload back, if it was made from a version 6
/// header.
pub proof fn law_shim_round_trip_back(payload: Seq<u8>, src: Seq<u8>, dst: Seq<u8>)
    requires
        is_shim(payload),
        payload[1] / 16 == 6,
        src.len() == 16,
        dst.len() == 16,
    ensures
        is_ipv6(decompressed(payload, src, dst)),
        compressed(decompressed(payload, src, dst)) == payload,
{
    let p = decompressed(payload, src, dst);
    bytes::lemma_be_bytes_len((payload.len() - 7) as nat, 2);
    assert(0x60 + payload[1] % 16 == payload[1]);
    assert(p.take(4) =~= payload.subrange(1, 5));
    assert(p.subrange(6, 8) =~= payload.subrange(5, 7));
    assert(p.skip(40) =~= payload.skip(7));
    assert(compressed(p) =~= payload);
}

// ============================================================================
// ICMPv6 checksum
// ============================================================================

/// The sum of big-endian 16-bit words, an odd last byte counting as the high one.
pub open spec fn word_sum(data: Seq<u8>) -> nat
    decreases data.len(),
{
    if data.len() == 0 {
        0
    } else if data.len() == 1 {
        256 * data[0] as nat
    } else {
        256 * data[0] as nat + data[1] as nat + word_sum(data.skip(2))
    }
}

/// The one's complement sum that a plain sum folds to.
pub open spec fn folded(sum: nat) -> nat {
    if sum == 0 {
        0
    } else {
        ((sum - 1) % 65535 + 1) as nat
    }
}

/// The words that the checksum covers: both addresses, the length, the next header and the
/// message.
pub open spec fn covered_sum(src: Seq<u8>, dst: Seq<u8>, message: Seq<u8>) -> nat {
    word_sum(src) + word_sum(dst) + word_sum(bytes::be_bytes(message.len(), 4))
        + IPV6_NEXT_HEADER_ICMPV6 as nat + word_sum(message)
}

/// The ICMPv6 checksum; the sum is kept in 32 bits.
pub open spec fn echo_checksum(src: Seq<u8>, dst: Seq<u8>, message: Seq<u8>) -> nat {
    (65535 - folded(covered_sum(src, dst, message) % 0x1_0000_0000)) as nat
}

fn compute_checksum(src: &[u8; 16], dst: &[u8; 16], message: &[u8]) -> (r: u16)
    ensures
        r == echo_checksum(src@, dst@, message@),
{
    let mut sum: u32 = 0;
    sum = add_words(sum, src);
    sum = add_words(sum, dst);
    let n: u64 = message.len() as u64;
    let mut len_words: Vec<u8> = Vec::with_capacity(4);
    proof {
        lemma_be32_split(n as nat);
    }
    bytes::push_u16_be(&mut len_words, ((n / 0x1_0000) % 0x1_0000) as u16);
    bytes::push_u16_be(&mut len_words, (n % 0x1_0000) as u16);
    assert(len_words@ =~= bytes::be_bytes(n as nat, 4));
    sum = add_words(sum, len_words.as_slice());
    sum = sum.wrapping_add(IPV6_NEXT_HEADER_ICMPV6 as u32);
    sum = add_words(sum, message);
    let ghost total = covered_sum(src@, dst@, message@);
    assert(sum == total % 0x1_0000_0000);
    while sum >= 0x1_0000
        invariant
            folded(sum as nat) == folded(total % 0x1_0000_0000),
        decreases sum,
    {
        let high: u32 = sum / 0x1_0000;
        let low: u32 = sum % 0x1_0000;
        assert(low + high == sum - 65535 * high);
        sum = low + high;
    }
    assert(folded(sum as nat) == sum);
    0xffff - sum as u16
}

proof fn lemma_be32_split(n: nat)
    ensures
        bytes::be_bytes(n, 4) == bytes::be_bytes((n / 0x1_0000) % 0x1_0000, 2) + bytes::be_bytes(
            n % 0x1_0000,
            2,
        ),
{
    reveal_with_fuel(bytes::be_bytes, 5);
    bytes::lemma_be16_split((n / 0x1_0000) % 0x1_0000);
    bytes::lemma_be16_split(n % 0x1_0000);
    let a = (n / 0x1_0000) % 0x1_0000;
    let b = n % 0x1_0000;
    assert(n / 256 / 256 == n / 0x1_0000);
    assert(b % 256 == n % 256 && (b / 256) % 256 == (n / 256) % 256);
    assert(a % 256 == (n / 256 / 256) % 256);
    assert((a / 256) % 256 == (n / 256 / 256 / 256) % 256);
    assert(bytes::be_bytes(n, 4) =~= bytes::be_bytes(a, 2) + bytes::be_bytes(b, 2));
}

fn add_words(sum: u32, data: &[u8]) -> (r: u32)
    ensures
        r == (sum + word_sum(data@)) % 0x1_0000_0000,
{
    let mut r: u32 = sum;
    let mut i: usize = 0;
    assert(data@.skip(0) =~= data@);
    while data.len() - i >= 2
        invariant
            i <= data.len(),
            (r + word_sum(data@.skip(i as int))) % 0x1_0000_0000 == (sum + word_sum(data@))
                % 0x1_0000_0000,
        decreases data.len() - i,
    {
        let word: u32 = 256 * (data[i] as u32) + data[i + 1] as u32;
        assert(data@.skip(i as int).skip(2) =~= data@.skip(i + 2));
        r = r.wrapping_add(word);
        i = i + 2;
    }
    if i < data.len() {
        r = r.wrapping_add(256 * (data[i] as u32));
    }
    r
}

// ============================================================================
// ICMPv6 echo
// ============================================================================

/// The payload of our echo requests, `fips-browser-ping`.
pub open spec fn ping_payload() -> Seq<u8> {
    seq![
        102u8, 105u8, 112u8, 115u8, 45u8, 98u8, 114u8, 111u8, 119u8, 115u8, 101u8, 114u8, 45u8,
        112u8, 105u8, 110u8, 103u8,
    ]
}

/// An echo message: `[type:1][code:1][checksum:2][ident:2][seq:2][payload]`
pub open spec fn echo_message(kind: u8, checksum: nat, ident: nat, seq: nat, payload: Seq<u8>) -> Seq<u8> {
    seq![kind, 0u8] + bytes::be_bytes(checksum, 2) + bytes::be_bytes(ident, 2) + bytes::be_bytes(
        seq,
        2,
    ) + payload
}

/// An echo message between two addresses, with its checksum filled in.
pub open spec fn checked_echo(
    src: Seq<u8>,
    dst: Seq<u8>,
    kind: u8,
    ident: nat,
    seq: nat,
    payload: Seq<u8>,
) -> Seq<u8> {
    let checksum = echo_checksum(src, dst, echo_message(kind, 0, ident, seq, payload));
    echo_message(kind, checksum, ident, seq, payload)
}

/// An IPv6 packet that carries an ICMPv6 message.
pub open spec fn echo_packet(
    first_word: Seq<u8>,
    hop_limit: u8,
    src: Seq<u8>,
    dst: Seq<u8>,
    message: Seq<u8>,
) -> Seq<u8> {
    first_word + bytes::be_bytes(message.len(), 2) + seq![IPV6_NEXT_HEADER_ICMPV6, hop_limit] + src
        + dst + message
}

/// Our echo request.
pub open spec fn echo_request(src: Seq<u8>, dst: Seq<u8>, seq: u16) -> Seq<u8> {
    echo_packet(
        seq![0x60u8, 0u8, 0u8, 0u8],
        DEFAULT_HOP_LIMIT,
        src,
        dst,
        checked_echo(
            src,
            dst,
            ICMPV6_ECHO_REQUEST,
            DEFAULT_PING_ID as nat,
            seq as nat,
            ping_payload(),
        ),
    )
}

/// Whether a packet is an ICMPv6 echo message of the given type.
pub open spec fn is_echo(packet: Seq<u8>, kind: u8) -> bool {
    &&& packet.len() >= IPV6_HEADER_SIZE + 8
    &&& packet[0] / 16 == 6
    &&& packet[6] == IPV6_NEXT_HEADER_ICMPV6
    &&& packet[40] == kind
    &&& packet[41] == 0
}

/// The identifier in an echo packet.
pub open spec fn echo_ident(packet: Seq<u8>) -> nat {
    bytes::be_value(packet.subrange(44, 46))
}

/// The sequence number in an echo packet.
pub open spec fn echo_seq(packet: Seq<u8>) -> nat {
    bytes::be_value(packet.subrange(46, 48))
}

/// The reply to an echo request: addresses exchanged, identifier, sequence and payload kept.
pub open spec fn echo_reply(request: Seq<u8>) -> Seq<u8> {
    let src = request.subrange(24, 40);
    let dst = request.subrange(8, 24);
    echo_packet(
        request.take(4),
        request[7],
        src,
        dst,
        checked_echo(
            src,
            dst,
            ICMPV6_ECHO_REPLY,
            echo_ident(request),
            echo_seq(request),
            request.skip(48),
        ),
    )
}

fn build_echo_message(kind: u8, checksum: u16, ident: u16, seq: u16, payload: &[u8]) -> (r: Vec<u8>)
    ensures
        r@ == echo_message(kind, checksum as nat, ident as nat, seq as nat, payload@),
{
    let mut message: Vec<u8> = Vec::new();
    message.push(kind);
    message.push(0);
    assert(message@ =~= seq![kind, 0u8]);
    bytes::push_u16_be(&mut message, checksum);
    bytes::push_u16_be(&mut message, ident);
    bytes::push_u16_be(&mut message, seq);
    bytes::append(&mut message, payload);
    message
}

fn build_checked_echo(
    src: &[u8; 16],
    dst: &[u8; 16],
    kind: u8,
    ident: u16,
    seq: u16,
    payload: &[u8],
) -> (r: Vec<u8>)
    ensures
        r@ == checked_echo(src@, dst@, kind, ident as nat, seq as nat, payload@),
{
    let unchecked = build_echo_message(kind, 0, ident, seq, payload);
    let checksum: u16 = compute_checksum(src, dst, unchecked.as_slice());
    build_echo_message(kind, checksum, ident, seq, payload)
}

fn build_echo_packet(
    first_word: &[u8],
    hop_limit: u8,
    src: &[u8; 16],
    dst: &[u8; 16],
    message: &[u8],
) -> (r: Vec<u8>)
    ensures
        r@ == echo_packet(first_word@, hop_limit, src@, dst@, message@),
{
    let mut ipv6: Vec<u8> = bytes::to_vec(first_word);
    let n: usize = message.len();
    proof {
        bytes::lemma_be16_low(n as nat);
    }
    bytes::push_u16_be(&mut ipv6, (n % 0x1_0000) as u16);
    let ghost before = ipv6@;
    ipv6.push(IPV6_NEXT_HEADER_ICMPV6);
    ipv6.push(hop_limit);
    assert(ipv6@ =~= before + seq![IPV6_NEXT_HEADER_ICMPV6, hop_limit]);
    bytes::append(&mut ipv6, src);
    bytes::append(&mut ipv6, dst);
    bytes::append(&mut ipv6, message);
    ipv6
}

/// Build a full IPv6 packet containing an ICMPv6 Echo Request.
pub fn build_icmpv6_echo_request(src_ipv6: [u8; 16], dst_ipv6: [u8; 16], seq: u16) -> (r: Vec<u8>)
    ensures
        r@ == echo_request(src_ipv6@, dst_ipv6@, seq),
{
    let payload: [u8; 17] = [
        102u8, 105u8, 112u8, 115u8, 45u8, 98u8, 114u8, 111u8, 119u8, 115u8, 101u8, 114u8, 45u8,
        112u8, 105u8, 110u8, 103u8,
    ];
    assert(payload@ =~= ping_payload());
    let message = build_checked_echo(
        &src_ipv6,
        &dst_ipv6,
        ICMPV6_ECHO_REQUEST,
        DEFAULT_PING_ID,
        seq,
        &payload,
    );
    let first_word: [u8; 4] = [0x60u8, 0u8, 0u8, 0u8];
    assert(first_word@ =~= seq![0x60u8, 0u8, 0u8, 0u8]);
    build_echo_packet(&first_word, DEFAULT_HOP_LIMIT, &src_ipv6, &dst_ipv6, message.as_slice())
}

fn parse_echo(ipv6_packet: &[u8], kind: u8) -> (r: Option<(u16, u16)>)
    ensures
        r is Some <==> is_echo(ipv6_packet@, kind),
        r matches Some(v) ==> v.0 == echo_ident(ipv6_packet@) && v.1 == echo_seq(ipv6_packet@),
{
    if ipv6_packet.len() < IPV6_HEADER_SIZE + 8 || ipv6_packet[0] / 16 != 6 {
        return None;
    }
    if ipv6_packet[6] != IPV6_NEXT_HEADER_ICMPV6 {
        return None;
    }
    if ipv6_packet[40] != kind || ipv6_packet[41] != 0 {
        return None;
    }
    Some((bytes::u16_be_at(ipv6_packet, 44), bytes::u16_be_at(ipv6_packet, 46)))
}

/// Parse an IPv6 packet as an ICMPv6 Echo Request.
///
/// Returns (identifier, sequence) if it matches.
pub fn parse_icmpv6_echo_request(ipv6_packet: &[u8]) -> (r: Option<(u16, u16)>)
    ensures
        r is Some <==> is_echo(ipv6_packet@, ICMPV6_ECHO_REQUEST),
        r matches Some(v) ==> v.0 == echo_ident(ipv6_packet@) && v.1 == echo_seq(ipv6_packet@),
{
    parse_echo(ipv6_packet, ICMPV6_ECHO_REQUEST)
}

/// Parse an IPv6 packet as an ICMPv6 Echo Reply.
///
/// Returns (identifier, sequence) if it matches.
pub fn parse_icmpv6_echo_reply(ipv6_packet: &[u8]) -> (r: Option<(u16, u16)>)
    ensures
        r is Some <==> is_echo(ipv6_packet@, ICMPV6_ECHO_REPLY),
        r matches Some(v) ==> v.0 == echo_ident(ipv6_packet@) && v.1 == echo_seq(ipv6_packet@),
{
    parse_echo(ipv6_packet, ICMPV6_ECHO_REPLY)
}

/// Build an ICMPv6 Echo Reply from a valid Echo Request packet.
pub fn build_icmpv6_echo_reply(request_ipv6: &[u8]) -> (r: Option<Vec<u8>>)
    ensures
        r is Some <==> is_echo(request_ipv6@, ICMPV6_ECHO_REQUEST),
        r matches Some(v) ==> v@ == echo_reply(request_ipv6@),
{
    let (ident, seq) = match parse_icmpv6_echo_request(request_ipv6) {
        Some(v) => v,
        None => return None,
    };
    let src_ipv6 = bytes::array16_at(request_ipv6, 24);
    let dst_ipv6 = bytes::array16_at(request_ipv6, 8);
    let payload = slice_subrange(request_ipv6, 48, request_ipv6.len());
    assert(payload@ =~= request_ipv6@.skip(48));
    let message = build_checked_echo(&src_ipv6, &dst_ipv6, ICMPV6_ECHO_REPLY, ident, seq, payload);
    let first_word = slice_subrange(request_ipv6, 0, 4);
    assert(first_word@ =~= request_ipv6@.take(4));
    Some(
        build_echo_packet(first_word, request_ipv6[7], &src_ipv6, &dst_ipv6, message.as_slice()),
    )
}

/// The parts of an echo packet are found where they were put.
pub proof fn law_echo_packet_parts(
    first_word: Seq<u8>,
    hop_limit: u8,
    src: Seq<u8>,
    dst: Seq<u8>,
    kind: u8,
    ident: nat,
    seq: nat,
    payload: Seq<u8>,
)
    requires
        first_word.len() == 4,
        first_word[0] / 16 == 6,
        src.len() == 16,
        dst.len() == 16,
        ident < 0x1_0000,
        seq < 0x1_0000,
    ensures
        ({
            let p = echo_packet(
                first_word,
                hop_limit,
                src,
                dst,
                checked_echo(src, dst, kind, ident, seq, payload),
            );
            &&& is_echo(p, kind)
            &&& echo_ident(p) == ident
            &&& echo_seq(p) == seq
            &&& p.take(4) == first_word
            &&& p[7] == hop_limit
            &&& p.subrange(8, 24) == src
            &&& p.subrange(24, 40) == dst
            &&& p.skip(48) == payload
            &&& p.subrange(4, 6) == bytes::be_bytes((p.len() - 40) as nat, 2)
        }),
{
    broadcast use bytes::lemma_be_bytes_len;

    bytes::lemma_pow256_values();
    bytes::lemma_be_round_trip(ident, 2);
    bytes::lemma_be_round_trip(seq, 2);
    let message = checked_echo(src, dst, kind, ident, seq, payload);
    let p = echo_packet(first_word, hop_limit, src, dst, message);
    assert(p.subrange(44, 46) =~= bytes::be_bytes(ident, 2));
    assert(p.subrange(46, 48) =~= bytes::be_bytes(seq, 2));
    assert(p.take(4) =~= first_word);
    assert(p.subrange(8, 24) =~= src);
    assert(p.subrange(24, 40) =~= dst);
    assert(p.skip(48) =~= payload);
    assert(p.subrange(4, 6) =~= bytes::be_bytes(message.len(), 2));
}

/// An echo request of ours is one, with our identifier and the given sequence number.
pub proof fn law_echo_request_parses(src: Seq<u8>, dst: Seq<u8>, seq: u16)
    requires
        src.len() == 16,
        dst.len() == 16,
    ensures
        is_echo(echo_request(src, dst, seq), ICMPV6_ECHO_REQUEST),
        echo_ident(echo_request(src, dst, seq)) == DEFAULT_PING_ID,
        echo_seq(echo_request(src, dst, seq)) == seq,
        echo_request(src, dst, seq).subrange(8, 24) == src,
        echo_request(src, dst, seq).subrange(24, 40) == dst,
        is_ipv6(echo_request(src, dst, seq)),
{
    law_echo_packet_parts(
        seq![0x60u8, 0u8, 0u8, 0u8],
        DEFAULT_HOP_LIMIT,
        src,
        dst,
        ICMPV6_ECHO_REQUEST,
        DEFAULT_PING_ID as nat,
        seq as nat,
        ping_payload(),
    );
}

/// The reply to an echo request goes back where it came from, with the same identifier, sequence
/// number and payload.
pub proof fn law_echo_reply_answers(request: Seq<u8>)
    requires
        is_echo(request, ICMPV6_ECHO_REQUEST),
    ensures
        is_echo(echo_reply(request), ICMPV6_ECHO_REPLY),
        echo_ident(echo_reply(request)) == echo_ident(request),
        echo_seq(echo_reply(request)) == echo_seq(request),
        echo_reply(request).subrange(8, 24) == request.subrange(24, 40),
        echo_reply(request).subrange(24, 40) == request.subrange(8, 24),
        echo_reply(request).skip(48) == request.skip(48),
        is_ipv6(echo_reply(request)),
{
    bytes::lemma_pow256_values();
    bytes::lemma_be_value_bound(request.subrange(44, 46));
    bytes::lemma_be_value_bound(request.subrange(46, 48));
    law_echo_packet_parts(
        request.take(4),
        request[7],
        request.subrange(24, 40),
        request.subrange(8, 24),
        ICMPV6_ECHO_REPLY,
        echo_ident(request),
        echo_seq(request),
        request.skip(48),
    );
}

proof fn lemma_word_sum_split(a: Seq<u8>, b: Seq<u8>)
    requires
        a.len() % 2 == 0,
    ensures
        word_sum(a + b) == word_sum(a) + word_sum(b),
    decreases a.len(),
{
    if a.len() == 0 {
        assert(a + b =~= b);
    } else {
        lemma_word_sum_split(a.skip(2), b);
        assert((a + b).skip(2) =~= a.skip(2) + b);
    }
}

proof fn lemma_word_sum_bound(data: Seq<u8>)
    ensures
        word_sum(data) <= 65535 * ((data.len() + 1) / 2),
    decreases data.len(),
{
    if data.len() >= 2 {
        lemma_word_sum_bound(data.skip(2));
    }
}

/// The checksum of an echo message makes all words together fold to all ones, which is how a
/// receiver checks it.
pub proof fn law_checksum_verifies(
    src: Seq<u8>,
    dst: Seq<u8>,
    kind: u8,
    ident: nat,
    seq: nat,
    payload: Seq<u8>,
)
    requires
        src.len() == 16,
        dst.len() == 16,
        payload.len() < 0x1_ff00,
    ensures
        folded(covered_sum(src, dst, checked_echo(src, dst, kind, ident, seq, payload))) == 65535,
{
    broadcast use bytes::lemma_be_bytes_len;

    let bare = echo_message(kind, 0, ident, seq, payload);
    let c = echo_checksum(src, dst, bare);
    let full = echo_message(kind, c, ident, seq, payload);
    let rest = bytes::be_bytes(ident, 2) + bytes::be_bytes(seq, 2) + payload;
    let head = seq![kind, 0u8];
    let total = covered_sum(src, dst, bare);
    lemma_word_sum_bound(src);
    lemma_word_sum_bound(dst);
    lemma_word_sum_bound(bytes::be_bytes(bare.len(), 4));
    lemma_word_sum_bound(bare);
    assert(total % 0x1_0000_0000 == total);
    lemma_word_sum_split(head, bytes::be_bytes(0, 2) + rest);
    lemma_word_sum_split(head, bytes::be_bytes(c, 2) + rest);
    lemma_word_sum_split(bytes::be_bytes(0, 2), rest);
    lemma_word_sum_split(bytes::be_bytes(c, 2), rest);
    assert(bare =~= head + (bytes::be_bytes(0, 2) + rest));
    assert(full =~= head + (bytes::be_bytes(c, 2) + rest));
    bytes::lemma_be16_split(0);
    bytes::lemma_be16_split(c);
    reveal_with_fuel(word_sum, 3);
    assert(word_sum(bytes::be_bytes(0, 2)) == 0);
    assert(c <= 65535);
    assert(word_sum(bytes::be_bytes(c, 2)) == c);
    assert(covered_sum(src, dst, full) == total + c);
    assert(total >= 58);
    let f = folded(total);
    assert((total - f) % 65535 == 0);
}

/// The sum of two 16-bit words in one's complement: a carry comes back in at the bottom.
pub open spec fn ones_add(a: nat, b: nat) -> nat {
    if a + b > 0xffff {
        (a + b - 0xffff) as nat
    } else {
        a + b
    }
}

/// The one's complement sum of bytes, taken two by two with the first one high. A single last byte
/// counts as if a zero stood behind it.
pub open spec fn ones_sum(data: Seq<u8>) -> nat
    decreases data.len(),
{
    if data.len() == 0 {
        0
    } else if data.len() == 1 {
        (0x100 * data[0]) as nat
    } else {
        ones_add((0x100 * data[0] + data[1]) as nat, ones_sum(data.subrange(2, data.len() as int)))
    }
}

proof fn lemma_ones_sum_folds(data: Seq<u8>)
    ensures
        ones_sum(data) == folded(word_sum(data)),
    decreases data.len(),
{
    if data.len() >= 2 {
        let rest = data.subrange(2, data.len() as int);
        assert(rest =~= data.skip(2));
        lemma_ones_sum_folds(rest);
        let w = (0x100 * data[0] + data[1]) as nat;
        lemma_fold_adds(w, word_sum(rest));
    }
}

proof fn lemma_fold_adds(w: nat, sum: nat)
    requires
        w <= 0xffff,
    ensures
        ones_add(w, folded(sum)) == folded(w + sum),
{
    if sum > 0 {
        let q = (sum - 1) / 65535;
        let f = folded(sum);
        assert(sum == 65535 * q + f);
        if w + f > 0xffff {
            let g = (w + f - 65535) as nat;
            assert(w + sum - 1 == 65535 * (q + 1) + (g - 1));
            assert((w + sum - 1) % 65535 == g - 1) by (nonlinear_arith)
                requires
                    w + sum - 1 == 65535 * (q + 1) + (g - 1),
                    0 <= g - 1 < 65535,
            ;
        } else {
            assert(w + sum - 1 == 65535 * q + (w + f - 1));
            assert((w + sum - 1) % 65535 == w + f - 1) by (nonlinear_arith)
                requires
                    w + sum - 1 == 65535 * q + (w + f - 1),
                    0 <= w + f - 1 < 65535,
            ;
        }
    }
}

/// A receiver finds the checksum of an echo message right: the one's complement sum over the
/// pseudo-header, which is both addresses, the length in four bytes, three zeros and 58, and over
/// the whole message behind it is all ones, whether the message has an odd or an even length. The
/// checksum itself is never all ones, so that it is the only one that fits.
pub proof fn law_checksum_is_right_at_receiver(
    src: Seq<u8>,
    dst: Seq<u8>,
    kind: u8,
    ident: nat,
    seq: nat,
    payload: Seq<u8>,
)
    requires
        src.len() == 16,
        dst.len() == 16,
        payload.len() < 0x1_ff00,
    ensures
        ({
            let message = checked_echo(src, dst, kind, ident, seq, payload);
            let n = message.len();
            let length = seq![
                ((n / 0x100_0000) % 0x100) as u8,
                ((n / 0x1_0000) % 0x100) as u8,
                ((n / 0x100) % 0x100) as u8,
                (n % 0x100) as u8,
            ];
            &&& ones_sum(src + dst + length + seq![0u8, 0u8, 0u8, 58u8] + message) == 0xffff
            &&& 0x100 * message[2] + message[3] != 0xffff
        }),
{
    law_checksum_verifies(src, dst, kind, ident, seq, payload);
    let message = checked_echo(src, dst, kind, ident, seq, payload);
    let n = message.len();
    let length = seq![
        ((n / 0x100_0000) % 0x100) as u8,
        ((n / 0x1_0000) % 0x100) as u8,
        ((n / 0x100) % 0x100) as u8,
        (n % 0x100) as u8,
    ];
    lemma_be32_spelled(n);
    lemma_covered_in_a_row(src, dst, length, message);
    lemma_ones_sum_folds(src + dst + length + seq![0u8, 0u8, 0u8, 58u8] + message);
    lemma_checksum_stands(src, dst, kind, ident, seq, payload);
}

/// What a checksum covers, in a row.
proof fn lemma_covered_in_a_row(src: Seq<u8>, dst: Seq<u8>, length: Seq<u8>, message: Seq<u8>)
    requires
        src.len() == 16,
        dst.len() == 16,
        length.len() == 4,
        length == bytes::be_bytes(message.len(), 4),
    ensures
        word_sum(src + dst + length + seq![0u8, 0u8, 0u8, 58u8] + message) == covered_sum(
            src,
            dst,
            message,
        ),
{
    let tail = seq![0u8, 0u8, 0u8, 58u8];
    let all = src + dst + length + tail + message;
    assert(all =~= src + (dst + (length + (tail + message))));
    lemma_word_sum_split(src, dst + (length + (tail + message)));
    lemma_word_sum_split(dst, length + (tail + message));
    lemma_word_sum_split(length, tail + message);
    lemma_word_sum_split(tail, message);
    assert(word_sum(tail) == 58) by {
        reveal_with_fuel(word_sum, 3);
        assert(tail.skip(2) =~= seq![0u8, 58u8]);
    }
}

/// The checksum stands in the third and fourth byte of a message, and is not all ones.
proof fn lemma_checksum_stands(
    src: Seq<u8>,
    dst: Seq<u8>,
    kind: u8,
    ident: nat,
    seq: nat,
    payload: Seq<u8>,
)
    requires
        src.len() == 16,
        dst.len() == 16,
        payload.len() < 0x1_ff00,
    ensures
        ({
            let message = checked_echo(src, dst, kind, ident, seq, payload);
            0x100 * message[2] + message[3] != 0xffff
        }),
{
    broadcast use bytes::lemma_be_bytes_len;

    let message = checked_echo(src, dst, kind, ident, seq, payload);
    let bare = echo_message(kind, 0, ident, seq, payload);
    let c = echo_checksum(src, dst, bare);
    lemma_word_sum_bound(src);
    lemma_word_sum_bound(dst);
    lemma_word_sum_bound(bytes::be_bytes(bare.len(), 4));
    lemma_word_sum_bound(bare);
    assert(covered_sum(src, dst, bare) >= 58);
    assert(c < 65535);
    bytes::lemma_be16_split(c);
    assert(message.subrange(2, 4) =~= bytes::be_bytes(c, 2));
    assert(message[2] == message.subrange(2, 4)[0]);
    assert(message[3] == message.subrange(2, 4)[1]);
}

proof fn lemma_be32_spelled(n: nat)
    ensures
        bytes::be_bytes(n, 4) == seq![
            ((n / 0x100_0000) % 0x100) as u8,
            ((n / 0x1_0000) % 0x100) as u8,
            ((n / 0x100) % 0x100) as u8,
            (n % 0x100) as u8,
        ],
{
    reveal_with_fuel(bytes::be_bytes, 5);
    assert(n / 256 / 256 == n / 0x1_0000);
    assert(n / 256 / 256 / 256 == n / 0x100_0000);
    assert(bytes::be_bytes(n, 4) =~= seq![
        ((n / 0x100_0000) % 0x100) as u8,
        ((n / 0x1_0000) % 0x100) as u8,
        ((n / 0x100) % 0x100) as u8,
        (n % 0x100) as u8,
    ]);
}

/// Where everything stands in our echo request: version 6 and no traffic class or flow label, the
/// length of the message, 58 for ICMPv6, hop limit 64, the addresses; then type 128, code 0,
/// checksum, identifier `f105`, the sequence number with its high byte first, and the text
/// `fips-browser-ping`.
pub proof fn law_echo_request_layout(src: Seq<u8>, dst: Seq<u8>, seq: u16)
    requires
        src.len() == 16,
        dst.len() == 16,
    ensures
        ({
            let p = echo_request(src, dst, seq);
            let text = "fips-browser-ping"@;
            &&& p.len() == 65
            &&& p.subrange(0, 8) == seq![0x60u8, 0u8, 0u8, 0u8, 0u8, 25u8, 58u8, 64u8]
            &&& p.subrange(8, 24) == src
            &&& p.subrange(24, 40) == dst
            &&& p[40] == 128
            &&& p[41] == 0
            &&& p[44] == 0xf1
            &&& p[45] == 0x05
            &&& 0x100 * p[46] + p[47] == seq
            &&& p.subrange(48, 65) == Seq::new(17, |i: int| text[i] as u8)
            &&& p.subrange(40, 65) == checked_echo(
                src,
                dst,
                128,
                0xf105,
                seq as nat,
                p.subrange(48, 65),
            )
        }),
{
    broadcast use bytes::lemma_be_bytes_len;

    reveal_strlit("fips-browser-ping");
    let text = "fips-browser-ping"@;
    let p = echo_request(src, dst, seq);
    assert(ping_payload() =~= Seq::new(17, |i: int| text[i] as u8));
    let message = checked_echo(src, dst, 128, 0xf105, seq as nat, ping_payload());
    bytes::lemma_be16_split(0xf105);
    bytes::lemma_be16_split(seq as nat);
    bytes::lemma_be16_split(25);
    assert(p.subrange(0, 8) =~= seq![0x60u8, 0u8, 0u8, 0u8, 0u8, 25u8, 58u8, 64u8]);
    assert(p.subrange(8, 24) =~= src);
    assert(p.subrange(24, 40) =~= dst);
    assert(p.subrange(40, 65) =~= message);
    assert(message.subrange(4, 6) =~= bytes::be_bytes(0xf105, 2));
    assert(message.subrange(6, 8) =~= bytes::be_bytes(seq as nat, 2));
    assert(p[44] == message.subrange(4, 6)[0] && p[45] == message.subrange(4, 6)[1]);
    assert(p[46] == message.subrange(6, 8)[0] && p[47] == message.subrange(6, 8)[1]);
    assert(p.subrange(48, 65) =~= ping_payload());
}

/// The reply to an echo request differs from it only in these: the addresses are exchanged, the
/// type is 129, the length and the checksum are its own. Everything else is repeated byte by byte.
pub proof fn law_echo_reply_layout(request: Seq<u8>)
    requires
        request.len() >= 48,
        request[0] / 16 == 6,
        request[6] == 58,
        request[40] == 128,
        request[41] == 0,
    ensures
        ({
            let p = echo_reply(request);
            let n = (request.len() - 40) as nat;
            &&& is_echo(request, ICMPV6_ECHO_REQUEST)
            &&& p.len() == request.len()
            &&& p.subrange(0, 4) == request.subrange(0, 4)
            &&& p[4] as nat == (n / 0x100) % 0x100
            &&& p[5] as nat == n % 0x100
            &&& p.subrange(6, 8) == request.subrange(6, 8)
            &&& p.subrange(8, 24) == request.subrange(24, 40)
            &&& p.subrange(24, 40) == request.subrange(8, 24)
            &&& p[40] == 129
            &&& p[41] == 0
            &&& p.skip(44) == request.skip(44)
            &&& p.skip(40) == checked_echo(
                request.subrange(24, 40),
                request.subrange(8, 24),
                129,
                (0x100 * request[44] + request[45]) as nat,
                (0x100 * request[46] + request[47]) as nat,
                request.skip(48),
            )
        }),
{
    broadcast use bytes::lemma_be_bytes_len;

    let p = echo_reply(request);
    let n = (request.len() - 40) as nat;
    bytes::law_be_value_weighs_bytes(request.subrange(44, 46));
    bytes::law_be_value_weighs_bytes(request.subrange(46, 48));
    bytes::lemma_be_bytes_of_value(request.subrange(44, 46));
    bytes::lemma_be_bytes_of_value(request.subrange(46, 48));
    bytes::lemma_be16_split(n);
    let message = checked_echo(
        request.subrange(24, 40),
        request.subrange(8, 24),
        129,
        echo_ident(request),
        echo_seq(request),
        request.skip(48),
    );
    assert(message.len() == n);
    assert(p.subrange(4, 6) =~= bytes::be_bytes(n, 2));
    assert(p[4] == p.subrange(4, 6)[0] && p[5] == p.subrange(4, 6)[1]);
    assert(p.subrange(0, 4) =~= request.subrange(0, 4));
    assert(p.subrange(6, 8) =~= request.subrange(6, 8));
    assert(p.subrange(8, 24) =~= request.subrange(24, 40));
    assert(p.subrange(24, 40) =~= request.subrange(8, 24));
    assert(p.skip(40) =~= message);
    assert(p.skip(44) =~= message.skip(4));
    assert(message.skip(4) =~= request.subrange(44, 46) + request.subrange(46, 48) + request.skip(
        48,
    ));
    assert(p.skip(44) =~= request.skip(44));
}

/// A packet is an echo message of a type if and only if it has 48 bytes, version 6, 58 for ICMPv6,
/// and that type with code 0; its identifier and its sequence number then stand behind the
/// checksum with their high bytes first.
pub proof fn law_echo_is_recognized(packet: Seq<u8>, kind: u8)
    ensures
        is_echo(packet, kind) <==> packet.len() >= 48 && packet[0] / 16 == 6 && packet[6] == 58
            && packet[40] == kind && packet[41] == 0,
        packet.len() >= 48 ==> echo_ident(packet) == 0x100 * packet[44] + packet[45],
        packet.len() >= 48 ==> echo_seq(packet) == 0x100 * packet[46] + packet[47],
{
    if packet.len() >= 48 {
        bytes::law_be_value_weighs_bytes(packet.subrange(44, 46));
        bytes::law_be_value_weighs_bytes(packet.subrange(46, 48));
    }
}

/// The IPv6 address of a node is `fd` and the first 15 bytes of its node address.
pub proof fn law_node_address_in_ipv6(node_addr: Seq<u8>)
    requires
        node_addr.len() == 16,
    ensures
        ipv6_of(node_addr).len() == 16,
        ipv6_of(node_addr)[0] == 0xfd,
        ipv6_of(node_addr).subrange(1, 16) == node_addr.subrange(0, 15),
{
    assert(ipv6_of(node_addr).subrange(1, 16) =~= node_addr.subrange(0, 15));
}

/// What a packet leaves in the shim: a zero, its first four bytes, next header and hop limit, and
/// everything behind the header. Only a packet with a whole header of version 6 is taken.
pub proof fn law_shim_layout(packet: Seq<u8>)
    ensures
        is_ipv6(packet) <==> packet.len() >= 40 && packet[0] / 16 == 6,
        packet.len() >= 40 ==> {
            let c = compressed(packet);
            &&& c.len() == packet.len() - 33
            &&& c[0] == 0
            &&& c.subrange(1, 5) == packet.subrange(0, 4)
            &&& c[5] == packet[6]
            &&& c[6] == packet[7]
            &&& c.subrange(7, c.len() as int) == packet.subrange(40, packet.len() as int)
        },
{
    if packet.len() >= 40 {
        let c = compressed(packet);
        assert(c.subrange(1, 5) =~= packet.subrange(0, 4));
        assert(c.subrange(7, c.len() as int) =~= packet.subrange(40, packet.len() as int));
    }
}

/// What is made of the shim again: version 6 with the traffic class and flow label of the shim,
/// the true length, next header and hop limit, the given addresses, and the payload.
pub proof fn law_unshimmed_layout(payload: Seq<u8>, src: Seq<u8>, dst: Seq<u8>)
    requires
        src.len() == 16,
        dst.len() == 16,
    ensures
        is_shim(payload) <==> payload.len() >= 7 && payload[0] == 0,
        payload.len() >= 7 ==> {
            let p = decompressed(payload, src, dst);
            let n = (payload.len() - 7) as nat;
            &&& p.len() == 40 + n
            &&& p[0] / 16 == 6
            &&& p[0] % 16 == payload[1] % 16
            &&& p.subrange(1, 4) == payload.subrange(2, 5)
            &&& p[4] as nat == (n / 0x100) % 0x100
            &&& p[5] as nat == n % 0x100
            &&& p[6] == payload[5]
            &&& p[7] == payload[6]
            &&& p.subrange(8, 24) == src
            &&& p.subrange(24, 40) == dst
            &&& p.skip(40) == payload.skip(7)
        },
{
    broadcast use bytes::lemma_be_bytes_len;

    if payload.len() >= 7 {
        let p = decompressed(payload, src, dst);
        let n = (payload.len() - 7) as nat;
        bytes::lemma_be16_split(n);
        assert(p.subrange(1, 4) =~= payload.subrange(2, 5));
        assert(p.subrange(4, 6) =~= bytes::be_bytes(n, 2));
        assert(p[4] == p.subrange(4, 6)[0] && p[5] == p.subrange(4, 6)[1]);
        assert(p.subrange(8, 24) =~= src);
        assert(p.subrange(24, 40) =~= dst);
        assert(p.skip(40) =~= payload.skip(7));
    }
}

/// Groups are written in hexadecimal and joined by colons: no group gives no text, one group its
/// digits, and the text of two rows of groups is their texts with a colon between them.
pub proof fn law_groups_are_joined(a: Seq<nat>, b: Seq<nat>, one: nat)
    ensures
        groups_text(Seq::empty()) == Seq::<char>::empty(),
        groups_text(seq![one]) == text::hexadecimal(one),
        a.len() > 0 && b.len() > 0 ==> groups_text(a + b) == groups_text(a) + ":"@ + groups_text(b),
    decreases b.len(),
{
    if a.len() > 0 && b.len() == 1 {
        assert((a + b).drop_last() =~= a);
        assert(b =~= seq![b[0]]);
    } else if a.len() > 0 && b.len() > 1 {
        law_groups_are_joined(a, b.drop_last(), one);
        assert((a + b).drop_last() =~= a + b.drop_last());
        assert(groups_text(a + b) =~= groups_text(a) + ":"@ + groups_text(b));
    }
}

proof fn lemma_zero_run_spans(g: Seq<nat>, i: int)
    requires
        0 <= i <= g.len(),
    ensures
        i + zero_run(g, i) <= g.len(),
        forall|k: int| i <= k < i + zero_run(g, i) ==> #[trigger] g[k] == 0,
        i + zero_run(g, i) < g.len() ==> g[(i + zero_run(g, i)) as int] != 0,
    decreases g.len() - i,
{
    if i < g.len() && g[i] == 0 {
        lemma_zero_run_spans(g, i + 1);
    }
}

proof fn lemma_longest_is_first(g: Seq<nat>, n: nat)
    requires
        n <= g.len(),
    ensures
        ({
            let best = longest_zero_run(g, n);
            &&& 0 <= best
            &&& best < n || best == 0
            &&& forall|j: int| 0 <= j < n ==> #[trigger] zero_run(g, j) <= zero_run(g, best)
            &&& forall|j: int| 0 <= j < best ==> #[trigger] zero_run(g, j) < zero_run(g, best)
        }),
    decreases n,
{
    if n > 0 {
        lemma_longest_is_first(g, (n - 1) as nat);
    }
}

/// How an address is written: as eight groups of two bytes, high byte first, but the longest row of
/// zero groups, and of equally long ones the first, is left out where it has two groups or more.
/// An address of ten zeros and two bytes `ff` ends in dotted form instead.
pub proof fn law_address_text(addr: Seq<u8>, g: Seq<nat>, start: int, end: int)
    requires
        addr.len() == 16,
        g.len() == 8,
        forall|i: int| 0 <= i < 8 ==> #[trigger] g[i] == 0x100 * addr[2 * i] + addr[2 * i + 1],
        0 <= start <= end <= 8,
        forall|k: int| start <= k < end ==> #[trigger] g[k] == 0,
        forall|a: int, b: int|
            #![trigger g.subrange(a, b)]
            0 <= a < b <= 8 && g.subrange(a, b) == Seq::new((b - a) as nat, |k: int| 0nat) ==> b - a
                < end - start || (b - a == end - start && start <= a),
    ensures
        ({
            let zeros = forall|i: int| 0 <= i < 10 ==> #[trigger] addr[i] == 0;
            let mapped = zeros && addr[10] == 0xff && addr[11] == 0xff;
            &&& mapped ==> ipv6_text(addr) == "::ffff:"@ + text::decimal(addr[12] as nat) + "."@
                + text::decimal(addr[13] as nat) + "."@ + text::decimal(addr[14] as nat) + "."@
                + text::decimal(addr[15] as nat)
            &&& !mapped && end - start >= 2 ==> ipv6_text(addr) == groups_text(
                g.subrange(0, start),
            ) + "::"@ + groups_text(g.subrange(end, 8))
            &&& !mapped && end - start < 2 ==> ipv6_text(addr) == groups_text(g)
        }),
{
    assert forall|i: int| 0 <= i < 8 implies #[trigger] groups(addr)[i] == g[i] by {
        bytes::law_be_value_weighs_bytes(addr.subrange(2 * i, 2 * i + 2));
    }
    assert(groups(addr) =~= g);
    let zeros = forall|i: int| 0 <= i < 10 ==> #[trigger] addr[i] == 0;
    let prefix = bytes::zeros(10) + seq![0xffu8, 0xffu8];
    assert(maps_ipv4(addr) <==> zeros && addr[10] == 0xff && addr[11] == 0xff) by {
        if maps_ipv4(addr) {
            assert forall|i: int| 0 <= i < 10 implies #[trigger] addr[i] == 0 by {
                assert(addr.take(12)[i] == prefix[i]);
            }
            assert(addr.take(12)[10] == prefix[10]);
            assert(addr.take(12)[11] == prefix[11]);
        } else if zeros && addr[10] == 0xff && addr[11] == 0xff {
            assert(addr.take(12) =~= prefix);
        }
    }
    let best = longest_zero_run(g, 8);
    let len = zero_run(g, best);
    lemma_longest_is_first(g, 8);
    lemma_zero_run_spans(g, best);
    // The row found is a row of zeros, so it is no longer than the given one.
    if len > 0 {
        assert(g.subrange(best, best + len) =~= Seq::new(
            (best + len - best) as nat,
            |k: int| 0nat,
        ));
    }
    // The given row is part of the row that starts where it starts.
    if start < end {
        lemma_zero_run_spans(g, start);
        let run = zero_run(g, start);
        if start + run < end {
            assert(g[(start + run) as int] == 0);
        }
    }
    if end - start >= 2 {
        assert(g.take(best) =~= g.subrange(0, start));
        assert(g.skip((best + len) as int) =~= g.subrange(end, 8));
    }
}

} // verus!

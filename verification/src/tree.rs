//! TreeAnnounce builder and parser for a browser node.
//!
//! Supports two modes:
//! - **Root**: `parent = self`, single ancestry entry (used at startup before the gateway's
//!   TreeAnnounce arrives).
//! - **Leaf**: `parent = gateway`, ancestry = `[self, ...gateway_ancestry]` (used after receiving
//!   the gateway's TreeAnnounce).
//!
//! Declarations are signed with BIP-340 Schnorr.

use crate::bytes;
use crate::crypto;
use crate::identity::SecretKey;
use crate::text;
use crate::wire;
use vstd::prelude::*;

verus! {

/// TreeAnnounce version.
pub const VERSION_1: u8 = 0x01;

/// Ancestry entry wire size: node_addr(16) + sequence(8) + timestamp(8).
pub const COORD_ENTRY_SIZE: usize = 32;

/// Shortest TreeAnnounce, without its type byte:
/// version(1) + seq(8) + ts(8) + parent(16) + count(2) + sig(64) = 99.
pub const ANNOUNCE_MIN_SIZE: usize = 99;

/// A single ancestry entry from a parsed TreeAnnounce.
#[derive(Clone, Copy, Debug)]
pub struct AncestryEntry {
    pub node_addr: [u8; 16],
    pub sequence: u64,
    pub timestamp: u64,
}

/// An ancestry entry as values.
#[verifier::ext_equal]
pub struct EntryModel {
    pub node_addr: Seq<u8>,
    pub sequence: nat,
    pub timestamp: nat,
}

impl View for AncestryEntry {
    type V = EntryModel;

    open spec fn view(&self) -> EntryModel {
        EntryModel {
            node_addr: self.node_addr@,
            sequence: self.sequence as nat,
            timestamp: self.timestamp as nat,
        }
    }
}

/// Ancestry entries as values.
pub open spec fn entries(list: Seq<AncestryEntry>) -> Seq<EntryModel> {
    list.map_values(|e: AncestryEntry| e@)
}

/// Parsed TreeAnnounce (without signature verification: the gateway is already authenticated by
/// the Noise IK handshake).
pub struct ParsedTreeAnnounce {
    pub parent: [u8; 16],
    pub ancestry: Vec<AncestryEntry>,
}

/// What an announce declares: the parent, and the path from the node to the root.
#[verifier::ext_equal]
pub struct AnnounceModel {
    pub parent: Seq<u8>,
    pub ancestry: Seq<EntryModel>,
}

impl View for ParsedTreeAnnounce {
    type V = AnnounceModel;

    open spec fn view(&self) -> AnnounceModel {
        AnnounceModel { parent: self.parent@, ancestry: entries(self.ancestry@) }
    }
}

/// The ancestry entry at a position.
pub open spec fn entry_at(data: Seq<u8>, pos: int) -> EntryModel {
    EntryModel {
        node_addr: data.subrange(pos, pos + 16),
        sequence: bytes::le_value(data.subrange(pos + 16, pos + 24)),
        timestamp: bytes::le_value(data.subrange(pos + 24, pos + 32)),
    }
}

/// What a TreeAnnounce declares, or what is wrong with it. The signature only has to be there.
pub open spec fn parsed_announce(payload: Seq<u8>) -> Result<AnnounceModel, Seq<char>> {
    if payload.len() < ANNOUNCE_MIN_SIZE {
        Err("TreeAnnounce too short: "@ + text::decimal(payload.len()) + " < 99"@)
    } else if payload[0] != VERSION_1 {
        Err("unsupported TreeAnnounce version: "@ + text::decimal(payload[0] as nat))
    } else {
        let count = bytes::le_value(payload.subrange(33, 35));
        let needed = count * 32 + 64;
        let have = (payload.len() - 35) as nat;
        if have < needed {
            Err(
                "TreeAnnounce truncated: need "@ + text::decimal(needed) + " more bytes, have "@
                    + text::decimal(have),
            )
        } else {
            Ok(
                AnnounceModel {
                    parent: payload.subrange(17, 33),
                    ancestry: Seq::new(count, |i: int| entry_at(payload, 35 + 32 * i)),
                },
            )
        }
    }
}

/// Parse a TreeAnnounce payload (after the msg_type byte has been stripped).
///
/// The signature is not verified because the link peer is already authenticated by the Noise IK
/// handshake.
pub fn parse_tree_announce(payload: &[u8]) -> (r: Result<ParsedTreeAnnounce, String>)
    ensures
        match r {
            Ok(a) => parsed_announce(payload@) == Ok::<AnnounceModel, Seq<char>>(a@),
            Err(e) => parsed_announce(payload@) == Err::<AnnounceModel, Seq<char>>(e@),
        },
{
    if payload.len() < ANNOUNCE_MIN_SIZE {
        let n = text::decimal_text(payload.len() as u64);
        return Err(text::join3("TreeAnnounce too short: ", n.as_str(), " < 99"));
    }
    let version: u8 = payload[0];
    if version != VERSION_1 {
        let v = text::decimal_text(version as u64);
        return Err(text::join2("unsupported TreeAnnounce version: ", v.as_str()));
    }
    // The sequence (8) and timestamp (8) of the declaration are not needed
    let parent = bytes::array16_at(payload, 17);
    let count: usize = bytes::u16_le_at(payload, 33) as usize;
    let needed: usize = count * COORD_ENTRY_SIZE + 64;
    let have: usize = payload.len() - 35;
    if have < needed {
        let n = text::decimal_text(needed as u64);
        let h = text::decimal_text(have as u64);
        return Err(
            text::join4("TreeAnnounce truncated: need ", n.as_str(), " more bytes, have ", h.as_str()),
        );
    }
    let mut ancestry: Vec<AncestryEntry> = Vec::with_capacity(count);
    let mut i: usize = 0;
    let mut pos: usize = 35;
    while i < count
        invariant
            i <= count,
            pos == 35 + 32 * i,
            35 + 32 * count + 64 <= payload.len(),
            ancestry@.len() == i,
            forall|j: int|
                0 <= j < i ==> (#[trigger] ancestry@[j])@ == entry_at(payload@, 35 + 32 * j),
        decreases count - i,
    {
        let node_addr = bytes::array16_at(payload, pos);
        let sequence: u64 = bytes::u64_le_at(payload, pos + 16);
        let timestamp: u64 = bytes::u64_le_at(payload, pos + 24);
        ancestry.push(AncestryEntry { node_addr, sequence, timestamp });
        pos = pos + 32;
        i = i + 1;
    }
    let r = ParsedTreeAnnounce { parent, ancestry };
    assert(r@.ancestry =~= Seq::new(count as nat, |j: int| entry_at(payload@, 35 + 32 * j)));
    Ok(r)
}

/// What the declaration signs:
/// `node_addr(16) || parent(16) || sequence(8 LE) || timestamp(8 LE)`
pub open spec fn signing_bytes(
    node_addr: Seq<u8>,
    parent: Seq<u8>,
    sequence: nat,
    timestamp: nat,
) -> Seq<u8> {
    node_addr + parent + bytes::le_bytes(sequence, 8) + bytes::le_bytes(timestamp, 8)
}

/// An ancestry entry on the wire.
pub open spec fn entry_bytes(e: EntryModel) -> Seq<u8> {
    e.node_addr + bytes::le_bytes(e.sequence, 8) + bytes::le_bytes(e.timestamp, 8)
}

/// Ancestry entries on the wire, one after another.
pub open spec fn entries_bytes(list: Seq<EntryModel>) -> Seq<u8>
    decreases list.len(),
{
    if list.len() == 0 {
        Seq::empty()
    } else {
        entries_bytes(list.drop_last()) + entry_bytes(list.last())
    }
}

/// A TreeAnnounce, with its type byte in front.
pub open spec fn announce_bytes(
    sequence: nat,
    timestamp: nat,
    announce: AnnounceModel,
    signature: Seq<u8>,
) -> Seq<u8> {
    seq![wire::MSG_TYPE_TREE_ANNOUNCE, VERSION_1] + bytes::le_bytes(sequence, 8) + bytes::le_bytes(
        timestamp,
        8,
    ) + announce.parent + bytes::le_bytes(announce.ancestry.len(), 2) + entries_bytes(
        announce.ancestry,
    ) + signature
}

/// What a node declares below a parent: itself, then the parent's ancestry.
pub open spec fn declared(
    node_addr: Seq<u8>,
    sequence: nat,
    timestamp: nat,
    parent: Seq<u8>,
    parent_ancestry: Seq<EntryModel>,
) -> AnnounceModel {
    AnnounceModel {
        parent,
        ancestry: seq![EntryModel { node_addr, sequence, timestamp }] + parent_ancestry,
    }
}

/// The signed TreeAnnounce of a node at a given time, in seconds.
pub open spec fn signed_announce(
    node_addr: Seq<u8>,
    secret: Seq<u8>,
    sequence: nat,
    timestamp: nat,
    parent: Seq<u8>,
    parent_ancestry: Seq<EntryModel>,
) -> Result<Seq<u8>, Seq<char>> {
    let hash = crypto::sha256(signing_bytes(node_addr, parent, sequence, timestamp))@;
    match crypto::bip340_signature(secret, hash) {
        None => Err("Schnorr sign failed: signature error"@),
        Some(signature) => Ok(
            announce_bytes(
                sequence,
                timestamp,
                declared(node_addr, sequence, timestamp, parent, parent_ancestry),
                signature@,
            ),
        ),
    }
}

/// Build a TreeAnnounce for a root node (parent = self, depth 0), dated by the system clock.
pub fn build_tree_announce(node_addr: &[u8; 16], secret_key: &SecretKey, sequence: u64) -> (r:
    Result<Vec<u8>, String>)
    ensures
        exists|t: nat|
            t <= u64::MAX / 1000 && text::bytes_result(r) == #[trigger] signed_announce(
                node_addr@,
                secret_key@,
                sequence as nat,
                t,
                node_addr@,
                Seq::empty(),
            ),
{
    build_tree_announce_at(node_addr, secret_key, sequence, wire::current_unix_secs())
}

/// Build a TreeAnnounce for a root node, dated in seconds.
pub fn build_tree_announce_at(
    node_addr: &[u8; 16],
    secret_key: &SecretKey,
    sequence: u64,
    timestamp: u64,
) -> (r: Result<Vec<u8>, String>)
    ensures
        text::bytes_result(r) == signed_announce(
            node_addr@,
            secret_key@,
            sequence as nat,
            timestamp as nat,
            node_addr@,
            Seq::empty(),
        ),
{
    let none: Vec<AncestryEntry> = Vec::new();
    assert(entries(none@) =~= Seq::<EntryModel>::empty());
    build_tree_announce_inner(
        node_addr,
        secret_key,
        sequence,
        timestamp,
        node_addr,
        none.as_slice(),
    )
}

/// Build a TreeAnnounce as a leaf of a parent node, dated by the system clock.
///
/// The ancestry will be `[self, ...parent_ancestry]`, and the declaration is signed with our own
/// key. This tells the gateway (and the rest of the mesh) that we share the same spanning tree
/// root.
pub fn build_tree_announce_as_leaf(
    node_addr: &[u8; 16],
    secret_key: &SecretKey,
    sequence: u64,
    parent_addr: &[u8; 16],
    parent_ancestry: &[AncestryEntry],
) -> (r: Result<Vec<u8>, String>)
    requires
        parent_ancestry@.len() < 65535,
    ensures
        exists|t: nat|
            t <= u64::MAX / 1000 && text::bytes_result(r) == #[trigger] signed_announce(
                node_addr@,
                secret_key@,
                sequence as nat,
                t,
                parent_addr@,
                entries(parent_ancestry@),
            ),
{
    build_tree_announce_inner(
        node_addr,
        secret_key,
        sequence,
        wire::current_unix_secs(),
        parent_addr,
        parent_ancestry,
    )
}

/// Shared builder for both root and leaf TreeAnnounce, dated in seconds.
///
/// The count field has 16 bits and includes the node itself, so the parent's ancestry must leave
/// room for one more entry.
pub fn build_tree_announce_inner(
    node_addr: &[u8; 16],
    secret_key: &SecretKey,
    sequence: u64,
    timestamp: u64,
    parent: &[u8; 16],
    parent_ancestry: &[AncestryEntry],
) -> (r: Result<Vec<u8>, String>)
    requires
        parent_ancestry@.len() < 65535,
    ensures
        text::bytes_result(r) == signed_announce(
            node_addr@,
            secret_key@,
            sequence as nat,
            timestamp as nat,
            parent@,
            entries(parent_ancestry@),
        ),
{
    let mut to_sign: Vec<u8> = bytes::to_vec(node_addr);
    bytes::append(&mut to_sign, parent);
    bytes::push_u64_le(&mut to_sign, sequence);
    bytes::push_u64_le(&mut to_sign, timestamp);
    let signing_hash = crypto::sha256_digest(to_sign.as_slice());
    let secret = secret_key.to_bytes();
    let signature = match crypto::schnorr_sign(&secret, &signing_hash) {
        Some(signature) => signature,
        None => return Err("Schnorr sign failed: signature error".to_string()),
    };
    Ok(
        tree_announce_payload(
            node_addr,
            sequence,
            timestamp,
            parent,
            parent_ancestry,
            &signature,
        ),
    )
}

/// The payload of a TreeAnnounce with a given signature.
pub fn tree_announce_payload(
    node_addr: &[u8; 16],
    sequence: u64,
    timestamp: u64,
    parent: &[u8; 16],
    parent_ancestry: &[AncestryEntry],
    signature: &[u8; 64],
) -> (r: Vec<u8>)
    requires
        parent_ancestry@.len() < 65535,
    ensures
        r@ == announce_bytes(
            sequence as nat,
            timestamp as nat,
            declared(
                node_addr@,
                sequence as nat,
                timestamp as nat,
                parent@,
                entries(parent_ancestry@),
            ),
            signature@,
        ),
{
    let ghost own = EntryModel {
        node_addr: node_addr@,
        sequence: sequence as nat,
        timestamp: timestamp as nat,
    };
    let ghost above = entries(parent_ancestry@);
    let ghost all = seq![own] + above;
    let mut payload: Vec<u8> = Vec::new();
    payload.push(wire::MSG_TYPE_TREE_ANNOUNCE);
    payload.push(VERSION_1);
    assert(payload@ =~= seq![wire::MSG_TYPE_TREE_ANNOUNCE, VERSION_1]);
    bytes::push_u64_le(&mut payload, sequence);
    bytes::push_u64_le(&mut payload, timestamp);
    bytes::append(&mut payload, parent);
    bytes::push_len_le(&mut payload, 1 + parent_ancestry.len());
    let ghost head = payload@;
    // ancestry[0]: self
    push_entry(&mut payload, &AncestryEntry { node_addr: *node_addr, sequence, timestamp });
    proof {
        reveal_with_fuel(entries_bytes, 2);
        assert(all.take(1).drop_last() =~= Seq::<EntryModel>::empty());
        assert(all.take(1).last() == own);
        assert(entries_bytes(all.take(1)) =~= entry_bytes(own));
    }
    // ancestry[1..]: parent's ancestry
    let mut i: usize = 0;
    while i < parent_ancestry.len()
        invariant
            i <= parent_ancestry.len(),
            above == entries(parent_ancestry@),
            all == seq![own] + above,
            payload@ == head + entries_bytes(all.take(i + 1)),
        decreases parent_ancestry.len() - i,
    {
        push_entry(&mut payload, &parent_ancestry[i]);
        proof {
            let next = all.take(i + 2);
            assert(next.drop_last() =~= all.take(i + 1));
            assert(next.last() == parent_ancestry@[i as int]@);
            assert(payload@ =~= head + entries_bytes(next));
        }
        i = i + 1;
    }
    assert(all.take(i + 1) =~= all);
    bytes::append(&mut payload, signature);
    payload
}

fn push_entry(out: &mut Vec<u8>, entry: &AncestryEntry)
    ensures
        final(out)@ == old(out)@ + entry_bytes(entry@),
{
    bytes::append(out, &entry.node_addr);
    bytes::push_u64_le(out, entry.sequence);
    bytes::push_u64_le(out, entry.timestamp);
    assert(out@ =~= old(out)@ + entry_bytes(entry@));
}

/// Whether ancestry entries fit their fields.
pub open spec fn entries_valid(list: Seq<EntryModel>) -> bool {
    forall|i: int|
        0 <= i < list.len() ==> (#[trigger] list[i]).node_addr.len() == 16 && list[i].sequence
            <= u64::MAX && list[i].timestamp <= u64::MAX
}

proof fn lemma_entries_at(list: Seq<EntryModel>, i: int)
    requires
        entries_valid(list),
    ensures
        entries_bytes(list).len() == 32 * list.len(),
        0 <= i < list.len() ==> entries_bytes(list).subrange(32 * i, 32 * i + 32) == entry_bytes(
            list[i],
        ),
    decreases list.len(),
{
    broadcast use bytes::lemma_le_bytes_len;

    if list.len() > 0 {
        let front = list.drop_last();
        assert(entries_valid(front)) by {
            assert forall|j: int| 0 <= j < front.len() implies (
            #[trigger] front[j]).node_addr.len() == 16 && front[j].sequence <= u64::MAX
                && front[j].timestamp <= u64::MAX by {
                assert(front[j] == list[j]);
            }
        }
        lemma_entries_at(front, i);
        assert(list[list.len() - 1].node_addr.len() == 16);
        if i == list.len() - 1 {
            assert(entries_bytes(list).subrange(32 * i, 32 * i + 32) =~= entry_bytes(list[i]));
        } else if 0 <= i < list.len() {
            assert(entries_bytes(list).subrange(32 * i, 32 * i + 32) =~= entries_bytes(
                front,
            ).subrange(32 * i, 32 * i + 32));
        }
    }
}

/// A TreeAnnounce is read back as it was declared.
pub proof fn law_announce_round_trip(
    sequence: nat,
    timestamp: nat,
    announce: AnnounceModel,
    signature: Seq<u8>,
)
    requires
        announce.parent.len() == 16,
        announce.ancestry.len() < 0x1_0000,
        entries_valid(announce.ancestry),
        signature.len() == 64,
    ensures
        parsed_announce(announce_bytes(sequence, timestamp, announce, signature).skip(1)) == Ok::<
            AnnounceModel,
            Seq<char>,
        >(announce),
{
    broadcast use bytes::lemma_le_bytes_len;

    let list = announce.ancestry;
    let payload = announce_bytes(sequence, timestamp, announce, signature).skip(1);
    bytes::lemma_le_integers(list.len() as u16, 0, 0);
    lemma_entries_at(list, 0);
    assert(payload.subrange(33, 35) =~= bytes::le_bytes(list.len(), 2));
    assert(payload.subrange(17, 33) =~= announce.parent);
    assert forall|i: int| 0 <= i < list.len() implies #[trigger] entry_at(payload, 35 + 32 * i)
        == list[i] by {
        lemma_entries_at(list, i);
        let e = list[i];
        let b = entry_bytes(e);
        assert(payload.subrange(35 + 32 * i, 67 + 32 * i) =~= entries_bytes(list).subrange(
            32 * i,
            32 * i + 32,
        ));
        let pos = 35 + 32 * i;
        bytes::lemma_le_integers(0, 0, e.sequence as u64);
        bytes::lemma_le_integers(0, 0, e.timestamp as u64);
        assert(payload.subrange(pos, pos + 16) =~= b.subrange(0, 16)) by {
            assert(payload.subrange(pos, pos + 16) =~= payload.subrange(pos, pos + 32).subrange(0, 16));
        }
        assert(payload.subrange(pos + 16, pos + 24) =~= b.subrange(16, 24)) by {
            assert(payload.subrange(pos + 16, pos + 24) =~= payload.subrange(
                pos,
                pos + 32,
            ).subrange(16, 24));
        }
        assert(payload.subrange(pos + 24, pos + 32) =~= b.subrange(24, 32)) by {
            assert(payload.subrange(pos + 24, pos + 32) =~= payload.subrange(
                pos,
                pos + 32,
            ).subrange(24, 32));
        }
        assert(b.subrange(0, 16) =~= e.node_addr);
        assert(b.subrange(16, 24) =~= bytes::le_bytes(e.sequence, 8));
        assert(b.subrange(24, 32) =~= bytes::le_bytes(e.timestamp, 8));
    }
    assert(Seq::new(list.len(), |i: int| entry_at(payload, 35 + 32 * i)) =~= list);
}

/// The announce of a root node declares itself as its own parent and only ancestor.
pub proof fn law_root_announces_itself(node_addr: Seq<u8>, sequence: nat, timestamp: nat)
    ensures
        declared(node_addr, sequence, timestamp, node_addr, Seq::empty()).parent == node_addr,
        declared(node_addr, sequence, timestamp, node_addr, Seq::empty()).ancestry == seq![
            EntryModel { node_addr, sequence, timestamp },
        ],
{
    assert(declared(node_addr, sequence, timestamp, node_addr, Seq::empty()).ancestry =~= seq![
        EntryModel { node_addr, sequence, timestamp },
    ]);
}

/// What is signed has 48 bytes, for a root and for a leaf alike: the node address, the parent, and
/// the sequence and the timestamp with their lowest byte first.
pub proof fn law_signed_fields(
    node_addr: Seq<u8>,
    parent: Seq<u8>,
    sequence: nat,
    timestamp: nat,
)
    requires
        node_addr.len() == 16,
        parent.len() == 16,
        sequence <= u64::MAX,
        timestamp <= u64::MAX,
    ensures
        ({
            let b = signing_bytes(node_addr, parent, sequence, timestamp);
            &&& b.len() == 48
            &&& b.subrange(0, 16) == node_addr
            &&& b.subrange(16, 32) == parent
            &&& b[32] + 0x100 * b[33] + 0x1_0000 * b[34] + 0x100_0000 * b[35] + 0x1_0000_0000
                * b[36] + 0x100_0000_0000 * b[37] + 0x1_0000_0000_0000 * b[38]
                + 0x100_0000_0000_0000 * b[39] == sequence
            &&& b[40] + 0x100 * b[41] + 0x1_0000 * b[42] + 0x100_0000 * b[43] + 0x1_0000_0000
                * b[44] + 0x100_0000_0000 * b[45] + 0x1_0000_0000_0000 * b[46]
                + 0x100_0000_0000_0000 * b[47] == timestamp
        }),
{
    bytes::lemma_le_integers(0, 0, sequence as u64);
    bytes::lemma_le_integers(0, 0, timestamp as u64);
    let b = signing_bytes(node_addr, parent, sequence, timestamp);
    assert(b.subrange(0, 16) =~= node_addr);
    assert(b.subrange(16, 32) =~= parent);
    let (x, y) = (bytes::le_bytes(sequence, 8), bytes::le_bytes(timestamp, 8));
    assert(b.subrange(32, 40) =~= x);
    assert(b.subrange(40, 48) =~= y);
    bytes::law_le_value_weighs_bytes(x);
    bytes::law_le_value_weighs_bytes(y);
    assert(forall|i: int| 0 <= i < 8 ==> #[trigger] x[i] == b[32 + i]);
    assert(forall|i: int| 0 <= i < 8 ==> #[trigger] y[i] == b[40 + i]);
}

/// The 64 bytes at the end of an announce are the node's signature over the digest of what the
/// announce itself shows: the address of its first entry, its parent, its sequence and its
/// timestamp, root or leaf. Without a signature there is no announce.
pub proof fn law_announce_signs_its_fields(
    node_addr: Seq<u8>,
    secret: Seq<u8>,
    sequence: nat,
    timestamp: nat,
    parent: Seq<u8>,
    parent_ancestry: Seq<EntryModel>,
)
    requires
        node_addr.len() == 16,
        parent.len() == 16,
        sequence <= u64::MAX,
        timestamp <= u64::MAX,
        parent_ancestry.len() < 65535,
        entries_valid(parent_ancestry),
    ensures
        ({
            let r = signed_announce(
                node_addr,
                secret,
                sequence,
                timestamp,
                parent,
                parent_ancestry,
            );
            let a = r->Ok_0;
            let digest = crypto::sha256(
                a.subrange(36, 52) + a.subrange(18, 34) + a.subrange(2, 10) + a.subrange(10, 18),
            )@;
            &&& r is Ok ==> crypto::bip340_signature(secret, digest) is Some
            &&& r is Ok ==> crypto::bip340_signature(secret, digest)->0@ == a.skip(a.len() - 64)
            &&& r is Err ==> r->Err_0 == "Schnorr sign failed: signature error"@
            &&& r is Err <==> crypto::bip340_signature(
                secret,
                crypto::sha256(
                    node_addr + parent + bytes::le_bytes(sequence, 8) + bytes::le_bytes(
                        timestamp,
                        8,
                    ),
                )@,
            ) is None
        }),
{
    broadcast use bytes::lemma_le_bytes_len;

    let announce = declared(node_addr, sequence, timestamp, parent, parent_ancestry);
    let r = signed_announce(node_addr, secret, sequence, timestamp, parent, parent_ancestry);
    if r is Ok {
        let hash = crypto::sha256(signing_bytes(node_addr, parent, sequence, timestamp))@;
        let signature = crypto::bip340_signature(secret, hash)->0@;
        let a = r->Ok_0;
        law_announce_layout(node_addr, sequence, timestamp, parent, parent_ancestry, signature);
        assert(a.subrange(36, 52) + a.subrange(18, 34) + a.subrange(2, 10) + a.subrange(10, 18)
            =~= signing_bytes(node_addr, parent, sequence, timestamp));
    }
}

/// Where everything stands in an announce: type, version, sequence, timestamp, parent and count
/// in front; then 32 bytes for the node itself and for each of its parent's entries, in order;
/// then the signature. The count is that of all entries.
pub proof fn law_announce_layout(
    node_addr: Seq<u8>,
    sequence: nat,
    timestamp: nat,
    parent: Seq<u8>,
    parent_ancestry: Seq<EntryModel>,
    signature: Seq<u8>,
)
    requires
        node_addr.len() == 16,
        parent.len() == 16,
        sequence <= u64::MAX,
        timestamp <= u64::MAX,
        parent_ancestry.len() < 65535,
        entries_valid(parent_ancestry),
        signature.len() == 64,
    ensures
        ({
            let n = parent_ancestry.len() as int;
            let a = announce_bytes(
                sequence,
                timestamp,
                declared(node_addr, sequence, timestamp, parent, parent_ancestry),
                signature,
            );
            &&& a.len() == 36 + 32 * (n + 1) + 64
            &&& a[0] == 0x10
            &&& a[1] == 1
            &&& a.subrange(2, 10) == bytes::le_bytes(sequence, 8)
            &&& a.subrange(10, 18) == bytes::le_bytes(timestamp, 8)
            &&& a.subrange(18, 34) == parent
            &&& a.subrange(34, 36) == bytes::le_bytes((n + 1) as nat, 2)
            &&& a.subrange(36, 52) == node_addr
            &&& a.subrange(52, 60) == bytes::le_bytes(sequence, 8)
            &&& a.subrange(60, 68) == bytes::le_bytes(timestamp, 8)
            &&& forall|i: int|
                0 <= i < n ==> {
                    let pos = 68 + 32 * i;
                    let entry = #[trigger] parent_ancestry[i];
                    &&& a.subrange(pos, pos + 16) == entry.node_addr
                    &&& a.subrange(pos + 16, pos + 24) == bytes::le_bytes(entry.sequence, 8)
                    &&& a.subrange(pos + 24, pos + 32) == bytes::le_bytes(entry.timestamp, 8)
                }
            &&& a.skip(a.len() - 64) == signature
        }),
{
    broadcast use bytes::lemma_le_bytes_len;

    let n = parent_ancestry.len() as int;
    let announce = declared(node_addr, sequence, timestamp, parent, parent_ancestry);
    let list = announce.ancestry;
    let a = announce_bytes(sequence, timestamp, announce, signature);
    let own = EntryModel { node_addr, sequence, timestamp };
    assert forall|i: int| 0 <= i < list.len() implies (#[trigger] list[i]).node_addr.len() == 16
        && list[i].sequence <= u64::MAX && list[i].timestamp <= u64::MAX by {
        if i > 0 {
            assert(list[i] == parent_ancestry[i - 1]);
        }
    }
    lemma_entries_at(list, 0);
    assert(a.subrange(2, 10) =~= bytes::le_bytes(sequence, 8));
    assert(a.subrange(10, 18) =~= bytes::le_bytes(timestamp, 8));
    assert(a.subrange(18, 34) =~= parent);
    assert(a.subrange(34, 36) =~= bytes::le_bytes((n + 1) as nat, 2));
    assert(a.skip(a.len() - 64) =~= signature);
    assert(a.skip(36) =~= entries_bytes(list) + signature);
    lemma_entry_stands(a, list, signature, 0);
    assert forall|i: int| 0 <= i < n implies ({
        let pos = 68 + 32 * i;
        let entry = #[trigger] parent_ancestry[i];
        &&& a.subrange(pos, pos + 16) == entry.node_addr
        &&& a.subrange(pos + 16, pos + 24) == bytes::le_bytes(entry.sequence, 8)
        &&& a.subrange(pos + 24, pos + 32) == bytes::le_bytes(entry.timestamp, 8)
    }) by {
        assert(list[i + 1] == parent_ancestry[i]);
        lemma_entry_stands(a, list, signature, i + 1);
    }
}

proof fn lemma_entry_stands(a: Seq<u8>, list: Seq<EntryModel>, signature: Seq<u8>, i: int)
    requires
        entries_valid(list),
        0 <= i < list.len(),
        a.len() == 36 + 32 * list.len() + signature.len(),
        a.skip(36) == entries_bytes(list) + signature,
    ensures
        ({
            let pos = 36 + 32 * i;
            &&& a.subrange(pos, pos + 16) == list[i].node_addr
            &&& a.subrange(pos + 16, pos + 24) == bytes::le_bytes(list[i].sequence, 8)
            &&& a.subrange(pos + 24, pos + 32) == bytes::le_bytes(list[i].timestamp, 8)
        }),
{
    broadcast use bytes::lemma_le_bytes_len;

    lemma_entries_at(list, i);
    let pos = 36 + 32 * i;
    let b = entry_bytes(list[i]);
    assert(list[i].node_addr.len() == 16);
    assert(a.subrange(pos, pos + 32) =~= a.skip(36).subrange(32 * i, 32 * i + 32));
    assert(a.subrange(pos, pos + 32) =~= b) by {
        assert(a.skip(36).subrange(32 * i, 32 * i + 32) =~= entries_bytes(list).subrange(
            32 * i,
            32 * i + 32,
        ));
    }
    assert(a.subrange(pos, pos + 16) =~= a.subrange(pos, pos + 32).subrange(0, 16));
    assert(a.subrange(pos + 16, pos + 24) =~= a.subrange(pos, pos + 32).subrange(16, 24));
    assert(a.subrange(pos + 24, pos + 32) =~= a.subrange(pos, pos + 32).subrange(24, 32));
    assert(b.subrange(0, 16) =~= list[i].node_addr);
    assert(b.subrange(16, 24) =~= bytes::le_bytes(list[i].sequence, 8));
    assert(b.subrange(24, 32) =~= bytes::le_bytes(list[i].timestamp, 8));
}

/// What is read of a TreeAnnounce, byte by byte: it must have 99 bytes, version 1 and room for as
/// many entries as it counts and for a signature; then the parent and the entries stand at fixed
/// places. Bytes behind the signature do no harm.
pub proof fn law_announce_is_read_in_place(payload: Seq<u8>)
    requires
        payload.len() >= 99,
    ensures
        ({
            let r = parsed_announce(payload);
            let count = payload[33] + 0x100 * payload[34];
            let a = r->Ok_0;
            &&& r is Ok <==> payload[0] == 1 && payload.len() >= 35 + 32 * count + 64
            &&& r is Ok ==> a.parent == payload.subrange(17, 33)
            &&& r is Ok ==> a.ancestry.len() == count
            &&& r is Ok ==> forall|i: int|
                0 <= i < count ==> {
                    let pos = 35 + 32 * i;
                    let entry = #[trigger] a.ancestry[i];
                    &&& entry.node_addr == payload.subrange(pos, pos + 16)
                    &&& bytes::le_bytes(entry.sequence, 8) == payload.subrange(pos + 16, pos + 24)
                    &&& bytes::le_bytes(entry.timestamp, 8) == payload.subrange(
                        pos + 24,
                        pos + 32,
                    )
                }
        }),
{
    bytes::law_le_value_weighs_bytes(payload.subrange(33, 35));
    let r = parsed_announce(payload);
    let count = payload[33] + 0x100 * payload[34];
    if r is Ok {
        assert forall|i: int| 0 <= i < count implies ({
            let pos = 35 + 32 * i;
            let entry = #[trigger] r->Ok_0.ancestry[i];
            &&& entry.node_addr == payload.subrange(pos, pos + 16)
            &&& bytes::le_bytes(entry.sequence, 8) == payload.subrange(pos + 16, pos + 24)
            &&& bytes::le_bytes(entry.timestamp, 8) == payload.subrange(pos + 24, pos + 32)
        }) by {
            let pos = 35 + 32 * i;
            bytes::lemma_le_bytes_of_value(payload.subrange(pos + 16, pos + 24));
            bytes::lemma_le_bytes_of_value(payload.subrange(pos + 24, pos + 32));
        }
    }
}

} // verus!

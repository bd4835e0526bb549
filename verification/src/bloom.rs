//! Bloom filter and FilterAnnounce builder.
//!
//! The FIPS v1 bloom filter: 8192 bits (1024 bytes), 5 hash functions, SHA-256 double hashing.

use crate::bytes;
use crate::crypto;
use crate::wire;
use vstd::prelude::*;

verus! {

/// Number of hash functions (v1).
pub const HASH_COUNT: u8 = 5;

/// Size class for v1 filters (512 << 1 = 1024 bytes).
pub const SIZE_CLASS: u8 = 1;

/// Filter size in bytes (v1).
pub const FILTER_BYTES: usize = 1024;

/// Filter size in bits (v1).
pub const FILTER_BITS: usize = 8192;

/// The bit that hash function `k` chooses for a digest: `(h1 + k * h2) % 8192`, where `h1` and
/// `h2` are the first two little-endian 64-bit words of the digest.
pub open spec fn digest_index(digest: Seq<u8>, k: nat) -> nat {
    (bytes::le_value(digest.subrange(0, 8)) + k * bytes::le_value(digest.subrange(8, 16)))
        % (FILTER_BITS as nat)
}

/// The first `n` bits that are chosen for a digest.
pub open spec fn digest_indices(digest: Seq<u8>, n: nat) -> Set<nat>
    decreases n,
{
    if n == 0 {
        Set::empty()
    } else {
        digest_indices(digest, (n - 1) as nat).insert(digest_index(digest, (n - 1) as nat))
    }
}

/// The bits that are chosen for some data: those of its SHA-256 digest.
pub open spec fn filter_indices(data: Seq<u8>) -> Set<nat> {
    digest_indices(crypto::sha256(data)@, HASH_COUNT as nat)
}

/// The filter after inserting some data: the five chosen bits are set.
pub open spec fn filter_inserted(bits: Set<nat>, data: Seq<u8>) -> Set<nat> {
    bits.union(filter_indices(data))
}

/// Whether all bits chosen for some data are set.
pub open spec fn filter_may_hold(bits: Set<nat>, data: Seq<u8>) -> bool {
    filter_indices(data).subset_of(bits)
}

/// One byte of a filter, bit 0 lowest.
pub open spec fn filter_byte(bits: Set<nat>, j: int) -> u8 {
    (place(bits, j, 0) + place(bits, j, 1) + place(bits, j, 2) + place(bits, j, 3) + place(
        bits,
        j,
        4,
    ) + place(bits, j, 5) + place(bits, j, 6) + place(bits, j, 7)) as u8
}

/// What bit `b` of byte `j` adds to the byte.
pub open spec fn place(bits: Set<nat>, j: int, b: int) -> int {
    if bits.contains((8 * j + b) as nat) {
        if b == 0 {
            1
        } else if b == 1 {
            2
        } else if b == 2 {
            4
        } else if b == 3 {
            8
        } else if b == 4 {
            16
        } else if b == 5 {
            32
        } else if b == 6 {
            64
        } else {
            128
        }
    } else {
        0
    }
}

/// The 1024 bytes of a filter.
pub open spec fn filter_bytes(bits: Set<nat>) -> Seq<u8> {
    Seq::new(FILTER_BYTES as nat, |j: int| filter_byte(bits, j))
}

/// Whether bit `i` is set in a row of bytes.
spec fn bit(row: Seq<u8>, i: int) -> bool {
    (row[i / 8] >> ((i % 8) as u8)) & 1 == 1
}

/// A v1 FIPS bloom filter (8192 bits, 5 hash functions, SHA-256 double hashing).
pub struct BloomFilter {
    bits: [u8; 1024],
}

impl View for BloomFilter {
    type V = Set<nat>;

    closed spec fn view(&self) -> Set<nat> {
        Set::new(|i: nat| i < FILTER_BITS && bit(self.bits@, i as int))
    }
}

impl BloomFilter {
    /// Create a new empty bloom filter.
    pub fn new() -> (r: Self)
        ensures
            r@ == Set::<nat>::empty(),
    {
        let r = Self { bits: [0u8; 1024] };
        proof {
            assert forall|i: int| 0 <= i < FILTER_BITS implies !bit(r.bits@, i) by {
                let b = (i % 8) as u8;
                assert((0u8 >> b) & 1 == 0) by (bit_vector);
            }
            assert(r@ =~= Set::empty());
        }
        r
    }

    /// Insert a node address (16 bytes) into the filter.
    pub fn insert(&mut self, data: &[u8; 16])
        ensures
            final(self)@ == filter_inserted(old(self)@, data@),
    {
        self.insert_digest(&crypto::sha256_digest(data));
    }

    /// Set the bits that a digest chooses, one for each hash function.
    pub fn insert_digest(&mut self, digest: &[u8; 32])
        ensures
            final(self)@ == old(self)@.union(digest_indices(digest@, HASH_COUNT as nat)),
    {
        let h1: u64 = bytes::u64_le_at(digest, 0);
        let h2: u64 = bytes::u64_le_at(digest, 8);
        let step: u64 = h2 % 8192;
        let mut index: u64 = h1 % 8192;
        let mut k: u8 = 0;
        assert(self@ =~= old(self)@.union(digest_indices(digest@, 0)));
        proof {
            assert(0 * h2 == 0);
        }
        while k < HASH_COUNT
            invariant
                k <= HASH_COUNT,
                h1 == bytes::le_value(digest@.subrange(0, 8)),
                h2 == bytes::le_value(digest@.subrange(8, 16)),
                step == h2 % 8192,
                index == digest_index(digest@, k as nat),
                self@ == old(self)@.union(digest_indices(digest@, k as nat)),
            decreases HASH_COUNT - k,
        {
            self.set_bit(index as usize);
            proof {
                assert(self@ =~= old(self)@.union(digest_indices(digest@, (k + 1) as nat)));
                assert((k + 1) * h2 == k * h2 + h2) by (nonlinear_arith);
            }
            index = (index + step) % 8192;
            k = k + 1;
        }
    }

    fn set_bit(&mut self, i: usize)
        requires
            i < FILTER_BITS,
        ensures
            final(self)@ == old(self)@.insert(i as nat),
    {
        let byte_index: usize = i / 8;
        let offset: u8 = (i % 8) as u8;
        let ghost before = self.bits@;
        let byte: u8 = self.bits[byte_index];
        self.bits[byte_index] = byte | (1u8 << offset);
        proof {
            assert forall|e: int| 0 <= e < FILTER_BITS implies #[trigger] bit(self.bits@, e) == (e
                == i || bit(before, e)) by {
                let b = (e % 8) as u8;
                assert(((byte | (1u8 << offset)) >> b) & 1 == (if b == offset {
                    1
                } else {
                    (byte >> b) & 1
                })) by (bit_vector)
                    requires
                        b < 8,
                        offset < 8,
                ;
                assert((e / 8 == i / 8 && e % 8 == i % 8) == (e == i));
            }
            assert forall|c: nat| self@.contains(c) == old(self)@.insert(i as nat).contains(c) by {
                if c < FILTER_BITS {
                    assert(bit(self.bits@, c as int) == (c == i || bit(before, c as int)));
                }
            }
            assert(self@ =~= old(self)@.insert(i as nat));
        }
    }

    /// Get the raw filter bytes.
    pub fn as_bytes(&self) -> (r: &[u8; 1024])
        ensures
            r@ == filter_bytes(self@),
    {
        proof {
            assert forall|j: int| 0 <= j < FILTER_BYTES implies self.bits@[j] == filter_byte(
                self@,
                j,
            ) by {
                let x = self.bits@[j];
                assert(x == ((x >> 0) & 1) + 2 * ((x >> 1) & 1) + 4 * ((x >> 2) & 1) + 8 * ((x >> 3)
                    & 1) + 16 * ((x >> 4) & 1) + 32 * ((x >> 5) & 1) + 64 * ((x >> 6) & 1) + 128
                    * ((x >> 7) & 1) && (x >> 0) & 1 <= 1 && (x >> 1) & 1 <= 1 && (x >> 2) & 1 <= 1
                    && (x >> 3) & 1 <= 1 && (x >> 4) & 1 <= 1 && (x >> 5) & 1 <= 1 && (x >> 6) & 1
                    <= 1 && (x >> 7) & 1 <= 1) by (bit_vector);
                assert forall|b: int| 0 <= b < 8 implies #[trigger] self@.contains(
                    (8 * j + b) as nat,
                ) == ((x >> (b as u8)) & 1 == 1) by {
                    assert((8 * j + b) / 8 == j && (8 * j + b) % 8 == b);
                }
                assert(self@.contains((8 * j + 0) as nat) == ((x >> 0) & 1 == 1));
                assert(self@.contains((8 * j + 1) as nat) == ((x >> 1) & 1 == 1));
                assert(self@.contains((8 * j + 2) as nat) == ((x >> 2) & 1 == 1));
                assert(self@.contains((8 * j + 3) as nat) == ((x >> 3) & 1 == 1));
                assert(self@.contains((8 * j + 4) as nat) == ((x >> 4) & 1 == 1));
                assert(self@.contains((8 * j + 5) as nat) == ((x >> 5) & 1 == 1));
                assert(self@.contains((8 * j + 6) as nat) == ((x >> 6) & 1 == 1));
                assert(self@.contains((8 * j + 7) as nat) == ((x >> 7) & 1 == 1));
            }
            assert(self.bits@ =~= filter_bytes(self@));
        }
        &self.bits
    }
}

/// A FilterAnnounce:
/// `[msg_type:1][sequence:8 LE][hash_count:1][size_class:1][filter_bits:1024]`
pub open spec fn filter_announce(bits: Set<nat>, sequence: nat) -> Seq<u8> {
    seq![wire::MSG_TYPE_FILTER_ANNOUNCE] + bytes::le_bytes(sequence, 8) + seq![
        HASH_COUNT,
        SIZE_CLASS,
    ] + filter_bytes(bits)
}

/// Build a FilterAnnounce payload of 1035 bytes.
///
/// Returns the payload bytes (starting with msg_type 0x20) to be wrapped in an FMP encrypted
/// frame.
pub fn build_filter_announce(filter: &BloomFilter, sequence: u64) -> (r: Vec<u8>)
    ensures
        r@ == filter_announce(filter@, sequence as nat),
        r@.len() == 1035,
{
    broadcast use bytes::lemma_le_bytes_len;

    let mut payload: Vec<u8> = Vec::with_capacity(1035);
    payload.push(wire::MSG_TYPE_FILTER_ANNOUNCE);
    assert(payload@ =~= seq![wire::MSG_TYPE_FILTER_ANNOUNCE]);
    bytes::push_u64_le(&mut payload, sequence);
    let ghost before = payload@;
    payload.push(HASH_COUNT);
    payload.push(SIZE_CLASS);
    assert(payload@ =~= before + seq![HASH_COUNT, SIZE_CLASS]);
    bytes::append(&mut payload, filter.as_bytes());
    payload
}

/// Build a FilterAnnounce containing just a single node address.
pub fn build_self_filter_announce(node_addr: &[u8; 16], sequence: u64) -> (r: Vec<u8>)
    ensures
        r@ == filter_announce(filter_inserted(Set::empty(), node_addr@), sequence as nat),
        r@.len() == 1035,
{
    let mut filter = BloomFilter::new();
    filter.insert(node_addr);
    build_filter_announce(&filter, sequence)
}

/// What was inserted is found: there are no false negatives, and later insertions keep it so.
pub proof fn law_inserted_is_found(bits: Set<nat>, data: Seq<u8>, later: Seq<u8>)
    ensures
        filter_may_hold(filter_inserted(bits, data), data),
        filter_may_hold(filter_inserted(filter_inserted(bits, data), later), data),
{
}

/// Inserting never clears a bit.
pub proof fn law_insert_keeps_bits(bits: Set<nat>, data: Seq<u8>)
    ensures
        bits.subset_of(filter_inserted(bits, data)),
{
}

/// Inserting twice is inserting once.
pub proof fn law_insert_idempotent(bits: Set<nat>, data: Seq<u8>)
    ensures
        filter_inserted(filter_inserted(bits, data), data) == filter_inserted(bits, data),
{
    assert(filter_inserted(filter_inserted(bits, data), data) =~= filter_inserted(bits, data));
}

/// The order of insertions does not matter.
pub proof fn law_insert_commutes(bits: Set<nat>, a: Seq<u8>, b: Seq<u8>)
    ensures
        filter_inserted(filter_inserted(bits, a), b) == filter_inserted(
            filter_inserted(bits, b),
            a,
        ),
{
    assert(filter_inserted(filter_inserted(bits, a), b) =~= filter_inserted(
        filter_inserted(bits, b),
        a,
    ));
}

proof fn lemma_byte_shows_bits(bits: Set<nat>, i: int)
    requires
        0 <= i < 8192,
    ensures
        (filter_bytes(bits)[i / 8] >> ((i % 8) as u8)) & 1 == 1 <==> bits.contains(i as nat),
{
    let j = i / 8;
    let b = i % 8;
    let x = filter_byte(bits, j);
    assert(8 * j + b == i);
    let (c0, c1, c2, c3) = (
        bits.contains((8 * j + 0) as nat),
        bits.contains((8 * j + 1) as nat),
        bits.contains((8 * j + 2) as nat),
        bits.contains((8 * j + 3) as nat),
    );
    let (c4, c5, c6, c7) = (
        bits.contains((8 * j + 4) as nat),
        bits.contains((8 * j + 5) as nat),
        bits.contains((8 * j + 6) as nat),
        bits.contains((8 * j + 7) as nat),
    );
    let v0: u8 = if c0 { 1 } else { 0 };
    let v1: u8 = if c1 { 2 } else { 0 };
    let v2: u8 = if c2 { 4 } else { 0 };
    let v3: u8 = if c3 { 8 } else { 0 };
    let v4: u8 = if c4 { 16 } else { 0 };
    let v5: u8 = if c5 { 32 } else { 0 };
    let v6: u8 = if c6 { 64 } else { 0 };
    let v7: u8 = if c7 { 128 } else { 0 };
    assert(x == v0 + v1 + v2 + v3 + v4 + v5 + v6 + v7);
    let s = b as u8;
    assert((x >> s) & 1 == (if s == 0 {
        v0
    } else if s == 1 {
        v1 / 2
    } else if s == 2 {
        v2 / 4
    } else if s == 3 {
        v3 / 8
    } else if s == 4 {
        v4 / 16
    } else if s == 5 {
        v5 / 32
    } else if s == 6 {
        v6 / 64
    } else {
        v7 / 128
    })) by (bit_vector)
        requires
            x == v0 + v1 + v2 + v3 + v4 + v5 + v6 + v7,
            s < 8,
            v0 == 0 || v0 == 1,
            v1 == 0 || v1 == 2,
            v2 == 0 || v2 == 4,
            v3 == 0 || v3 == 8,
            v4 == 0 || v4 == 16,
            v5 == 0 || v5 == 32,
            v6 == 0 || v6 == 64,
            v7 == 0 || v7 == 128,
    ;
}

/// Inserting a digest sets, in the bytes of the filter, bit `(h1 + k * h2) % 8192` for each `k`
/// below five and no other, where `h1` and `h2` are the first and the second eight bytes of the
/// digest as they are, lowest byte first. Bit `i` is bit `i % 8` of byte `i / 8`.
pub proof fn law_digest_sets_its_bits(bits: Set<nat>, digest: Seq<u8>, i: int)
    requires
        digest.len() == 32,
        0 <= i < 8192,
    ensures
        ({
            let h1 = digest[0] + 0x100 * digest[1] + 0x1_0000 * digest[2] + 0x100_0000 * digest[3]
                + 0x1_0000_0000 * digest[4] + 0x100_0000_0000 * digest[5] + 0x1_0000_0000_0000
                * digest[6] + 0x100_0000_0000_0000 * digest[7];
            let h2 = digest[8] + 0x100 * digest[9] + 0x1_0000 * digest[10] + 0x100_0000
                * digest[11] + 0x1_0000_0000 * digest[12] + 0x100_0000_0000 * digest[13]
                + 0x1_0000_0000_0000 * digest[14] + 0x100_0000_0000_0000 * digest[15];
            let before = filter_bytes(bits);
            let after = filter_bytes(bits.union(digest_indices(digest, HASH_COUNT as nat)));
            &&& before.len() == 1024
            &&& after.len() == 1024
            &&& (after[i / 8] >> ((i % 8) as u8)) & 1 == 1 <==> {
                ||| (before[i / 8] >> ((i % 8) as u8)) & 1 == 1
                ||| i == h1 % 8192
                ||| i == (h1 + h2) % 8192
                ||| i == (h1 + 2 * h2) % 8192
                ||| i == (h1 + 3 * h2) % 8192
                ||| i == (h1 + 4 * h2) % 8192
            }
        }),
{
    let (a, b) = (digest.subrange(0, 8), digest.subrange(8, 16));
    bytes::law_le_value_weighs_bytes(a);
    bytes::law_le_value_weighs_bytes(b);
    let h1 = bytes::le_value(a);
    let h2 = bytes::le_value(b);
    reveal_with_fuel(digest_indices, 6);
    assert(0 * h2 == 0 && 1 * h2 == h2);
    lemma_byte_shows_bits(bits, i);
    lemma_byte_shows_bits(bits.union(digest_indices(digest, HASH_COUNT as nat)), i);
}

/// Inserting data is inserting its SHA-256 digest.
pub proof fn law_data_is_inserted_by_digest(bits: Set<nat>, data: Seq<u8>)
    ensures
        filter_inserted(bits, data) == bits.union(
            digest_indices(crypto::sha256(data)@, HASH_COUNT as nat),
        ),
{
}

/// An empty filter has 1024 zero bytes.
pub proof fn law_empty_filter_is_zero(j: int)
    requires
        0 <= j < 1024,
    ensures
        filter_bytes(Set::empty()).len() == 1024,
        filter_bytes(Set::empty())[j] == 0,
{
}

/// Where everything stands in a FilterAnnounce.
pub proof fn law_filter_announce_layout(bits: Set<nat>, sequence: nat)
    ensures
        ({
            let a = filter_announce(bits, sequence);
            &&& a.len() == 1035
            &&& a[0] == 0x20
            &&& a.subrange(1, 9) == bytes::le_bytes(sequence, 8)
            &&& a[9] == 5
            &&& a[10] == 1
            &&& a.skip(11) == filter_bytes(bits)
        }),
{
    broadcast use bytes::lemma_le_bytes_len;

    let a = filter_announce(bits, sequence);
    assert(a.subrange(1, 9) =~= bytes::le_bytes(sequence, 8));
    assert(a.skip(11) =~= filter_bytes(bits));
}

} // verus!

//! What the carriers of link packets have in common.
//!
//! A carrier owns sockets and tasks, which live outside. What it decides stands here: when it may
//! start and stop, where a packet for an address goes, which connection attempts are under way,
//! and what becomes of them. Sockets and tasks are known by a handle, a number that whoever runs
//! them chooses.

use crate::bytes;
use crate::crypto;
use crate::text;
use vstd::prelude::*;

pub mod links;
pub mod websocket;
pub mod webtransport;

verus! {

// ============================================================================
// Addresses and packets
// ============================================================================

/// Unique transport identifier.
#[derive(Clone, Copy, PartialEq, Eq, Debug, Structural)]
pub struct TransportId(pub u32);

/// A transport-specific address. Most are text, but any bytes will do.
pub struct TransportAddr {
    pub bytes: Vec<u8>,
}

impl View for TransportAddr {
    type V = Seq<u8>;

    open spec fn view(&self) -> Seq<u8> {
        self.bytes@
    }
}

/// How an address is written in messages: as text, if it is UTF-8, else in hexadecimal.
pub open spec fn shown_addr(addr: Seq<u8>) -> Seq<char> {
    if vstd::utf8::valid_utf8(addr) {
        vstd::utf8::decode_utf8(addr)
    } else {
        text::hex_text(addr)
    }
}

impl TransportAddr {
    /// The address that a text names.
    pub fn from_string(s: &str) -> (r: Self)
        ensures
            r@ == vstd::utf8::encode_utf8(s@),
    {
        Self { bytes: bytes::to_vec(s.as_bytes()) }
    }

    /// The address as text, if it is UTF-8.
    pub fn as_str(&self) -> (r: Option<String>)
        ensures
            r is Some <==> vstd::utf8::valid_utf8(self@),
            r matches Some(t) ==> t@ == vstd::utf8::decode_utf8(self@),
    {
        text::utf8_text(self.bytes.as_slice())
    }

    /// The address as it is written in messages.
    pub fn shown(&self) -> (r: String)
        ensures
            r@ == shown_addr(self@),
    {
        match self.as_str() {
            Some(t) => t,
            None => crypto::hex_encode(self.bytes.as_slice()),
        }
    }

    /// A copy of the address.
    pub fn copy(&self) -> (r: Self)
        ensures
            r@ == self@,
    {
        Self { bytes: bytes::to_vec(self.bytes.as_slice()) }
    }
}

/// A packet that a carrier received.
pub struct ReceivedPacket {
    pub transport_id: TransportId,
    pub remote_addr: TransportAddr,
    pub data: Vec<u8>,
}

/// A peer that a carrier found by itself.
pub struct DiscoveredPeer {
    pub addr: TransportAddr,
}

// ============================================================================
// States and errors
// ============================================================================

/// Where a transport is in its life.
#[derive(Clone, Copy, PartialEq, Eq, Debug, Structural)]
pub enum TransportState {
    Configured,
    Starting,
    Up,
    Down,
}

impl TransportState {
    /// Whether the transport may be started.
    pub open spec fn startable(self) -> bool {
        self is Configured || self is Down
    }

    /// Whether the transport may be started: it never was, or it was stopped.
    pub fn can_start(&self) -> (r: bool)
        ensures
            r == self.startable(),
    {
        match self {
            TransportState::Configured | TransportState::Down => true,
            TransportState::Starting | TransportState::Up => false,
        }
    }

    /// Whether the transport carries packets.
    pub fn is_operational(&self) -> (r: bool)
        ensures
            r == (self is Up),
    {
        match self {
            TransportState::Up => true,
            _ => false,
        }
    }
}

/// What can go wrong in a transport.
pub enum TransportError {
    NotStarted,
    AlreadyStarted,
    StartFailed(String),
    SendFailed(String),
    InvalidAddress(String),
    ConnectionRefused,
    Timeout,
    NotSupported(String),
}

/// A transport error as its value.
pub enum ErrorModel {
    NotStarted,
    AlreadyStarted,
    StartFailed(Seq<char>),
    SendFailed(Seq<char>),
    InvalidAddress(Seq<char>),
    ConnectionRefused,
    Timeout,
    NotSupported(Seq<char>),
}

impl View for TransportError {
    type V = ErrorModel;

    open spec fn view(&self) -> ErrorModel {
        match self {
            TransportError::NotStarted => ErrorModel::NotStarted,
            TransportError::AlreadyStarted => ErrorModel::AlreadyStarted,
            TransportError::StartFailed(m) => ErrorModel::StartFailed(m@),
            TransportError::SendFailed(m) => ErrorModel::SendFailed(m@),
            TransportError::InvalidAddress(m) => ErrorModel::InvalidAddress(m@),
            TransportError::ConnectionRefused => ErrorModel::ConnectionRefused,
            TransportError::Timeout => ErrorModel::Timeout,
            TransportError::NotSupported(m) => ErrorModel::NotSupported(m@),
        }
    }
}

/// An error in words.
pub open spec fn error_text(e: ErrorModel) -> Seq<char> {
    match e {
        ErrorModel::NotStarted => "transport not started"@,
        ErrorModel::AlreadyStarted => "transport already started"@,
        ErrorModel::StartFailed(m) => "transport failed to start: "@ + m,
        ErrorModel::SendFailed(m) => "send failed: "@ + m,
        ErrorModel::InvalidAddress(m) => "invalid address: "@ + m,
        ErrorModel::ConnectionRefused => "connection refused"@,
        ErrorModel::Timeout => "connection timed out"@,
        ErrorModel::NotSupported(m) => "not supported: "@ + m,
    }
}

impl TransportError {
    /// The error in words.
    pub fn message(&self) -> (r: String)
        ensures
            r@ == error_text(self@),
    {
        match self {
            TransportError::NotStarted => "transport not started".to_string(),
            TransportError::AlreadyStarted => "transport already started".to_string(),
            TransportError::StartFailed(m) => text::join2(
                "transport failed to start: ",
                m.as_str(),
            ),
            TransportError::SendFailed(m) => text::join2("send failed: ", m.as_str()),
            TransportError::InvalidAddress(m) => text::join2("invalid address: ", m.as_str()),
            TransportError::ConnectionRefused => "connection refused".to_string(),
            TransportError::Timeout => "connection timed out".to_string(),
            TransportError::NotSupported(m) => text::join2("not supported: ", m.as_str()),
        }
    }
}

/// The state of the connection to one address.
pub enum ConnectionState {
    Absent,
    Connecting,
    Connected,
    Failed(String),
}

/// A connection state as its value.
pub enum ConnectionModel {
    Absent,
    Connecting,
    Connected,
    Failed(Seq<char>),
}

impl View for ConnectionState {
    type V = ConnectionModel;

    open spec fn view(&self) -> ConnectionModel {
        match self {
            ConnectionState::Absent => ConnectionModel::Absent,
            ConnectionState::Connecting => ConnectionModel::Connecting,
            ConnectionState::Connected => ConnectionModel::Connected,
            ConnectionState::Failed(m) => ConnectionModel::Failed(m@),
        }
    }
}

/// Whether a result is a given error.
pub open spec fn fails_with<T>(r: Result<T, TransportError>, e: ErrorModel) -> bool {
    r matches Err(x) && x@ == e
}

// ============================================================================
// Connections by address
// ============================================================================

/// What is kept for an address.
#[derive(Clone, Copy)]
pub struct Slot {
    /// The socket or task behind it.
    pub handle: u64,
    /// The largest datagram it took when it was established, where that is known.
    pub max_datagram_size: Option<usize>,
}

struct Entry {
    addr: Vec<u8>,
    slot: Slot,
}

/// At most one slot for each address. Addresses are few and are bytes, of which a hash map's
/// contract says nothing as keys: they stand in a row.
pub struct Table {
    entries: Vec<Entry>,
}

spec fn stands_at(entries: Seq<Entry>, addr: Seq<u8>, i: int) -> bool {
    0 <= i < entries.len() && entries[i].addr@ == addr
}

spec fn place_of(entries: Seq<Entry>, addr: Seq<u8>) -> int {
    choose|i: int| stands_at(entries, addr, i)
}

spec fn slots_of(entries: Seq<Entry>) -> Map<Seq<u8>, Slot> {
    Map::new(
        |addr: Seq<u8>| exists|i: int| stands_at(entries, addr, i),
        |addr: Seq<u8>| entries[place_of(entries, addr)].slot,
    )
}

spec fn distinct(entries: Seq<Entry>) -> bool {
    forall|i: int, j: int|
        0 <= i < j < entries.len() ==> #[trigger] entries[i].addr@ != #[trigger] entries[j].addr@
}

/// Whether a sequence names every key of a map once.
pub open spec fn enumerates(addrs: Seq<Seq<u8>>, slots: Map<Seq<u8>, Slot>) -> bool {
    addrs.no_duplicates() && forall|addr: Seq<u8>|
        addrs.contains(addr) <==> #[trigger] slots.dom().contains(addr)
}

/// The handles that a map keeps for addresses, in the order of the addresses.
pub open spec fn handles_of(addrs: Seq<Seq<u8>>, slots: Map<Seq<u8>, Slot>) -> Seq<u64> {
    Seq::new(addrs.len(), |i: int| slots[addrs[i]].handle)
}

proof fn lemma_slot_at(entries: Seq<Entry>, i: int)
    requires
        distinct(entries),
        0 <= i < entries.len(),
    ensures
        slots_of(entries).dom().contains(entries[i].addr@),
        slots_of(entries)[entries[i].addr@] == entries[i].slot,
{
    let addr = entries[i].addr@;
    assert(stands_at(entries, addr, i));
    let j = place_of(entries, addr);
    assert(stands_at(entries, addr, j));
    assert(i == j);
}

impl View for Table {
    type V = Map<Seq<u8>, Slot>;

    closed spec fn view(&self) -> Map<Seq<u8>, Slot> {
        slots_of(self.entries@)
    }
}

impl Table {
    /// No address occurs twice.
    pub closed spec fn wf(&self) -> bool {
        distinct(self.entries@)
    }

    /// An empty table.
    pub fn new() -> (r: Self)
        ensures
            r.wf(),
            r@ == Map::<Seq<u8>, Slot>::empty(),
    {
        let r = Self { entries: Vec::new() };
        assert(r@ =~= Map::empty()) by {
            assert(forall|addr: Seq<u8>, i: int| !stands_at(r.entries@, addr, i));
        }
        r
    }

    fn find(&self, addr: &[u8]) -> (r: Option<usize>)
        ensures
            r matches Some(i) ==> stands_at(self.entries@, addr@, i as int),
            r is None ==> forall|i: int| !stands_at(self.entries@, addr@, i),
    {
        let mut i: usize = 0;
        while i < self.entries.len()
            invariant
                i <= self.entries@.len(),
                forall|j: int| 0 <= j < i ==> self.entries@[j].addr@ != addr@,
            decreases self.entries@.len() - i,
        {
            if bytes::same(self.entries[i].addr.as_slice(), addr) {
                return Some(i);
            }
            i = i + 1;
        }
        None
    }

    /// What is kept for an address.
    pub fn get(&self, addr: &TransportAddr) -> (r: Option<Slot>)
        requires
            self.wf(),
        ensures
            r == (if self@.dom().contains(addr@) {
                Some(self@[addr@])
            } else {
                None
            }),
    {
        match self.find(addr.bytes.as_slice()) {
            Some(i) => {
                proof {
                    lemma_slot_at(self.entries@, i as int);
                }
                Some(self.entries[i].slot)
            },
            None => None,
        }
    }

    /// Keeps a slot for an address, in place of any before it.
    pub fn insert(&mut self, addr: &TransportAddr, slot: Slot)
        requires
            old(self).wf(),
        ensures
            final(self).wf(),
            final(self)@ == old(self)@.insert(addr@, slot),
    {
        let ghost before = self.entries@;
        let entry = Entry { addr: bytes::to_vec(addr.bytes.as_slice()), slot };
        let found = self.find(addr.bytes.as_slice());
        match found {
            Some(i) => {
                self.entries.set(i, entry);
            },
            None => {
                self.entries.push(entry);
            },
        }
        proof {
            let after = self.entries@;
            let at: int = match found {
                Some(i) => i as int,
                None => before.len() as int,
            };
            assert(after[at] == entry && entry.addr@ == addr@);
            assert(forall|j: int|
                0 <= j < after.len() && j != at ==> #[trigger] after[j] == before[j]);
            assert forall|i: int, j: int| 0 <= i < j < after.len() implies
                #[trigger] after[i].addr@ != #[trigger] after[j].addr@ by {
                if found is None {
                    assert(!stands_at(before, addr@, i));
                }
            }
            let want = slots_of(before).insert(addr@, slot);
            assert forall|a: Seq<u8>| #[trigger] slots_of(after).dom().contains(a)
                == want.dom().contains(a) by {
                if a == addr@ {
                    assert(stands_at(after, a, at));
                } else {
                    if slots_of(after).dom().contains(a) {
                        let j = place_of(after, a);
                        assert(stands_at(after, a, j));
                        assert(stands_at(before, a, j));
                    }
                    if want.dom().contains(a) {
                        let j = place_of(before, a);
                        assert(stands_at(before, a, j));
                        assert(stands_at(after, a, j));
                    }
                }
            }
            assert forall|a: Seq<u8>| #[trigger] slots_of(after).dom().contains(a) implies
                slots_of(after)[a] == want[a] by {
                let i = place_of(after, a);
                assert(stands_at(after, a, i));
                lemma_slot_at(after, i);
                if a != addr@ {
                    lemma_slot_at(before, i);
                } else {
                    assert(stands_at(after, a, at));
                }
            }
            assert(slots_of(after) =~= want);
        }
    }

    /// Gives up what is kept for an address.
    pub fn remove(&mut self, addr: &TransportAddr) -> (r: Option<Slot>)
        requires
            old(self).wf(),
        ensures
            final(self).wf(),
            final(self)@ == old(self)@.remove(addr@),
            r == (if old(self)@.dom().contains(addr@) {
                Some(old(self)@[addr@])
            } else {
                None
            }),
    {
        let ghost before = self.entries@;
        match self.find(addr.bytes.as_slice()) {
            Some(i) => {
                let entry = self.entries.remove(i);
                proof {
                    let after = self.entries@;
                    lemma_slot_at(before, i as int);
                    assert forall|j: int, k: int| 0 <= j < k < after.len() implies
                        #[trigger] after[j].addr@ != #[trigger] after[k].addr@ by {
                        let jj = if j < i { j } else { j + 1 };
                        let kk = if k < i { k } else { k + 1 };
                        assert(before[jj].addr@ != before[kk].addr@);
                    }
                    let want = slots_of(before).remove(addr@);
                    assert forall|a: Seq<u8>| #[trigger] slots_of(after).dom().contains(a)
                        == want.dom().contains(a) by {
                        if slots_of(after).dom().contains(a) {
                            let j = place_of(after, a);
                            assert(stands_at(after, a, j));
                            let jj = if j < i { j } else { j + 1 };
                            assert(stands_at(before, a, jj));
                            assert(before[jj].addr@ != before[i as int].addr@);
                        }
                        if want.dom().contains(a) {
                            let j = place_of(before, a);
                            assert(stands_at(before, a, j));
                            let jj = if j < i { j } else { j - 1 };
                            assert(stands_at(after, a, jj));
                        }
                    }
                    assert forall|a: Seq<u8>| #[trigger] slots_of(after).dom().contains(a) implies
                        slots_of(after)[a] == want[a] by {
                        let j = place_of(after, a);
                        assert(stands_at(after, a, j));
                        lemma_slot_at(after, j);
                        lemma_slot_at(before, if j < i { j } else { j + 1 });
                    }
                    assert(slots_of(after) =~= want);
                }
                Some(entry.slot)
            },
            None => {
                assert(self@ =~= old(self)@.remove(addr@));
                None
            },
        }
    }

    /// Gives up everything, and returns the handles of what was kept.
    pub fn drain(&mut self) -> (r: Vec<u64>)
        requires
            old(self).wf(),
        ensures
            final(self).wf(),
            final(self)@ == Map::<Seq<u8>, Slot>::empty(),
            exists|addrs: Seq<Seq<u8>>|
                #[trigger] enumerates(addrs, old(self)@) && r@ == handles_of(addrs, old(self)@),
    {
        let ghost before = self.entries@;
        let mut handles: Vec<u64> = Vec::new();
        let mut i: usize = 0;
        while i < self.entries.len()
            invariant
                i <= self.entries@.len(),
                self.entries@ == before,
                handles@.len() == i,
                forall|j: int| 0 <= j < i ==> handles@[j] == before[j].slot.handle,
            decreases self.entries@.len() - i,
        {
            handles.push(self.entries[i].slot.handle);
            i = i + 1;
        }
        let rest = Self::new();
        self.entries = rest.entries;
        proof {
            let addrs = before.map_values(|e: Entry| e.addr@);
            assert(addrs.no_duplicates());
            assert forall|a: Seq<u8>| addrs.contains(a) <==> #[trigger] slots_of(
                before,
            ).dom().contains(a) by {
                if addrs.contains(a) {
                    let j = choose|j: int| 0 <= j < addrs.len() && addrs[j] == a;
                    assert(stands_at(before, a, j));
                }
                if slots_of(before).dom().contains(a) {
                    let j = place_of(before, a);
                    assert(stands_at(before, a, j));
                    assert(addrs[j] == a);
                }
            }
            assert(enumerates(addrs, slots_of(before)));
            assert forall|j: int| 0 <= j < handles@.len() implies handles@[j] == handles_of(
                addrs,
                slots_of(before),
            )[j] by {
                lemma_slot_at(before, j);
            }
            assert(handles@ =~= handles_of(addrs, slots_of(before)));
            assert(old(self)@ == slots_of(before));
            assert(enumerates(addrs, old(self)@) && handles@ == handles_of(addrs, old(self)@));
        }
        handles
    }
}

// ============================================================================
// Laws
// ============================================================================

/// A transport starts unless it is up or on its way there.
pub proof fn law_startable(state: TransportState)
    ensures
        state.startable() <==> state != TransportState::Starting && state != TransportState::Up,
{
}

/// Errors are told apart by their words, and keep the words of their cause.
pub proof fn law_error_words(cause: Seq<char>)
    ensures
        error_text(ErrorModel::NotStarted) == "transport not started"@,
        error_text(ErrorModel::AlreadyStarted) == "transport already started"@,
        error_text(ErrorModel::ConnectionRefused) == "connection refused"@,
        error_text(ErrorModel::Timeout) == "connection timed out"@,
        error_text(ErrorModel::StartFailed(cause)) == "transport failed to start: "@ + cause,
        error_text(ErrorModel::SendFailed(cause)) == "send failed: "@ + cause,
        error_text(ErrorModel::InvalidAddress(cause)) == "invalid address: "@ + cause,
        error_text(ErrorModel::NotSupported(cause)) == "not supported: "@ + cause,
{
}

/// An address that a text names is shown as that text; bytes that are no text are shown by their
/// hexadecimal digits.
pub proof fn law_addresses_are_shown(words: Seq<char>, addr: Seq<u8>)
    ensures
        shown_addr(vstd::utf8::encode_utf8(words)) == words,
        !vstd::utf8::valid_utf8(addr) ==> shown_addr(addr) == text::hex_text(addr),
{
    vstd::utf8::encode_utf8_valid_utf8(words);
    vstd::utf8::encode_utf8_decode_utf8(words);
}

} // verus!

//! The life of a carrier and of its connections.

use super::{
    ConnectionState, Slot, Table, TransportAddr, TransportError, TransportState,
};
use super::{ConnectionModel, ErrorModel};
use crate::text;
use vstd::prelude::*;

verus! {

/// How long an attempt to connect may take, in seconds.
pub const CONNECT_TIMEOUT_SECS: u64 = 10;

/// What came of dialling a remote address.
pub enum DialOutcome {
    Connected,
    /// The local endpoint could not be set up, in the words of the cause.
    NoEndpoint(String),
    Refused,
    TimedOut,
}

/// What came of dialling, as the connection attempt reports it.
pub fn dial_result(outcome: DialOutcome) -> (r: Result<(), TransportError>)
    ensures
        match outcome {
            DialOutcome::Connected => r is Ok,
            DialOutcome::NoEndpoint(m) => super::fails_with(
                r,
                ErrorModel::StartFailed("client endpoint creation failed: "@ + m@),
            ),
            DialOutcome::Refused => super::fails_with(r, ErrorModel::ConnectionRefused),
            DialOutcome::TimedOut => super::fails_with(r, ErrorModel::Timeout),
        },
{
    match outcome {
        DialOutcome::Connected => Ok(()),
        DialOutcome::NoEndpoint(m) => Err(
            TransportError::StartFailed(
                text::join2("client endpoint creation failed: ", m.as_str()),
            ),
        ),
        DialOutcome::Refused => Err(TransportError::ConnectionRefused),
        DialOutcome::TimedOut => Err(TransportError::Timeout),
    }
}

/// How far a connection attempt is.
pub enum Attempt {
    Running,
    /// It is through, and takes datagrams up to this size, where that is known.
    Connected(Option<usize>),
    Failed(TransportError),
    /// Its task broke down, in the words of the cause.
    Panicked(String),
}

/// How far a connection attempt is, as a value.
pub enum AttemptModel {
    Running,
    Connected(Option<usize>),
    Failed(ErrorModel),
    Panicked(Seq<char>),
}

impl View for Attempt {
    type V = AttemptModel;

    open spec fn view(&self) -> AttemptModel {
        match self {
            Attempt::Running => AttemptModel::Running,
            Attempt::Connected(n) => AttemptModel::Connected(*n),
            Attempt::Failed(e) => AttemptModel::Failed(e@),
            Attempt::Panicked(m) => AttemptModel::Panicked(m@),
        }
    }
}

/// What to do for a request to connect.
pub enum ConnectAction {
    /// There is a connection, or an attempt at one, already.
    Nothing,
    /// Dial this URL.
    Dial(String),
}

/// What to take down when a carrier stops.
pub struct StopActions {
    /// Whether it listens for incoming connections.
    pub listener: bool,
    /// The sessions that are open.
    pub sessions: Vec<u64>,
    /// The connection attempts that are under way.
    pub attempts: Vec<u64>,
}

/// The life of a carrier: its state, whether it listens, its sessions and its connection
/// attempts.
pub struct Links {
    state: TransportState,
    listening: bool,
    sessions: Table,
    connecting: Table,
}

/// The life of a carrier, as a value.
#[verifier::ext_equal]
pub struct LinksModel {
    pub state: TransportState,
    pub listening: bool,
    pub sessions: Map<Seq<u8>, Slot>,
    pub connecting: Map<Seq<u8>, Slot>,
}

impl View for Links {
    type V = LinksModel;

    closed spec fn view(&self) -> LinksModel {
        LinksModel {
            state: self.state,
            listening: self.listening,
            sessions: self.sessions@,
            connecting: self.connecting@,
        }
    }
}

/// A carrier that was configured and nothing more.
pub open spec fn links_new() -> LinksModel {
    LinksModel {
        state: TransportState::Configured,
        listening: false,
        sessions: Map::empty(),
        connecting: Map::empty(),
    }
}

/// A carrier that was stopped.
pub open spec fn links_stopped() -> LinksModel {
    LinksModel {
        state: TransportState::Down,
        listening: false,
        sessions: Map::empty(),
        connecting: Map::empty(),
    }
}

/// The carrier on its way up.
pub open spec fn links_starting(l: LinksModel) -> LinksModel {
    LinksModel { state: TransportState::Starting, ..l }
}

/// The carrier once it is up, with a listener or without.
pub open spec fn links_up(l: LinksModel, listener: bool) -> LinksModel {
    LinksModel { state: TransportState::Up, listening: listener || l.listening, ..l }
}

/// The handle of the session with an address.
pub open spec fn links_session(l: LinksModel, addr: Seq<u8>) -> Option<u64> {
    if l.sessions.dom().contains(addr) {
        Some(l.sessions[addr].handle)
    } else {
        None
    }
}

/// What a request to connect leads to: what to dial, if anything, or an error.
pub open spec fn links_connect(
    l: LinksModel,
    scheme: Seq<char>,
    addr: Seq<u8>,
    handle: u64,
) -> (LinksModel, Result<Option<Seq<char>>, ErrorModel>) {
    if !(l.state is Up) {
        (l, Err(ErrorModel::NotStarted))
    } else if l.sessions.dom().contains(addr) || l.connecting.dom().contains(addr) {
        (l, Ok(None))
    } else if !vstd::utf8::valid_utf8(addr) {
        (l, Err(ErrorModel::InvalidAddress("not valid UTF-8"@)))
    } else {
        (
            LinksModel {
                connecting: l.connecting.insert(addr, Slot { handle, max_datagram_size: None }),
                ..l
            },
            Ok(Some(scheme + vstd::utf8::decode_utf8(addr))),
        )
    }
}

/// What a question for the state of a connection leads to, given how far the attempt is.
pub open spec fn links_poll(l: LinksModel, addr: Seq<u8>, attempt: AttemptModel) -> (
    LinksModel,
    ConnectionModel,
) {
    let settled = LinksModel { connecting: l.connecting.remove(addr), ..l };
    if l.sessions.dom().contains(addr) {
        (l, ConnectionModel::Connected)
    } else if !l.connecting.dom().contains(addr) {
        (l, ConnectionModel::Absent)
    } else {
        match attempt {
            AttemptModel::Running => (l, ConnectionModel::Connecting),
            AttemptModel::Connected(max_datagram_size) => (
                LinksModel {
                    sessions: l.sessions.insert(
                        addr,
                        Slot { handle: l.connecting[addr].handle, max_datagram_size },
                    ),
                    ..settled
                },
                ConnectionModel::Connected,
            ),
            AttemptModel::Failed(e) => (settled, ConnectionModel::Failed(super::error_text(e))),
            AttemptModel::Panicked(m) => (
                settled,
                ConnectionModel::Failed("connect task panicked: "@ + m),
            ),
        }
    }
}

/// Whether a question for the state of a connection opens a session.
pub open spec fn links_promotes(l: LinksModel, addr: Seq<u8>, attempt: AttemptModel) -> bool {
    !l.sessions.dom().contains(addr) && l.connecting.dom().contains(addr)
        && attempt is Connected
}

/// A request to connect, as a value.
pub open spec fn connect_result(r: Result<ConnectAction, TransportError>) -> Result<
    Option<Seq<char>>,
    ErrorModel,
> {
    match r {
        Ok(ConnectAction::Nothing) => Ok(None),
        Ok(ConnectAction::Dial(url)) => Ok(Some(url@)),
        Err(e) => Err(e@),
    }
}

/// Whether the actions take down all that a carrier holds.
pub open spec fn takes_down(actions: StopActions, l: LinksModel) -> bool {
    &&& actions.listener == l.listening
    &&& exists|addrs: Seq<Seq<u8>>| #[trigger]
        super::enumerates(addrs, l.sessions) && actions.sessions@ == super::handles_of(
            addrs,
            l.sessions,
        )
    &&& exists|addrs: Seq<Seq<u8>>| #[trigger]
        super::enumerates(addrs, l.connecting) && actions.attempts@ == super::handles_of(
            addrs,
            l.connecting,
        )
}

impl Links {
    /// No address has two sessions, or two attempts.
    pub closed spec fn wf(&self) -> bool {
        self.sessions.wf() && self.connecting.wf()
    }

    /// A carrier that is configured.
    pub fn new() -> (r: Self)
        ensures
            r.wf(),
            r@ == links_new(),
    {
        Self {
            state: TransportState::Configured,
            listening: false,
            sessions: Table::new(),
            connecting: Table::new(),
        }
    }

    /// Where the carrier is in its life.
    pub fn state(&self) -> (r: TransportState)
        ensures
            r == self@.state,
    {
        self.state
    }

    /// Begin to start.
    pub fn start(&mut self) -> (r: Result<(), TransportError>)
        requires
            old(self).wf(),
        ensures
            final(self).wf(),
            old(self)@.state.startable() ==> r is Ok && final(self)@ == links_starting(old(self)@),
            !old(self)@.state.startable() ==> super::fails_with(r, ErrorModel::AlreadyStarted)
                && final(self)@ == old(self)@,
    {
        if !self.state.can_start() {
            return Err(TransportError::AlreadyStarted);
        }
        self.state = TransportState::Starting;
        Ok(())
    }

    /// Finish the start, with a listener or without.
    pub fn up(&mut self, listener: bool)
        requires
            old(self).wf(),
        ensures
            final(self).wf(),
            final(self)@ == links_up(old(self)@, listener),
    {
        if listener {
            self.listening = true;
        }
        self.state = TransportState::Up;
    }

    /// Stop: everything is given up, and what to take down is returned.
    pub fn stop(&mut self) -> (r: Result<StopActions, TransportError>)
        requires
            old(self).wf(),
        ensures
            final(self).wf(),
            old(self)@.state is Up ==> r is Ok && takes_down(r->Ok_0, old(self)@)
                && final(self)@ == links_stopped(),
            !(old(self)@.state is Up) ==> super::fails_with(r, ErrorModel::NotStarted)
                && final(self)@ == old(self)@,
    {
        if !self.state.is_operational() {
            return Err(TransportError::NotStarted);
        }
        let listener: bool = self.listening;
        let ghost open = self.sessions@;
        let ghost dialled = self.connecting@;
        self.listening = false;
        let sessions = self.sessions.drain();
        let attempts = self.connecting.drain();
        self.state = TransportState::Down;
        let actions = StopActions { listener, sessions, attempts };
        proof {
            assert(exists|addrs: Seq<Seq<u8>>| #[trigger]
                super::enumerates(addrs, open) && sessions@ == super::handles_of(addrs, open));
            assert(exists|addrs: Seq<Seq<u8>>| #[trigger]
                super::enumerates(addrs, dialled) && attempts@ == super::handles_of(
                    addrs,
                    dialled,
                ));
            assert(old(self)@.sessions == open && old(self)@.connecting == dialled);
        }
        Ok(actions)
    }

    /// The session that a packet for an address goes to. `kind` names the carrier in the error.
    pub fn route(&self, kind: &str, addr: &TransportAddr) -> (r: Result<u64, TransportError>)
        requires
            self.wf(),
        ensures
            !(self@.state is Up) ==> super::fails_with(r, ErrorModel::NotStarted),
            self@.state is Up && !self@.sessions.dom().contains(addr@) ==> super::fails_with(
                r,
                ErrorModel::SendFailed(
                    "no "@ + kind@ + " session for "@ + super::shown_addr(addr@),
                ),
            ),
            self@.state is Up && self@.sessions.dom().contains(addr@) ==> r is Ok && r->Ok_0
                == self@.sessions[addr@].handle,
    {
        if !self.state.is_operational() {
            return Err(TransportError::NotStarted);
        }
        match self.sessions.get(addr) {
            Some(slot) => Ok(slot.handle),
            None => Err(
                TransportError::SendFailed(
                    text::join4("no ", kind, " session for ", addr.shown().as_str()),
                ),
            ),
        }
    }

    /// A request to connect to an address. `handle` is for the attempt, if one is to be made.
    pub fn connect(&mut self, scheme: &str, addr: &TransportAddr, handle: u64) -> (r: Result<
        ConnectAction,
        TransportError,
    >)
        requires
            old(self).wf(),
        ensures
            final(self).wf(),
            (final(self)@, connect_result(r)) == links_connect(
                old(self)@,
                scheme@,
                addr@,
                handle,
            ),
    {
        if !self.state.is_operational() {
            return Err(TransportError::NotStarted);
        }
        if self.sessions.get(addr).is_some() {
            return Ok(ConnectAction::Nothing);
        }
        if self.connecting.get(addr).is_some() {
            return Ok(ConnectAction::Nothing);
        }
        match addr.as_str() {
            None => Err(TransportError::InvalidAddress("not valid UTF-8".to_string())),
            Some(t) => {
                self.connecting.insert(addr, Slot { handle, max_datagram_size: None });
                Ok(ConnectAction::Dial(text::join2(scheme, t.as_str())))
            },
        }
    }

    /// The attempt whose outcome decides on the state of the connection to an address.
    pub fn pending(&self, addr: &TransportAddr) -> (r: Option<u64>)
        requires
            self.wf(),
        ensures
            r == (if !self@.sessions.dom().contains(addr@) && self@.connecting.dom().contains(
                addr@,
            ) {
                Some(self@.connecting[addr@].handle)
            } else {
                None
            }),
    {
        if self.sessions.get(addr).is_some() {
            return None;
        }
        match self.connecting.get(addr) {
            Some(slot) => Some(slot.handle),
            None => None,
        }
    }

    /// The state of the connection to an address. An attempt that is through becomes a session,
    /// and one that failed is forgotten. Also returned: whether a session was opened.
    pub fn poll(&mut self, addr: &TransportAddr, attempt: Attempt) -> (r: (ConnectionState, bool))
        requires
            old(self).wf(),
        ensures
            final(self).wf(),
            (final(self)@, r.0@) == links_poll(old(self)@, addr@, attempt@),
            r.1 == links_promotes(old(self)@, addr@, attempt@),
    {
        if self.sessions.get(addr).is_some() {
            return (ConnectionState::Connected, false);
        }
        let pending = self.connecting.get(addr);
        match pending {
            None => (ConnectionState::Absent, false),
            Some(slot) => match attempt {
                Attempt::Running => (ConnectionState::Connecting, false),
                Attempt::Connected(max_datagram_size) => {
                    self.connecting.remove(addr);
                    self.sessions.insert(addr, Slot { handle: slot.handle, max_datagram_size });
                    (ConnectionState::Connected, true)
                },
                Attempt::Failed(e) => {
                    self.connecting.remove(addr);
                    (ConnectionState::Failed(e.message()), false)
                },
                Attempt::Panicked(m) => {
                    self.connecting.remove(addr);
                    (
                        ConnectionState::Failed(
                            text::join2("connect task panicked: ", m.as_str()),
                        ),
                        false,
                    )
                },
            },
        }
    }

    /// A session that a remote side opened. One that had its address before is replaced, and its
    /// handle returned.
    pub fn accept(&mut self, addr: &TransportAddr, slot: Slot) -> (r: Option<u64>)
        requires
            old(self).wf(),
        ensures
            final(self).wf(),
            final(self)@ == (LinksModel {
                sessions: old(self)@.sessions.insert(addr@, slot),
                ..old(self)@
            }),
            r == links_session(old(self)@, addr@),
    {
        let replaced = match self.sessions.get(addr) {
            Some(before) => Some(before.handle),
            None => None,
        };
        self.sessions.insert(addr, slot);
        replaced
    }

    /// What is kept for the session with an address.
    pub fn session(&self, addr: &TransportAddr) -> (r: Option<Slot>)
        requires
            self.wf(),
        ensures
            r == (if self@.sessions.dom().contains(addr@) {
                Some(self@.sessions[addr@])
            } else {
                None
            }),
    {
        self.sessions.get(addr)
    }

    /// Close the session with an address, and return its handle.
    pub fn close(&mut self, addr: &TransportAddr) -> (r: Option<u64>)
        requires
            old(self).wf(),
        ensures
            final(self).wf(),
            final(self)@ == (LinksModel {
                sessions: old(self)@.sessions.remove(addr@),
                ..old(self)@
            }),
            r == links_session(old(self)@, addr@),
    {
        match self.sessions.remove(addr) {
            Some(slot) => Some(slot.handle),
            None => None,
        }
    }
}

// ============================================================================
// Laws
// ============================================================================

/// A carrier that was stopped may be started again, and holds nothing.
pub proof fn law_stopped_may_start()
    ensures
        links_stopped().state.startable(),
        !(links_stopped().state is Up),
        links_stopped().sessions.dom() =~= Set::empty(),
        links_stopped().connecting.dom() =~= Set::empty(),
{
}

/// A carrier that is up is not started a second time, and neither is one that is on its way up.
pub proof fn law_started_once(l: LinksModel, listener: bool)
    ensures
        !links_starting(l).state.startable(),
        !links_up(links_starting(l), listener).state.startable(),
        links_up(links_starting(l), listener).state is Up,
{
}

/// To ask twice for a connection is to ask once: the second request changes nothing and dials
/// nothing.
pub proof fn law_connect_once(
    l: LinksModel,
    scheme: Seq<char>,
    addr: Seq<u8>,
    handle: u64,
    again: u64,
)
    requires
        links_connect(l, scheme, addr, handle).1 is Ok,
    ensures
        ({
            let after = links_connect(l, scheme, addr, handle).0;
            links_connect(after, scheme, addr, again) == (
                after,
                Ok::<Option<Seq<char>>, ErrorModel>(None),
            )
        }),
{
}

/// An attempt that gets through becomes the session that packets for the address are sent to, it
/// is no longer pending, and the connection stays up when asked again.
pub proof fn law_connection_opens(
    l: LinksModel,
    scheme: Seq<char>,
    addr: Seq<u8>,
    handle: u64,
    max_datagram_size: Option<usize>,
    later: AttemptModel,
)
    requires
        links_connect(l, scheme, addr, handle).1 matches Ok(url) && url is Some,
    ensures
        ({
            let dialling = links_connect(l, scheme, addr, handle).0;
            let (open, state) = links_poll(
                dialling,
                addr,
                AttemptModel::Connected(max_datagram_size),
            );
            &&& links_poll(dialling, addr, AttemptModel::Running) == (
                dialling,
                ConnectionModel::Connecting,
            )
            &&& state == ConnectionModel::Connected
            &&& open.sessions == l.sessions.insert(addr, Slot { handle, max_datagram_size })
            &&& open.connecting == l.connecting
            &&& open.state is Up
            &&& links_poll(open, addr, later) == (open, ConnectionModel::Connected)
        }),
{
    let dialling = links_connect(l, scheme, addr, handle).0;
    assert(dialling.connecting.remove(addr) =~= l.connecting);
}

/// An attempt that fails leaves nothing behind: a new one may be made at once.
pub proof fn law_failed_attempt_is_forgotten(
    l: LinksModel,
    scheme: Seq<char>,
    addr: Seq<u8>,
    handle: u64,
    cause: ErrorModel,
)
    requires
        links_connect(l, scheme, addr, handle).1 matches Ok(url) && url is Some,
    ensures
        ({
            let dialling = links_connect(l, scheme, addr, handle).0;
            let (after, state) = links_poll(dialling, addr, AttemptModel::Failed(cause));
            &&& state == ConnectionModel::Failed(super::error_text(cause))
            &&& after == l
        }),
{
    let dialling = links_connect(l, scheme, addr, handle).0;
    assert(dialling.connecting.remove(addr) =~= l.connecting);
}

/// A carrier starts with nothing, and nothing but its state and its listener changes on its way up:
/// it listens if it was given a listener or had one.
pub proof fn law_life(l: LinksModel, listener: bool)
    ensures
        ({
            let new = links_new();
            let starting = links_starting(l);
            let up = links_up(l, listener);
            let down = links_stopped();
            &&& new.state is Configured && !new.listening
            &&& new.sessions.dom().is_empty() && new.connecting.dom().is_empty()
            &&& starting.state is Starting
            &&& starting.listening == l.listening
            &&& starting.sessions == l.sessions && starting.connecting == l.connecting
            &&& up.state is Up
            &&& up.listening <==> listener || l.listening
            &&& up.sessions == l.sessions && up.connecting == l.connecting
            &&& down.state is Down && !down.listening
            &&& down.sessions.dom().is_empty() && down.connecting.dom().is_empty()
        }),
{
}

/// What a request to connect leads to: an error unless the carrier is up; nothing where there is a
/// connection or an attempt; an error for an address that is no text; else the address is dialled
/// behind the scheme, and the attempt is noted under its handle. No other address is touched.
pub proof fn law_connecting(
    l: LinksModel,
    scheme: Seq<char>,
    addr: Seq<u8>,
    words: Seq<char>,
    handle: u64,
    other: Seq<u8>,
)
    ensures
        ({
            let (after, r) = links_connect(l, scheme, addr, handle);
            let known = l.sessions.dom().contains(addr) || l.connecting.dom().contains(addr);
            let dials = l.state is Up && !known && vstd::utf8::valid_utf8(addr);
            &&& !dials ==> after == l
            &&& !(l.state is Up) ==> r == Err::<Option<Seq<char>>, ErrorModel>(
                ErrorModel::NotStarted,
            )
            &&& l.state is Up && known ==> r == Ok::<Option<Seq<char>>, ErrorModel>(None)
            &&& l.state is Up && !known && !vstd::utf8::valid_utf8(addr) ==> r == Err::<
                Option<Seq<char>>,
                ErrorModel,
            >(ErrorModel::InvalidAddress("not valid UTF-8"@))
            &&& dials ==> {
                &&& r is Ok && r->Ok_0 is Some
                &&& addr == vstd::utf8::encode_utf8(words) ==> (r->Ok_0)->0 == scheme + words
                &&& after.state == l.state && after.listening == l.listening
                &&& after.sessions == l.sessions
                &&& after.connecting.dom().contains(addr)
                &&& after.connecting[addr].handle == handle
                &&& after.connecting[addr].max_datagram_size is None
                &&& other != addr ==> (after.connecting.dom().contains(other)
                    <==> l.connecting.dom().contains(other))
                &&& other != addr && l.connecting.dom().contains(other)
                    ==> after.connecting[other] == l.connecting[other]
            }
        }),
{
    vstd::utf8::encode_utf8_decode_utf8(words);
}

/// What a question for a connection leads to: a session is connected and an unknown address absent,
/// whatever an attempt says. An attempt that runs changes nothing; any other outcome ends it, and
/// only one that got through opens a session, with its handle and its datagram size. No other
/// address is touched.
pub proof fn law_polling(
    l: LinksModel,
    addr: Seq<u8>,
    attempt: AttemptModel,
    other: Seq<u8>,
)
    ensures
        ({
            let (after, state) = links_poll(l, addr, attempt);
            let open = l.sessions.dom().contains(addr);
            let pending = !open && l.connecting.dom().contains(addr);
            let through = pending && attempt is Connected;
            let ended = pending && !(attempt is Running);
            &&& links_promotes(l, addr, attempt) == through
            &&& open ==> state is Connected
            &&& !open && !pending ==> state is Absent
            &&& pending && attempt is Running ==> state is Connecting
            &&& through ==> state is Connected
            &&& pending && attempt is Failed ==> state == ConnectionModel::Failed(
                super::error_text(attempt->Failed_0),
            )
            &&& pending && attempt is Panicked ==> state == ConnectionModel::Failed(
                "connect task panicked: "@ + attempt->Panicked_0,
            )
            &&& !ended ==> after == l
            &&& after.state == l.state && after.listening == l.listening
            &&& ended ==> !after.connecting.dom().contains(addr)
            &&& ended && !through ==> after.sessions == l.sessions
            &&& through ==> {
                &&& after.sessions.dom().contains(addr)
                &&& after.sessions[addr].handle == l.connecting[addr].handle
                &&& after.sessions[addr].max_datagram_size == attempt->Connected_0
            }
            &&& other != addr ==> {
                &&& after.sessions.dom().contains(other) <==> l.sessions.dom().contains(other)
                &&& after.connecting.dom().contains(other) <==> l.connecting.dom().contains(other)
                &&& l.sessions.dom().contains(other) ==> after.sessions[other] == l.sessions[other]
                &&& l.connecting.dom().contains(other) ==> after.connecting[other]
                    == l.connecting[other]
            }
        }),
{
}

/// The handle of a session is the one it was kept with, and stopping takes down every session and
/// every attempt by its handle.
pub proof fn law_stopping_forgets_nothing(
    l: LinksModel,
    actions: StopActions,
    addr: Seq<u8>,
    i: int,
)
    requires
        takes_down(actions, l),
    ensures
        links_session(l, addr) == if l.sessions.dom().contains(addr) {
            Some(l.sessions[addr].handle)
        } else {
            None
        },
        actions.listener == l.listening,
        l.sessions.dom().contains(addr) ==> actions.sessions@.contains(l.sessions[addr].handle),
        l.connecting.dom().contains(addr) ==> actions.attempts@.contains(
            l.connecting[addr].handle,
        ),
        0 <= i < actions.sessions@.len() ==> exists|a: Seq<u8>| #[trigger]
            l.sessions.dom().contains(a) && l.sessions[a].handle == actions.sessions@[i],
        0 <= i < actions.attempts@.len() ==> exists|a: Seq<u8>| #[trigger]
            l.connecting.dom().contains(a) && l.connecting[a].handle == actions.attempts@[i],
{
    let open = choose|addrs: Seq<Seq<u8>>| #[trigger]
        super::enumerates(addrs, l.sessions) && actions.sessions@ == super::handles_of(
            addrs,
            l.sessions,
        );
    let dialled = choose|addrs: Seq<Seq<u8>>| #[trigger]
        super::enumerates(addrs, l.connecting) && actions.attempts@ == super::handles_of(
            addrs,
            l.connecting,
        );
    if l.sessions.dom().contains(addr) {
        assert(open.contains(addr));
        let j = choose|j: int| 0 <= j < open.len() && open[j] == addr;
        assert(actions.sessions@[j] == l.sessions[addr].handle);
    }
    if l.connecting.dom().contains(addr) {
        assert(dialled.contains(addr));
        let j = choose|j: int| 0 <= j < dialled.len() && dialled[j] == addr;
        assert(actions.attempts@[j] == l.connecting[addr].handle);
    }
    if 0 <= i < actions.sessions@.len() {
        assert(open.contains(open[i]));
        assert(l.sessions.dom().contains(open[i]));
    }
    if 0 <= i < actions.attempts@.len() {
        assert(dialled.contains(dialled[i]));
        assert(l.connecting.dom().contains(dialled[i]));
    }
}

} // verus!

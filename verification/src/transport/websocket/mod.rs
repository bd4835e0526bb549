//! WebSocket transport.
//!
//! Each WebSocket binary message carries one FMP packet. No TLS: FIPS handles authentication and
//! encryption at the Noise layer.
//!
//! Supports server mode (accepting incoming WebSocket connections via HTTP Upgrade) and client
//! mode (connecting to a remote WebSocket server).

pub mod stats;

use self::stats::WebSocketStats;
use super::links;
use super::links::{Attempt, AttemptModel, ConnectAction, Links, LinksModel, StopActions};
use super::{
    ConnectionModel, ConnectionState, DiscoveredPeer, ErrorModel, ReceivedPacket, Slot,
    TransportAddr, TransportError, TransportId, TransportState,
};
use crate::text;
use vstd::prelude::*;

verus! {

/// Configuration of a WebSocket transport.
pub struct WebSocketConfig {
    /// Server listen address (`host:port`). Without it, the transport is client-only.
    pub bind_addr: Option<String>,
    /// Whether to accept incoming connections. Default: true.
    pub accept_connections: Option<bool>,
}

impl WebSocketConfig {
    /// The server listen address, if any.
    pub fn bind_addr(&self) -> (r: Option<&str>)
        ensures
            r is Some <==> self.bind_addr is Some,
            r matches Some(t) ==> t@ == self.bind_addr->0@,
    {
        match &self.bind_addr {
            Some(t) => Some(t.as_str()),
            None => None,
        }
    }

    /// Whether to accept incoming connections.
    pub fn accept_connections(&self) -> (r: bool)
        ensures
            r == (self.accept_connections != Some(false)),
    {
        match self.accept_connections {
            Some(b) => b,
            None => true,
        }
    }
}

/// How a transport starts.
pub enum StartAction {
    /// Listen on this address, and report with [`WebSocketTransport::listening`].
    Listen(String),
    /// There is nothing to listen on: the transport is up.
    ClientOnly,
}

/// What came of listening.
pub enum ListenOutcome {
    /// The address cannot be read, in the words of the cause.
    BadAddress(String),
    /// The address cannot be bound, in the words of the cause.
    BindFailed(String),
    Listening,
}

/// WebSocket transport for FIPS.
///
/// Uses WebSocket binary messages for packet delivery. Connection-oriented and reliable (TCP
/// underneath). Each binary message is one FMP packet.
pub struct WebSocketTransport {
    transport_id: TransportId,
    name: Option<String>,
    config: WebSocketConfig,
    links: Links,
    stats: WebSocketStats,
}

/// A WebSocket transport as a value.
#[verifier::ext_equal]
pub struct WebSocketModel {
    pub transport_id: TransportId,
    pub name: Option<Seq<char>>,
    pub bind_addr: Option<Seq<char>>,
    pub accepts: bool,
    pub links: LinksModel,
    pub stats: WebSocketStats,
}

impl View for WebSocketTransport {
    type V = WebSocketModel;

    closed spec fn view(&self) -> WebSocketModel {
        WebSocketModel {
            transport_id: self.transport_id,
            name: text::optional_text(self.name),
            bind_addr: text::optional_text(self.config.bind_addr),
            accepts: self.config.accept_connections != Some(false),
            links: self.links@,
            stats: self.stats,
        }
    }
}

/// What is sent to a WebSocket server: its address behind this.
pub const URL_SCHEME: &'static str = "ws://";

/// The transport after a question for the state of a connection.
pub open spec fn ws_poll(t: WebSocketModel, addr: Seq<u8>, attempt: AttemptModel) -> (
    WebSocketModel,
    ConnectionModel,
) {
    let (links, state) = links::links_poll(t.links, addr, attempt);
    let stats = if links::links_promotes(t.links, addr, attempt) {
        stats::session_connected(t.stats)
    } else {
        t.stats
    };
    (WebSocketModel { links, stats, ..t }, state)
}

/// The transport after a remote side opened a session.
pub open spec fn ws_accepted(t: WebSocketModel, peer: Seq<char>, handle: u64) -> WebSocketModel {
    WebSocketModel {
        links: LinksModel {
            sessions: t.links.sessions.insert(
                vstd::utf8::encode_utf8("ws-"@ + peer),
                Slot { handle, max_datagram_size: None },
            ),
            ..t.links
        },
        stats: stats::session_accepted(t.stats),
        ..t
    }
}

/// The transport after a session was closed on request.
pub open spec fn ws_closed(t: WebSocketModel, addr: Seq<u8>) -> WebSocketModel {
    if t.links.sessions.dom().contains(addr) {
        WebSocketModel {
            links: LinksModel { sessions: t.links.sessions.remove(addr), ..t.links },
            stats: stats::session_closed(t.stats),
            ..t
        }
    } else {
        t
    }
}

impl WebSocketTransport {
    /// No address has two sessions, or two connection attempts.
    pub closed spec fn wf(&self) -> bool {
        self.links.wf()
    }

    /// Create a new WebSocket transport.
    pub fn new(transport_id: TransportId, name: Option<String>, config: WebSocketConfig) -> (r:
        Self)
        ensures
            r.wf(),
            r@ == (WebSocketModel {
                transport_id,
                name: text::optional_text(name),
                bind_addr: text::optional_text(config.bind_addr),
                accepts: config.accept_connections != Some(false),
                links: links::links_new(),
                stats: stats::stats_new(),
            }),
    {
        Self { transport_id, name, config, links: Links::new(), stats: WebSocketStats::new() }
    }

    /// Get the instance name (if configured as a named instance).
    pub fn name(&self) -> (r: Option<&str>)
        ensures
            r is Some <==> self@.name is Some,
            r matches Some(t) ==> t@ == self@.name->0,
    {
        match &self.name {
            Some(t) => Some(t.as_str()),
            None => None,
        }
    }

    /// Get the transport statistics.
    pub fn stats(&self) -> (r: &WebSocketStats)
        ensures
            *r == self@.stats,
    {
        &self.stats
    }

    // ========================================================================
    // Lifecycle
    // ========================================================================

    /// Start the transport. Where it has an address to listen on, it is up only when
    /// [`Self::listening`] says so. A transport that failed on the way does not start again.
    pub fn start_async(&mut self) -> (r: Result<StartAction, TransportError>)
        requires
            old(self).wf(),
        ensures
            final(self).wf(),
            !old(self)@.links.state.startable() ==> super::fails_with(
                r,
                ErrorModel::AlreadyStarted,
            ) && final(self)@ == old(self)@,
            old(self)@.links.state.startable() && old(self)@.bind_addr is Some ==> {
                &&& r matches Ok(StartAction::Listen(a)) && a@ == old(self)@.bind_addr->0
                &&& final(self)@ == (WebSocketModel {
                    links: links::links_starting(old(self)@.links),
                    ..old(self)@
                })
            },
            old(self)@.links.state.startable() && old(self)@.bind_addr is None ==> {
                &&& r matches Ok(StartAction::ClientOnly)
                &&& final(self)@ == (WebSocketModel {
                    links: links::links_up(links::links_starting(old(self)@.links), false),
                    ..old(self)@
                })
            },
    {
        match self.links.start() {
            Err(e) => Err(e),
            Ok(()) => match self.config.bind_addr() {
                Some(a) => Ok(StartAction::Listen(a.to_string())),
                None => {
                    self.links.up(false);
                    Ok(StartAction::ClientOnly)
                },
            },
        }
    }

    /// What came of listening. A transport that cannot listen stays where it is.
    pub fn listening(&mut self, outcome: ListenOutcome) -> (r: Result<(), TransportError>)
        requires
            old(self).wf(),
            old(self)@.links.state is Starting,
        ensures
            final(self).wf(),
            match outcome {
                ListenOutcome::BadAddress(m) => super::fails_with(
                    r,
                    ErrorModel::StartFailed("invalid bind address: "@ + m@),
                ) && final(self)@ == old(self)@,
                ListenOutcome::BindFailed(m) => super::fails_with(
                    r,
                    ErrorModel::StartFailed("bind failed: "@ + m@),
                ) && final(self)@ == old(self)@,
                ListenOutcome::Listening => r is Ok && final(self)@ == (WebSocketModel {
                    links: links::links_up(old(self)@.links, true),
                    ..old(self)@
                }),
            },
    {
        match outcome {
            ListenOutcome::BadAddress(m) => Err(
                TransportError::StartFailed(text::join2("invalid bind address: ", m.as_str())),
            ),
            ListenOutcome::BindFailed(m) => Err(
                TransportError::StartFailed(text::join2("bind failed: ", m.as_str())),
            ),
            ListenOutcome::Listening => {
                self.links.up(true);
                Ok(())
            },
        }
    }

    /// Stop the transport: sessions and attempts are given up, and what to take down is returned.
    pub fn stop_async(&mut self) -> (r: Result<StopActions, TransportError>)
        requires
            old(self).wf(),
        ensures
            final(self).wf(),
            old(self)@.links.state is Up ==> r is Ok && links::takes_down(
                r->Ok_0,
                old(self)@.links,
            ) && final(self)@ == (WebSocketModel { links: links::links_stopped(), ..old(self)@ }),
            !(old(self)@.links.state is Up) ==> super::fails_with(r, ErrorModel::NotStarted)
                && final(self)@ == old(self)@,
    {
        self.links.stop()
    }

    /// The session to send a packet for an address on. What came of sending is reported with
    /// [`Self::sent`].
    pub fn send_async(&self, addr: &TransportAddr) -> (r: Result<u64, TransportError>)
        requires
            self.wf(),
        ensures
            !(self@.links.state is Up) ==> super::fails_with(r, ErrorModel::NotStarted),
            self@.links.state is Up && !self@.links.sessions.dom().contains(addr@)
                ==> super::fails_with(
                r,
                ErrorModel::SendFailed(
                    "no "@ + "WebSocket"@ + " session for "@ + super::shown_addr(addr@),
                ),
            ),
            self@.links.state is Up && self@.links.sessions.dom().contains(addr@) ==> r is Ok
                && r->Ok_0 == self@.links.sessions[addr@].handle,
    {
        self.links.route("WebSocket", addr)
    }

    /// What came of sending a packet of `len` bytes: nothing, or an error in words.
    pub fn sent(&mut self, len: usize, failure: Option<String>) -> (r: Result<
        usize,
        TransportError,
    >)
        requires
            old(self).wf(),
        ensures
            final(self).wf(),
            match failure {
                None => r == Ok::<usize, TransportError>(len) && final(self)@ == (WebSocketModel {
                    stats: stats::sent(old(self)@.stats, len as nat),
                    ..old(self)@
                }),
                Some(m) => super::fails_with(
                    r,
                    ErrorModel::SendFailed("WebSocket send failed: "@ + m@),
                ) && final(self)@ == (WebSocketModel {
                    stats: stats::send_failed(old(self)@.stats),
                    ..old(self)@
                }),
            },
    {
        match failure {
            None => {
                self.stats.record_send(len);
                Ok(len)
            },
            Some(m) => {
                self.stats.record_send_error();
                Err(
                    TransportError::SendFailed(text::join2("WebSocket send failed: ", m.as_str())),
                )
            },
        }
    }

    /// Initiate a connection to a remote WebSocket server, unless there is one or an attempt at
    /// one. `handle` is for the attempt.
    pub fn connect_async(&mut self, addr: &TransportAddr, handle: u64) -> (r: Result<
        ConnectAction,
        TransportError,
    >)
        requires
            old(self).wf(),
        ensures
            final(self).wf(),
            final(self)@ == (WebSocketModel { links: final(self)@.links, ..old(self)@ }),
            (final(self)@.links, links::connect_result(r)) == links::links_connect(
                old(self)@.links,
                URL_SCHEME@,
                addr@,
                handle,
            ),
    {
        self.links.connect(URL_SCHEME, addr, handle)
    }

    /// The attempt whose outcome [`Self::connection_state_sync`] wants to know for an address.
    pub fn pending(&self, addr: &TransportAddr) -> (r: Option<u64>)
        requires
            self.wf(),
        ensures
            r == (if !self@.links.sessions.dom().contains(addr@)
                && self@.links.connecting.dom().contains(addr@) {
                Some(self@.links.connecting[addr@].handle)
            } else {
                None
            }),
    {
        self.links.pending(addr)
    }

    /// Query the state of a connection to a remote address, given how far the attempt is. One
    /// that is through is promoted to a session.
    pub fn connection_state_sync(&mut self, addr: &TransportAddr, attempt: Attempt) -> (r:
        ConnectionState)
        requires
            old(self).wf(),
        ensures
            final(self).wf(),
            (final(self)@, r@) == ws_poll(old(self)@, addr@, attempt@),
    {
        let (state, promoted) = self.links.poll(addr, attempt);
        if promoted {
            self.stats.record_session_connected();
        }
        state
    }

    /// Close a specific session, and return its handle.
    pub fn close_connection_async(&mut self, addr: &TransportAddr) -> (r: Option<u64>)
        requires
            old(self).wf(),
        ensures
            final(self).wf(),
            final(self)@ == ws_closed(old(self)@, addr@),
            r == links::links_session(old(self)@.links, addr@),
    {
        match self.links.close(addr) {
            Some(handle) => {
                self.stats.record_session_closed();
                Some(handle)
            },
            None => {
                assert(old(self)@.links.sessions.remove(addr@) =~= old(self)@.links.sessions);
                None
            },
        }
    }

    /// A remote side completed the HTTP Upgrade: its session is kept under its own address, which
    /// is returned, with the session that it replaces.
    pub fn session_accepted(&mut self, peer_addr: &str, handle: u64) -> (r: (
        TransportAddr,
        Option<u64>,
    ))
        requires
            old(self).wf(),
        ensures
            final(self).wf(),
            r.0@ == vstd::utf8::encode_utf8("ws-"@ + peer_addr@),
            r.1 == links::links_session(old(self)@.links, r.0@),
            final(self)@ == ws_accepted(old(self)@, peer_addr@, handle),
    {
        let remote_addr = TransportAddr::from_string(text::join2("ws-", peer_addr).as_str());
        self.stats.record_session_accepted();
        let replaced = self.links.accept(&remote_addr, Slot { handle, max_datagram_size: None });
        (remote_addr, replaced)
    }

    // ========================================================================
    // Transport properties
    // ========================================================================

    pub fn transport_id(&self) -> (r: TransportId)
        ensures
            r == self@.transport_id,
    {
        self.transport_id
    }

    pub fn transport_type(&self) -> (r: &'static str)
        ensures
            r@ == "websocket"@,
    {
        "websocket"
    }

    pub fn state(&self) -> (r: TransportState)
        ensures
            r == self@.links.state,
    {
        self.links.state()
    }

    /// WebSocket has no practical MTU limit (TCP underneath): the largest that can be told.
    pub fn mtu(&self) -> (r: u16)
        ensures
            r == u16::MAX,
    {
        u16::MAX
    }

    pub fn start(&mut self) -> (r: Result<(), TransportError>)
        ensures
            super::fails_with(
                r,
                ErrorModel::NotSupported("use start_async() for WebSocket transport"@),
            ),
            *final(self) == *old(self),
    {
        Err(TransportError::NotSupported("use start_async() for WebSocket transport".to_string()))
    }

    pub fn stop(&mut self) -> (r: Result<(), TransportError>)
        ensures
            super::fails_with(
                r,
                ErrorModel::NotSupported("use stop_async() for WebSocket transport"@),
            ),
            *final(self) == *old(self),
    {
        Err(TransportError::NotSupported("use stop_async() for WebSocket transport".to_string()))
    }

    pub fn send(&self, _addr: &TransportAddr, _data: &[u8]) -> (r: Result<(), TransportError>)
        ensures
            super::fails_with(
                r,
                ErrorModel::NotSupported("use send_async() for WebSocket transport"@),
            ),
    {
        Err(TransportError::NotSupported("use send_async() for WebSocket transport".to_string()))
    }

    /// WebSocket finds no peers by itself.
    pub fn discover(&self) -> (r: Result<Vec<DiscoveredPeer>, TransportError>)
        ensures
            r matches Ok(peers) && peers@.len() == 0,
    {
        Ok(Vec::new())
    }

    /// Whether to accept incoming connections.
    pub fn accept_connections(&self) -> (r: bool)
        ensures
            r == self@.accepts,
    {
        self.config.accept_connections()
    }

    /// One step of the receive loop of a session.
    pub fn received(&mut self, remote_addr: &TransportAddr, event: SocketEvent) -> (r:
        ReceiveAction)
        requires
            old(self).wf(),
        ensures
            final(self).wf(),
            final(self)@ == (WebSocketModel {
                stats: rx_stats(old(self)@.stats, event@),
                ..old(self)@
            }),
            acts_on(r, event@, old(self)@.transport_id, remote_addr@),
    {
        ws_rx_step(&mut self.stats, self.transport_id, remote_addr, event)
    }
}

// ============================================================================
// Message receive loop
// ============================================================================

/// What the receive loop of a session meets.
pub enum SocketEvent {
    Binary(Vec<u8>),
    Close,
    Ping,
    Pong,
    /// Text or any other kind of message.
    Other,
    Error,
    /// There is nothing more to read.
    End,
    /// The node takes no more packets.
    NodeGone,
}

/// What the receive loop of a session meets, as a value.
pub enum EventModel {
    Binary(Seq<u8>),
    Close,
    Ping,
    Pong,
    Other,
    Error,
    End,
    NodeGone,
}

impl View for SocketEvent {
    type V = EventModel;

    open spec fn view(&self) -> EventModel {
        match self {
            SocketEvent::Binary(data) => EventModel::Binary(data@),
            SocketEvent::Close => EventModel::Close,
            SocketEvent::Ping => EventModel::Ping,
            SocketEvent::Pong => EventModel::Pong,
            SocketEvent::Other => EventModel::Other,
            SocketEvent::Error => EventModel::Error,
            SocketEvent::End => EventModel::End,
            SocketEvent::NodeGone => EventModel::NodeGone,
        }
    }
}

/// What the receive loop does next.
pub enum ReceiveAction {
    /// Hand the packet to the node, and read on.
    Deliver(ReceivedPacket),
    /// Read on.
    Ignore,
    /// End the loop.
    Stop,
}

/// Whether an event ends the receive loop.
pub open spec fn ends(event: EventModel) -> bool {
    event is Close || event is Error || event is End || event is NodeGone
}

/// The statistics after an event.
pub open spec fn rx_stats(s: WebSocketStats, event: EventModel) -> WebSocketStats {
    match event {
        EventModel::Binary(data) => stats::received(s, data.len()),
        EventModel::Error => stats::session_closed(stats::recv_failed(s)),
        EventModel::Close | EventModel::End | EventModel::NodeGone => stats::session_closed(s),
        EventModel::Ping | EventModel::Pong | EventModel::Other => s,
    }
}

/// Whether an action is the right one for an event.
pub open spec fn acts_on(
    action: ReceiveAction,
    event: EventModel,
    transport_id: TransportId,
    remote_addr: Seq<u8>,
) -> bool {
    match event {
        EventModel::Binary(data) => action matches ReceiveAction::Deliver(p) && p.transport_id
            == transport_id && p.remote_addr@ == remote_addr && p.data@ == data,
        _ => if ends(event) {
            action is Stop
        } else {
            action is Ignore
        },
    }
}

/// One step of the receive loop of a session: binary messages are packets, an error or the end
/// closes the session, and anything else is passed over.
pub fn ws_rx_step(
    stats: &mut WebSocketStats,
    transport_id: TransportId,
    remote_addr: &TransportAddr,
    event: SocketEvent,
) -> (r: ReceiveAction)
    ensures
        *final(stats) == rx_stats(*old(stats), event@),
        acts_on(r, event@, transport_id, remote_addr@),
{
    match event {
        SocketEvent::Binary(data) => {
            stats.record_recv(data.len());
            ReceiveAction::Deliver(
                ReceivedPacket { transport_id, remote_addr: remote_addr.copy(), data },
            )
        },
        SocketEvent::Error => {
            stats.record_recv_error();
            stats.record_session_closed();
            ReceiveAction::Stop
        },
        SocketEvent::Close | SocketEvent::End | SocketEvent::NodeGone => {
            stats.record_session_closed();
            ReceiveAction::Stop
        },
        SocketEvent::Ping | SocketEvent::Pong | SocketEvent::Other => ReceiveAction::Ignore,
    }
}

// ============================================================================
// Laws
// ============================================================================

/// The statistics after the events of a receive loop, of which all but the last leave it running.
pub open spec fn loop_stats(s: WebSocketStats, events: Seq<EventModel>) -> WebSocketStats
    decreases events.len(),
{
    if events.len() == 0 {
        s
    } else {
        rx_stats(loop_stats(s, events.drop_last()), events.last())
    }
}

/// What the packets among the events hold, in the order in which they came.
pub open spec fn packets_in(events: Seq<EventModel>) -> Seq<Seq<u8>>
    decreases events.len(),
{
    if events.len() == 0 {
        Seq::empty()
    } else {
        match events.last() {
            EventModel::Binary(data) => packets_in(events.drop_last()).push(data),
            _ => packets_in(events.drop_last()),
        }
    }
}

/// How many bytes the packets among the events hold.
pub open spec fn bytes_in(events: Seq<EventModel>) -> nat
    decreases events.len(),
{
    if events.len() == 0 {
        0
    } else {
        bytes_in(events.drop_last()) + match events.last() {
            EventModel::Binary(data) => data.len(),
            _ => 0,
        }
    }
}

/// The packets that a row of actions hands on, in order.
pub open spec fn handed_on(actions: Seq<ReceiveAction>) -> Seq<ReceivedPacket>
    decreases actions.len(),
{
    if actions.len() == 0 {
        Seq::empty()
    } else {
        match actions.last() {
            ReceiveAction::Deliver(p) => handed_on(actions.drop_last()).push(p),
            _ => handed_on(actions.drop_last()),
        }
    }
}

/// A receive loop counts every packet and every byte that it met, its session as closed exactly
/// when it ends, and an error exactly when it ends with one; no other counter changes.
pub proof fn law_receive_loop_counts(s: WebSocketStats, events: Seq<EventModel>)
    requires
        forall|i: int| 0 <= i < events.len() - 1 ==> !ends(#[trigger] events[i]),
    ensures
        ({
            let closed: nat = if events.len() > 0 && ends(events.last()) {
                1
            } else {
                0
            };
            let failed: nat = if events.len() > 0 && events.last() is Error {
                1
            } else {
                0
            };
            loop_stats(s, events) == (WebSocketStats {
                messages_recv: stats::counted(s.messages_recv, packets_in(events).len()),
                bytes_recv: stats::counted(s.bytes_recv, bytes_in(events)),
                recv_errors: stats::counted(s.recv_errors, failed),
                sessions_closed: stats::counted(s.sessions_closed, closed),
                ..s
            })
        }),
    decreases events.len(),
{
    stats::lemma_counted_twice(s.messages_recv, 0, 0);
    stats::lemma_counted_twice(s.bytes_recv, 0, 0);
    stats::lemma_counted_twice(s.recv_errors, 0, 0);
    stats::lemma_counted_twice(s.sessions_closed, 0, 0);
    if events.len() > 0 {
        let before = events.drop_last();
        assert forall|i: int| 0 <= i < before.len() - 1 implies !ends(#[trigger] before[i]) by {
            assert(before[i] == events[i]);
        }
        if before.len() > 0 {
            assert(before.last() == events[events.len() - 2]);
        }
        law_receive_loop_counts(s, before);
        let size: nat = match events.last() {
            EventModel::Binary(data) => data.len(),
            _ => 0,
        };
        stats::lemma_counted_twice(s.messages_recv, packets_in(before).len(), 1);
        stats::lemma_counted_twice(s.bytes_recv, bytes_in(before), size);
    }
}

/// A receive loop hands on exactly the packets that came, in their order, each under the
/// address and the transport that the loop is for; and it stops exactly at an event that ends it.
pub proof fn law_receive_loop_delivers(
    events: Seq<EventModel>,
    actions: Seq<ReceiveAction>,
    transport_id: TransportId,
    remote_addr: Seq<u8>,
)
    requires
        actions.len() == events.len(),
        forall|i: int|
            0 <= i < events.len() ==> acts_on(
                #[trigger] actions[i],
                events[i],
                transport_id,
                remote_addr,
            ),
    ensures
        handed_on(actions).len() == packets_in(events).len(),
        forall|j: int|
            0 <= j < handed_on(actions).len() ==> {
                let p = #[trigger] handed_on(actions)[j];
                &&& p.data@ == packets_in(events)[j]
                &&& p.remote_addr@ == remote_addr
                &&& p.transport_id == transport_id
            },
        forall|i: int|
            0 <= i < events.len() ==> (#[trigger] actions[i] is Stop <==> ends(events[i])),
    decreases events.len(),
{
    if events.len() > 0 {
        let before = events.drop_last();
        let acted = actions.drop_last();
        assert forall|i: int| 0 <= i < before.len() implies acts_on(
            #[trigger] acted[i],
            before[i],
            transport_id,
            remote_addr,
        ) by {
            assert(acted[i] == actions[i]);
        }
        law_receive_loop_delivers(before, acted, transport_id, remote_addr);
        assert(acts_on(actions.last(), events.last(), transport_id, remote_addr)) by {
            assert(actions.last() == actions[events.len() - 1]);
        }
    }
}

/// A session that a remote side opened is where packets for its address are sent, until it is
/// closed; each is counted.
pub proof fn law_accepted_session(t: WebSocketModel, peer: Seq<char>, handle: u64)
    ensures
        ({
            let addr = vstd::utf8::encode_utf8("ws-"@ + peer);
            let open = ws_accepted(t, peer, handle);
            let closed = ws_closed(open, addr);
            &&& open.links.sessions.dom().contains(addr)
            &&& open.links.sessions[addr].handle == handle
            &&& !closed.links.sessions.dom().contains(addr)
            &&& closed.stats.sessions_accepted == stats::counted(t.stats.sessions_accepted, 1)
            &&& closed.stats.sessions_closed == stats::counted(t.stats.sessions_closed, 1)
        }),
{
}

/// What a question for a connection does to the transport: its links change as links do, a session
/// that was opened by it is counted as connected, and nothing else changes.
pub proof fn law_polling_counts(t: WebSocketModel, addr: Seq<u8>, attempt: AttemptModel)
    ensures
        ({
            let (after, state) = ws_poll(t, addr, attempt);
            let (links, answer) = links::links_poll(t.links, addr, attempt);
            let opened = !t.links.sessions.dom().contains(addr) && links.sessions.dom().contains(
                addr,
            );
            &&& state == answer
            &&& after == WebSocketModel { links, stats: after.stats, ..t }
            &&& opened ==> after.stats == WebSocketStats {
                sessions_connected: stats::counted(t.stats.sessions_connected, 1),
                ..t.stats
            }
            &&& !opened ==> after.stats == t.stats
        }),
{
}

/// Closing a session takes it out and counts it, and touches no other; where there is none, nothing
/// changes.
pub proof fn law_closing(t: WebSocketModel, addr: Seq<u8>, other: Seq<u8>)
    ensures
        ({
            let after = ws_closed(t, addr);
            let had = t.links.sessions.dom().contains(addr);
            &&& !had ==> after == t
            &&& after == WebSocketModel { links: after.links, stats: after.stats, ..t }
            &&& after.links == LinksModel { sessions: after.links.sessions, ..t.links }
            &&& !after.links.sessions.dom().contains(addr)
            &&& other != addr ==> (after.links.sessions.dom().contains(other)
                <==> t.links.sessions.dom().contains(other))
            &&& other != addr && t.links.sessions.dom().contains(other)
                ==> after.links.sessions[other] == t.links.sessions[other]
            &&& had ==> after.stats == WebSocketStats {
                sessions_closed: stats::counted(t.stats.sessions_closed, 1),
                ..t.stats
            }
        }),
{
}

/// A session that a remote side opened is kept under `ws-` and the peer's address, without a limit
/// on its messages, and counted as accepted; no other session and no other counter is touched.
pub proof fn law_accepting(t: WebSocketModel, peer: Seq<char>, handle: u64, other: Seq<u8>)
    ensures
        ({
            let addr = vstd::utf8::encode_utf8("ws-"@ + peer);
            let after = ws_accepted(t, peer, handle);
            &&& after == WebSocketModel { links: after.links, stats: after.stats, ..t }
            &&& after.links == LinksModel { sessions: after.links.sessions, ..t.links }
            &&& after.links.sessions.dom().contains(addr)
            &&& after.links.sessions[addr].handle == handle
            &&& after.links.sessions[addr].max_datagram_size is None
            &&& other != addr ==> (after.links.sessions.dom().contains(other)
                <==> t.links.sessions.dom().contains(other))
            &&& other != addr && t.links.sessions.dom().contains(other)
                ==> after.links.sessions[other] == t.links.sessions[other]
            &&& after.stats == WebSocketStats {
                sessions_accepted: stats::counted(t.stats.sessions_accepted, 1),
                ..t.stats
            }
        }),
{
}

/// A binary message is counted with its size and handed on; a close, an error, the end of the
/// stream and a node that is gone each end the loop, and count the session as closed; everything
/// else is passed over and not counted.
pub proof fn law_socket_events(
    s: WebSocketStats,
    data: Seq<u8>,
    action: ReceiveAction,
    id: TransportId,
    remote: Seq<u8>,
)
    ensures
        rx_stats(s, EventModel::Binary(data)) == (WebSocketStats {
            messages_recv: stats::counted(s.messages_recv, 1),
            bytes_recv: stats::counted(s.bytes_recv, data.len()),
            ..s
        }),
        acts_on(action, EventModel::Binary(data), id, remote) ==> action is Deliver
            && action->Deliver_0.data@ == data && action->Deliver_0.remote_addr@ == remote
            && action->Deliver_0.transport_id == id,
        rx_stats(s, EventModel::Error) == (WebSocketStats {
            recv_errors: stats::counted(s.recv_errors, 1),
            sessions_closed: stats::counted(s.sessions_closed, 1),
            ..s
        }),
        acts_on(action, EventModel::Error, id, remote) <==> action is Stop,
        forall|e: EventModel|
            #![trigger rx_stats(s, e)]
            #![trigger acts_on(action, e, id, remote)]
            e is Close || e is End || e is NodeGone ==> rx_stats(s, e) == (WebSocketStats {
                sessions_closed: stats::counted(s.sessions_closed, 1),
                ..s
            }) && (acts_on(action, e, id, remote) <==> action is Stop),
        forall|e: EventModel|
            #![trigger rx_stats(s, e)]
            #![trigger acts_on(action, e, id, remote)]
            e is Ping || e is Pong || e is Other ==> rx_stats(s, e) == s && (acts_on(
                action,
                e,
                id,
                remote,
            ) <==> action is Ignore),
{
}

} // verus!

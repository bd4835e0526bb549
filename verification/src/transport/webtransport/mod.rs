//! WebTransport transport.
//!
//! Uses unreliable QUIC datagrams as the packet delivery mechanism.
//!
//! Supports both server mode (accepting incoming WebTransport sessions) and client mode
//! (connecting to a remote WebTransport server). TLS is mandatory (QUIC/HTTP3 requirement) but
//! FIPS authentication happens at the Noise layer, so client mode skips TLS certificate
//! validation.

pub mod stats;

use self::stats::WebTransportStats;
use super::links;
use super::links::{Attempt, AttemptModel, ConnectAction, Links, LinksModel, StopActions};
use super::{
    ConnectionModel, ConnectionState, DiscoveredPeer, ErrorModel, ReceivedPacket, Slot,
    TransportAddr, TransportError, TransportId, TransportState,
};
use crate::text;
use vstd::prelude::*;

verus! {

/// Default initial MTU (UDP payload size) for QUIC connections.
///
/// 1452 bytes fits standard 1500-byte Ethernet with IPv6 + UDP headers (1500 - 40 - 8 = 1452).
/// After subtracting QUIC/H3/WebTransport overhead (~23 bytes), this gives ~1429 bytes of
/// datagram payload: enough for a full IPv6 minimum-MTU packet (1280) wrapped in FMP framing
/// (37 bytes overhead).
pub const DEFAULT_INITIAL_MTU: u16 = 1452;

/// Minimum MTU floor for QUIC (RFC 9000 minimum).
pub const DEFAULT_MIN_MTU: u16 = 1200;

/// FMP overhead: encrypted header (16) + AEAD tag (16) + inner header (5).
pub const FMP_OVERHEAD: usize = 37;

/// The smallest packet that every IPv6 link must carry.
pub const IPV6_MIN_MTU: usize = 1280;

/// Maximum datagram payload size, unless configured.
pub const DEFAULT_MTU: u16 = 1200;

/// Where the TLS certificate is kept, unless configured.
pub const DEFAULT_CERT_FILE: &'static str = "/etc/fips/wt-cert.pem";

/// Where the TLS private key is kept, unless configured.
pub const DEFAULT_KEY_FILE: &'static str = "/etc/fips/wt-key.pem";

/// How often an idle server connection is kept alive, in seconds.
pub const KEEP_ALIVE_SECS: u64 = 3;

/// How a client names a server: its address behind this.
pub const URL_SCHEME: &'static str = "https://";

/// Configuration of a WebTransport transport.
pub struct WebTransportConfig {
    /// Server listen address (`host:port`). Without it, the transport is client-only.
    pub bind_addr: Option<String>,
    /// Path to the TLS certificate PEM file.
    pub cert_file: Option<String>,
    /// Path to the TLS private key PEM file.
    pub key_file: Option<String>,
    /// Maximum datagram payload size in bytes.
    pub mtu: Option<u16>,
    /// Whether to accept incoming sessions. Default: true.
    pub accept_connections: Option<bool>,
}

/// A configured text, or what stands for it.
pub open spec fn text_or(s: Option<String>, default: Seq<char>) -> Seq<char> {
    match s {
        Some(t) => t@,
        None => default,
    }
}

/// The MTU that a configuration gives.
pub open spec fn configured_mtu(config: WebTransportConfig) -> u16 {
    match config.mtu {
        Some(m) => m,
        None => DEFAULT_MTU,
    }
}

impl WebTransportConfig {
    /// The server listen address, if any.
    pub fn bind_addr(&self) -> (r: Option<&str>)
        ensures
            r is Some <==> self.bind_addr is Some,
            r matches Some(t) ==> t@ == self.bind_addr->0@,
    {
        match &self.bind_addr {
            Some(t) => Some(t.as_str()),
            None => None,
        }
    }

    /// Path to the TLS certificate PEM file.
    pub fn cert_file(&self) -> (r: &str)
        ensures
            r@ == text_or(self.cert_file, DEFAULT_CERT_FILE@),
    {
        match &self.cert_file {
            Some(t) => t.as_str(),
            None => DEFAULT_CERT_FILE,
        }
    }

    /// Path to the TLS private key PEM file.
    pub fn key_file(&self) -> (r: &str)
        ensures
            r@ == text_or(self.key_file, DEFAULT_KEY_FILE@),
    {
        match &self.key_file {
            Some(t) => t.as_str(),
            None => DEFAULT_KEY_FILE,
        }
    }

    /// Maximum datagram payload size in bytes.
    pub fn mtu(&self) -> (r: u16)
        ensures
            r == configured_mtu(*self),
    {
        match self.mtu {
            Some(m) => m,
            None => DEFAULT_MTU,
        }
    }

    /// Whether to accept incoming sessions.
    pub fn accept_connections(&self) -> (r: bool)
        ensures
            r == (self.accept_connections != Some(false)),
    {
        match self.accept_connections {
            Some(b) => b,
            None => true,
        }
    }
}

/// How a transport starts.
pub enum StartAction {
    /// Load or generate the TLS identity, serve on this address, and report with
    /// [`WebTransportTransport::serving`].
    Serve(String),
    /// There is nothing to serve on: the transport is up.
    ClientOnly,
}

/// What came of serving.
pub enum ServeOutcome {
    /// There is no TLS identity.
    NoIdentity(TransportError),
    /// The address cannot be read, in the words of the cause.
    BadAddress(String),
    /// The endpoint cannot be created, in the words of the cause.
    NoEndpoint(String),
    Serving,
}

/// WebTransport transport for FIPS.
///
/// Uses QUIC/HTTP3 WebTransport sessions with unreliable datagrams for packet delivery.
/// Connection-oriented (QUIC session establishment) but unreliable (datagrams may be lost or
/// reordered).
pub struct WebTransportTransport {
    /// Unique transport identifier.
    transport_id: TransportId,
    /// Optional instance name (for named instances in config).
    name: Option<String>,
    /// Configuration.
    config: WebTransportConfig,
    /// Current state, active sessions and pending client connections.
    links: Links,
    /// Transport statistics.
    stats: WebTransportStats,
}

/// A WebTransport transport as a value.
#[verifier::ext_equal]
pub struct WebTransportModel {
    pub transport_id: TransportId,
    pub name: Option<Seq<char>>,
    pub bind_addr: Option<Seq<char>>,
    pub cert_file: Seq<char>,
    pub key_file: Seq<char>,
    pub mtu: u16,
    pub accepts: bool,
    pub links: LinksModel,
    pub stats: WebTransportStats,
}

/// A transport that was configured and nothing more.
pub open spec fn wt_new(
    transport_id: TransportId,
    name: Option<String>,
    config: WebTransportConfig,
) -> WebTransportModel {
    WebTransportModel {
        transport_id,
        name: text::optional_text(name),
        bind_addr: text::optional_text(config.bind_addr),
        cert_file: text_or(config.cert_file, DEFAULT_CERT_FILE@),
        key_file: text_or(config.key_file, DEFAULT_KEY_FILE@),
        mtu: configured_mtu(config),
        accepts: config.accept_connections != Some(false),
        links: links::links_new(),
        stats: stats::stats_new(),
    }
}

impl View for WebTransportTransport {
    type V = WebTransportModel;

    closed spec fn view(&self) -> WebTransportModel {
        WebTransportModel {
            links: self.links@,
            stats: self.stats,
            ..wt_new(self.transport_id, self.name, self.config)
        }
    }
}

/// The transport after a question for the state of a connection.
pub open spec fn wt_poll(t: WebTransportModel, addr: Seq<u8>, attempt: AttemptModel) -> (
    WebTransportModel,
    ConnectionModel,
) {
    let (links, state) = links::links_poll(t.links, addr, attempt);
    let stats = if links::links_promotes(t.links, addr, attempt) {
        stats::session_connected(t.stats)
    } else {
        t.stats
    };
    (WebTransportModel { links, stats, ..t }, state)
}

/// The address of a session that a remote side opened: its stable ID, so that outbound sends can
/// be routed back to the right QUIC connection.
pub open spec fn session_addr(session_id: u64) -> Seq<u8> {
    vstd::utf8::encode_utf8("wt-session-"@ + text::decimal(session_id as nat))
}

/// The transport after a remote side opened a session.
pub open spec fn wt_accepted(
    t: WebTransportModel,
    session_id: u64,
    slot: Slot,
) -> WebTransportModel {
    WebTransportModel {
        links: LinksModel {
            sessions: t.links.sessions.insert(session_addr(session_id), slot),
            ..t.links
        },
        stats: stats::session_accepted(t.stats),
        ..t
    }
}

/// The transport after a session was closed on request.
pub open spec fn wt_closed(t: WebTransportModel, addr: Seq<u8>) -> WebTransportModel {
    if t.links.sessions.dom().contains(addr) {
        WebTransportModel {
            links: LinksModel { sessions: t.links.sessions.remove(addr), ..t.links },
            stats: stats::session_closed(t.stats),
            ..t
        }
    } else {
        t
    }
}

/// A datagram size as an MTU.
pub open spec fn size_as_mtu(size: usize) -> u16 {
    if size <= u16::MAX {
        size as u16
    } else {
        u16::MAX
    }
}

/// The MTU towards an address: the live datagram size of its session, else the one at its
/// establishment, else the configured MTU.
pub open spec fn wt_link_mtu(t: WebTransportModel, addr: Seq<u8>, live: Option<usize>) -> u16 {
    if !t.links.sessions.dom().contains(addr) {
        t.mtu
    } else {
        match (live, t.links.sessions[addr].max_datagram_size) {
            (Some(size), _) => size_as_mtu(size),
            (None, Some(size)) => size_as_mtu(size),
            (None, None) => t.mtu,
        }
    }
}

fn mtu_of_size(size: usize) -> (r: u16)
    ensures
        r == size_as_mtu(size),
{
    if size <= 65535 {
        size as u16
    } else {
        65535
    }
}

/// What is left of a datagram for the payload of an FMP frame.
pub fn fmp_payload(max_datagram_size: usize) -> (r: usize)
    ensures
        r == if max_datagram_size >= FMP_OVERHEAD {
            max_datagram_size - FMP_OVERHEAD
        } else {
            0
        },
{
    if max_datagram_size >= FMP_OVERHEAD {
        max_datagram_size - FMP_OVERHEAD
    } else {
        0
    }
}

/// Whether a full IPv6 minimum-MTU packet fits into a datagram.
pub fn ipv6_fits(max_datagram_size: Option<usize>) -> (r: bool)
    ensures
        r == (max_datagram_size is Some && max_datagram_size->0 >= IPV6_MIN_MTU + FMP_OVERHEAD),
{
    match max_datagram_size {
        Some(size) => fmp_payload(size) >= IPV6_MIN_MTU,
        None => false,
    }
}

impl WebTransportTransport {
    /// No address has two sessions, or two connection attempts.
    pub closed spec fn wf(&self) -> bool {
        self.links.wf()
    }

    /// Create a new WebTransport transport.
    pub fn new(transport_id: TransportId, name: Option<String>, config: WebTransportConfig) -> (r:
        Self)
        ensures
            r.wf(),
            r@ == wt_new(transport_id, name, config),
    {
        Self { transport_id, name, config, links: Links::new(), stats: WebTransportStats::new() }
    }

    /// Get the instance name (if configured as a named instance).
    pub fn name(&self) -> (r: Option<&str>)
        ensures
            r is Some <==> self@.name is Some,
            r matches Some(t) ==> t@ == self@.name->0,
    {
        match &self.name {
            Some(t) => Some(t.as_str()),
            None => None,
        }
    }

    /// Get the transport statistics.
    pub fn stats(&self) -> (r: &WebTransportStats)
        ensures
            *r == self@.stats,
    {
        &self.stats
    }

    /// Whether to accept incoming connections. Default: true.
    pub fn accept_connections(&self) -> (r: bool)
        ensures
            r == self@.accepts,
    {
        self.config.accept_connections()
    }

    /// Path to the TLS certificate PEM file.
    pub fn cert_file(&self) -> (r: &str)
        ensures
            r@ == self@.cert_file,
    {
        self.config.cert_file()
    }

    /// Path to the TLS private key PEM file.
    pub fn key_file(&self) -> (r: &str)
        ensures
            r@ == self@.key_file,
    {
        self.config.key_file()
    }

    // ========================================================================
    // Lifecycle
    // ========================================================================

    /// Start the transport.
    ///
    /// If `bind_addr` is configured, the transport is up only when [`Self::serving`] says so. If
    /// `bind_addr` is absent, the transport starts in client-only mode (outbound connections
    /// only). A transport that failed on the way does not start again.
    pub fn start_async(&mut self) -> (r: Result<StartAction, TransportError>)
        requires
            old(self).wf(),
        ensures
            final(self).wf(),
            !old(self)@.links.state.startable() ==> super::fails_with(
                r,
                ErrorModel::AlreadyStarted,
            ) && final(self)@ == old(self)@,
            old(self)@.links.state.startable() && old(self)@.bind_addr is Some ==> {
                &&& r matches Ok(StartAction::Serve(a)) && a@ == old(self)@.bind_addr->0
                &&& final(self)@ == (WebTransportModel {
                    links: links::links_starting(old(self)@.links),
                    ..old(self)@
                })
            },
            old(self)@.links.state.startable() && old(self)@.bind_addr is None ==> {
                &&& r matches Ok(StartAction::ClientOnly)
                &&& final(self)@ == (WebTransportModel {
                    links: links::links_up(links::links_starting(old(self)@.links), false),
                    ..old(self)@
                })
            },
    {
        match self.links.start() {
            Err(e) => Err(e),
            Ok(()) => match self.config.bind_addr() {
                Some(a) => Ok(StartAction::Serve(a.to_string())),
                None => {
                    self.links.up(false);
                    Ok(StartAction::ClientOnly)
                },
            },
        }
    }

    /// What came of serving. A transport that cannot serve stays where it is.
    pub fn serving(&mut self, outcome: ServeOutcome) -> (r: Result<(), TransportError>)
        requires
            old(self).wf(),
            old(self)@.links.state is Starting,
        ensures
            final(self).wf(),
            match outcome {
                ServeOutcome::NoIdentity(e) => super::fails_with(r, e@) && final(self)@
                    == old(self)@,
                ServeOutcome::BadAddress(m) => super::fails_with(
                    r,
                    ErrorModel::StartFailed("invalid bind address: "@ + m@),
                ) && final(self)@ == old(self)@,
                ServeOutcome::NoEndpoint(m) => super::fails_with(
                    r,
                    ErrorModel::StartFailed("endpoint creation failed: "@ + m@),
                ) && final(self)@ == old(self)@,
                ServeOutcome::Serving => r is Ok && final(self)@ == (WebTransportModel {
                    links: links::links_up(old(self)@.links, true),
                    ..old(self)@
                }),
            },
    {
        match outcome {
            ServeOutcome::NoIdentity(e) => Err(e),
            ServeOutcome::BadAddress(m) => Err(
                TransportError::StartFailed(text::join2("invalid bind address: ", m.as_str())),
            ),
            ServeOutcome::NoEndpoint(m) => Err(
                TransportError::StartFailed(text::join2("endpoint creation failed: ", m.as_str())),
            ),
            ServeOutcome::Serving => {
                self.links.up(true);
                Ok(())
            },
        }
    }

    /// Stop the transport: sessions and attempts are given up, and what to take down is returned.
    pub fn stop_async(&mut self) -> (r: Result<StopActions, TransportError>)
        requires
            old(self).wf(),
        ensures
            final(self).wf(),
            old(self)@.links.state is Up ==> r is Ok && links::takes_down(
                r->Ok_0,
                old(self)@.links,
            ) && final(self)@ == (WebTransportModel {
                links: links::links_stopped(),
                ..old(self)@
            }),
            !(old(self)@.links.state is Up) ==> super::fails_with(r, ErrorModel::NotStarted)
                && final(self)@ == old(self)@,
    {
        self.links.stop()
    }

    /// The session to send a datagram for an address on. What came of sending is reported with
    /// [`Self::sent`].
    pub fn send_async(&self, addr: &TransportAddr) -> (r: Result<u64, TransportError>)
        requires
            self.wf(),
        ensures
            !(self@.links.state is Up) ==> super::fails_with(r, ErrorModel::NotStarted),
            self@.links.state is Up && !self@.links.sessions.dom().contains(addr@)
                ==> super::fails_with(
                r,
                ErrorModel::SendFailed(
                    "no "@ + "WebTransport"@ + " session for "@ + super::shown_addr(addr@),
                ),
            ),
            self@.links.state is Up && self@.links.sessions.dom().contains(addr@) ==> r is Ok
                && r->Ok_0 == self@.links.sessions[addr@].handle,
    {
        self.links.route("WebTransport", addr)
    }

    /// What came of sending a datagram of `len` bytes: nothing, or an error in words.
    pub fn sent(&mut self, len: usize, failure: Option<String>) -> (r: Result<
        usize,
        TransportError,
    >)
        requires
            old(self).wf(),
        ensures
            final(self).wf(),
            match failure {
                None => r == Ok::<usize, TransportError>(len) && final(self)@
                    == (WebTransportModel {
                    stats: stats::sent(old(self)@.stats, len as nat),
                    ..old(self)@
                }),
                Some(m) => super::fails_with(
                    r,
                    ErrorModel::SendFailed("datagram send failed: "@ + m@),
                ) && final(self)@ == (WebTransportModel {
                    stats: stats::send_failed(old(self)@.stats),
                    ..old(self)@
                }),
            },
    {
        match failure {
            None => {
                self.stats.record_send(len);
                Ok(len)
            },
            Some(m) => {
                self.stats.record_send_error();
                Err(TransportError::SendFailed(text::join2("datagram send failed: ", m.as_str())))
            },
        }
    }

    /// Initiate a non-blocking client connection to a remote WebTransport server, unless there is
    /// one or an attempt at one. `handle` is for the attempt.
    pub fn connect_async(&mut self, addr: &TransportAddr, handle: u64) -> (r: Result<
        ConnectAction,
        TransportError,
    >)
        requires
            old(self).wf(),
        ensures
            final(self).wf(),
            final(self)@ == (WebTransportModel { links: final(self)@.links, ..old(self)@ }),
            (final(self)@.links, links::connect_result(r)) == links::links_connect(
                old(self)@.links,
                URL_SCHEME@,
                addr@,
                handle,
            ),
    {
        self.links.connect(URL_SCHEME, addr, handle)
    }

    /// The attempt whose outcome [`Self::connection_state_sync`] wants to know for an address.
    pub fn pending(&self, addr: &TransportAddr) -> (r: Option<u64>)
        requires
            self.wf(),
        ensures
            r == (if !self@.links.sessions.dom().contains(addr@)
                && self@.links.connecting.dom().contains(addr@) {
                Some(self@.links.connecting[addr@].handle)
            } else {
                None
            }),
    {
        self.links.pending(addr)
    }

    /// Query the state of a connection to a remote address, given how far the attempt is. One
    /// that is through is promoted to a session.
    pub fn connection_state_sync(&mut self, addr: &TransportAddr, attempt: Attempt) -> (r:
        ConnectionState)
        requires
            old(self).wf(),
        ensures
            final(self).wf(),
            (final(self)@, r@) == wt_poll(old(self)@, addr@, attempt@),
    {
        let (state, promoted) = self.links.poll(addr, attempt);
        if promoted {
            self.stats.record_session_connected();
        }
        state
    }

    /// Close a specific session, and return its handle.
    pub fn close_connection_async(&mut self, addr: &TransportAddr) -> (r: Option<u64>)
        requires
            old(self).wf(),
        ensures
            final(self).wf(),
            final(self)@ == wt_closed(old(self)@, addr@),
            r == links::links_session(old(self)@.links, addr@),
    {
        match self.links.close(addr) {
            Some(handle) => {
                self.stats.record_session_closed();
                Some(handle)
            },
            None => {
                assert(old(self)@.links.sessions.remove(addr@) =~= old(self)@.links.sessions);
                None
            },
        }
    }

    /// A remote side opened a session: it is kept under its own address, which is returned, with
    /// the session that it replaces.
    pub fn session_accepted(
        &mut self,
        session_id: u64,
        handle: u64,
        max_datagram_size: Option<usize>,
    ) -> (r: (TransportAddr, Option<u64>))
        requires
            old(self).wf(),
        ensures
            final(self).wf(),
            r.0@ == session_addr(session_id),
            r.1 == links::links_session(old(self)@.links, r.0@),
            final(self)@ == wt_accepted(
                old(self)@,
                session_id,
                (Slot { handle, max_datagram_size }),
            ),
    {
        let id = text::decimal_text(session_id);
        let remote_addr = TransportAddr::from_string(
            text::join2("wt-session-", id.as_str()).as_str(),
        );
        self.stats.record_session_accepted();
        let replaced = self.links.accept(&remote_addr, Slot { handle, max_datagram_size });
        (remote_addr, replaced)
    }

    // ========================================================================
    // Transport properties
    // ========================================================================

    pub fn transport_id(&self) -> (r: TransportId)
        ensures
            r == self@.transport_id,
    {
        self.transport_id
    }

    pub fn transport_type(&self) -> (r: &'static str)
        ensures
            r@ == "webtransport"@,
    {
        "webtransport"
    }

    pub fn state(&self) -> (r: TransportState)
        ensures
            r == self@.links.state,
    {
        self.links.state()
    }

    /// The configured MTU.
    pub fn mtu(&self) -> (r: u16)
        ensures
            r == self@.mtu,
    {
        self.config.mtu()
    }

    /// The MTU towards an address, given what its session says now (which tracks PMTU changes).
    pub fn link_mtu(&self, addr: &TransportAddr, live_size: Option<usize>) -> (r: u16)
        requires
            self.wf(),
        ensures
            r == wt_link_mtu(self@, addr@, live_size),
    {
        match self.links.session(addr) {
            Some(slot) => match (live_size, slot.max_datagram_size) {
                (Some(size), _) => mtu_of_size(size),
                (None, Some(size)) => mtu_of_size(size),
                (None, None) => self.config.mtu(),
            },
            None => self.config.mtu(),
        }
    }

    pub fn start(&mut self) -> (r: Result<(), TransportError>)
        ensures
            super::fails_with(
                r,
                ErrorModel::NotSupported("use start_async() for WebTransport transport"@),
            ),
            *final(self) == *old(self),
    {
        Err(
            TransportError::NotSupported(
                "use start_async() for WebTransport transport".to_string(),
            ),
        )
    }

    pub fn stop(&mut self) -> (r: Result<(), TransportError>)
        ensures
            super::fails_with(
                r,
                ErrorModel::NotSupported("use stop_async() for WebTransport transport"@),
            ),
            *final(self) == *old(self),
    {
        Err(
            TransportError::NotSupported("use stop_async() for WebTransport transport".to_string()),
        )
    }

    pub fn send(&self, _addr: &TransportAddr, _data: &[u8]) -> (r: Result<(), TransportError>)
        ensures
            super::fails_with(
                r,
                ErrorModel::NotSupported("use send_async() for WebTransport transport"@),
            ),
    {
        Err(
            TransportError::NotSupported("use send_async() for WebTransport transport".to_string()),
        )
    }

    /// WebTransport finds no peers by itself.
    pub fn discover(&self) -> (r: Result<Vec<DiscoveredPeer>, TransportError>)
        ensures
            r matches Ok(peers) && peers@.len() == 0,
    {
        Ok(Vec::new())
    }

    /// One step of the receive loop of a session.
    pub fn received(&mut self, remote_addr: &TransportAddr, event: DatagramEvent) -> (r: Option<
        ReceivedPacket,
    >)
        requires
            old(self).wf(),
        ensures
            final(self).wf(),
            final(self)@ == (WebTransportModel {
                stats: rx_stats(old(self)@.stats, event@),
                ..old(self)@
            }),
            delivers(r, event@, old(self)@.transport_id, remote_addr@),
    {
        datagram_rx_step(&mut self.stats, self.transport_id, remote_addr, event)
    }
}

// ============================================================================
// Datagram receive loop
// ============================================================================

/// What the receive loop of a session meets.
pub enum DatagramEvent {
    Datagram(Vec<u8>),
    Error,
    /// The node takes no more packets.
    NodeGone,
}

/// What the receive loop of a session meets, as a value.
pub enum EventModel {
    Datagram(Seq<u8>),
    Error,
    NodeGone,
}

impl View for DatagramEvent {
    type V = EventModel;

    open spec fn view(&self) -> EventModel {
        match self {
            DatagramEvent::Datagram(data) => EventModel::Datagram(data@),
            DatagramEvent::Error => EventModel::Error,
            DatagramEvent::NodeGone => EventModel::NodeGone,
        }
    }
}

/// The statistics after an event.
pub open spec fn rx_stats(s: WebTransportStats, event: EventModel) -> WebTransportStats {
    match event {
        EventModel::Datagram(data) => stats::received(s, data.len()),
        EventModel::Error => stats::session_closed(stats::recv_failed(s)),
        EventModel::NodeGone => stats::session_closed(s),
    }
}

/// Whether what is handed to the node is right for an event.
pub open spec fn delivers(
    packet: Option<ReceivedPacket>,
    event: EventModel,
    transport_id: TransportId,
    remote_addr: Seq<u8>,
) -> bool {
    match event {
        EventModel::Datagram(data) => packet matches Some(p) && p.transport_id == transport_id
            && p.remote_addr@ == remote_addr && p.data@ == data,
        _ => packet is None,
    }
}

/// One step of the receive loop of a session: a datagram is a packet for the node, and anything
/// else ends the loop and closes the session.
pub fn datagram_rx_step(
    stats: &mut WebTransportStats,
    transport_id: TransportId,
    remote_addr: &TransportAddr,
    event: DatagramEvent,
) -> (r: Option<ReceivedPacket>)
    ensures
        *final(stats) == rx_stats(*old(stats), event@),
        delivers(r, event@, transport_id, remote_addr@),
{
    match event {
        DatagramEvent::Datagram(data) => {
            stats.record_recv(data.len());
            Some(ReceivedPacket { transport_id, remote_addr: remote_addr.copy(), data })
        },
        DatagramEvent::Error => {
            stats.record_recv_error();
            stats.record_session_closed();
            None
        },
        DatagramEvent::NodeGone => {
            stats.record_session_closed();
            None
        },
    }
}

// ============================================================================
// TLS identity management
// ============================================================================

/// What to do for a TLS identity.
#[derive(Clone, Copy, PartialEq, Eq, Debug, Structural)]
pub enum IdentityStep {
    /// Load it from the PEM files.
    Load,
    /// Generate a self-signed one.
    Generate,
    /// Create the directory of the certificate file.
    CreateDirectory,
    /// Write the certificate file.
    StoreCertificate,
    /// Write the key file.
    StoreKey,
    /// The identity is there.
    Ready,
}

/// Where an identity comes from: it is loaded if both files exist, else a new one is generated.
pub open spec fn first_step(cert_exists: bool, key_exists: bool) -> IdentityStep {
    if cert_exists && key_exists {
        IdentityStep::Load
    } else {
        IdentityStep::Generate
    }
}

/// The first step towards an identity.
pub fn first_identity_step(cert_exists: bool, key_exists: bool) -> (r: IdentityStep)
    ensures
        r == first_step(cert_exists, key_exists),
{
    if cert_exists && key_exists {
        IdentityStep::Load
    } else {
        IdentityStep::Generate
    }
}

/// The step behind one that went well. A file without a directory part needs no directory.
pub open spec fn step_after(step: IdentityStep, has_directory: bool) -> IdentityStep {
    match step {
        IdentityStep::Load => IdentityStep::Ready,
        IdentityStep::Generate => if has_directory {
            IdentityStep::CreateDirectory
        } else {
            IdentityStep::StoreCertificate
        },
        IdentityStep::CreateDirectory => IdentityStep::StoreCertificate,
        IdentityStep::StoreCertificate => IdentityStep::StoreKey,
        IdentityStep::StoreKey => IdentityStep::Ready,
        IdentityStep::Ready => IdentityStep::Ready,
    }
}

/// What is said of a step that failed.
pub open spec fn step_failure(step: IdentityStep) -> Seq<char> {
    match step {
        IdentityStep::Load => "failed to load TLS identity: "@,
        IdentityStep::Generate => "cert generation failed: "@,
        IdentityStep::CreateDirectory => "failed to create cert directory: "@,
        IdentityStep::StoreCertificate => "failed to write cert file: "@,
        IdentityStep::StoreKey => "failed to write key file: "@,
        IdentityStep::Ready => ""@,
    }
}

/// The next step, given what came of one: nothing, or an error in words.
pub fn next_identity_step(
    step: IdentityStep,
    has_directory: bool,
    failure: Option<String>,
) -> (r: Result<IdentityStep, TransportError>)
    requires
        !(step is Ready),
    ensures
        match failure {
            None => r == Ok::<IdentityStep, TransportError>(step_after(step, has_directory)),
            Some(m) => super::fails_with(r, ErrorModel::StartFailed(step_failure(step) + m@)),
        },
{
    match failure {
        Some(m) => {
            let what = match step {
                IdentityStep::Load => "failed to load TLS identity: ",
                IdentityStep::Generate => "cert generation failed: ",
                IdentityStep::CreateDirectory => "failed to create cert directory: ",
                IdentityStep::StoreCertificate => "failed to write cert file: ",
                IdentityStep::StoreKey => "failed to write key file: ",
                IdentityStep::Ready => "",
            };
            Err(TransportError::StartFailed(text::join2(what, m.as_str())))
        },
        None => Ok(
            match step {
                IdentityStep::Load => IdentityStep::Ready,
                IdentityStep::Generate => if has_directory {
                    IdentityStep::CreateDirectory
                } else {
                    IdentityStep::StoreCertificate
                },
                IdentityStep::CreateDirectory => IdentityStep::StoreCertificate,
                IdentityStep::StoreCertificate => IdentityStep::StoreKey,
                IdentityStep::StoreKey => IdentityStep::Ready,
                IdentityStep::Ready => IdentityStep::Ready,
            },
        ),
    }
}

// ============================================================================
// Laws
// ============================================================================

/// The statistics after the events of a receive loop.
pub open spec fn loop_stats(s: WebTransportStats, events: Seq<EventModel>) -> WebTransportStats
    decreases events.len(),
{
    if events.len() == 0 {
        s
    } else {
        rx_stats(loop_stats(s, events.drop_last()), events.last())
    }
}

/// How many bytes the datagrams among the events hold.
pub open spec fn bytes_in(events: Seq<EventModel>) -> nat
    decreases events.len(),
{
    if events.len() == 0 {
        0
    } else {
        bytes_in(events.drop_last()) + match events.last() {
            EventModel::Datagram(data) => data.len(),
            _ => 0,
        }
    }
}

/// What the datagrams among the events hold, in the order in which they came.
pub open spec fn datagrams_in(events: Seq<EventModel>) -> Seq<Seq<u8>>
    decreases events.len(),
{
    if events.len() == 0 {
        Seq::empty()
    } else {
        match events.last() {
            EventModel::Datagram(data) => datagrams_in(events.drop_last()).push(data),
            _ => datagrams_in(events.drop_last()),
        }
    }
}

/// The packets that the steps of a receive loop hand on, in order.
pub open spec fn handed_on(results: Seq<Option<ReceivedPacket>>) -> Seq<ReceivedPacket>
    decreases results.len(),
{
    if results.len() == 0 {
        Seq::empty()
    } else {
        match results.last() {
            Some(p) => handed_on(results.drop_last()).push(p),
            None => handed_on(results.drop_last()),
        }
    }
}

/// A receive loop counts every datagram and every byte that it met, its session as closed
/// exactly when it ends, and an error exactly when it ends with one; no other counter changes.
pub proof fn law_receive_loop_counts(s: WebTransportStats, events: Seq<EventModel>)
    requires
        forall|i: int| 0 <= i < events.len() - 1 ==> #[trigger] events[i] is Datagram,
    ensures
        ({
            let closed: nat = if events.len() > 0 && !(events.last() is Datagram) {
                1
            } else {
                0
            };
            let failed: nat = if events.len() > 0 && events.last() is Error {
                1
            } else {
                0
            };
            loop_stats(s, events) == (WebTransportStats {
                datagrams_recv: stats::counted(s.datagrams_recv, datagrams_in(events).len()),
                bytes_recv: stats::counted(s.bytes_recv, bytes_in(events)),
                recv_errors: stats::counted(s.recv_errors, failed),
                sessions_closed: stats::counted(s.sessions_closed, closed),
                ..s
            })
        }),
    decreases events.len(),
{
    stats::lemma_counted_twice(s.datagrams_recv, 0, 0);
    stats::lemma_counted_twice(s.bytes_recv, 0, 0);
    stats::lemma_counted_twice(s.recv_errors, 0, 0);
    stats::lemma_counted_twice(s.sessions_closed, 0, 0);
    if events.len() > 0 {
        let before = events.drop_last();
        assert forall|i: int| 0 <= i < before.len() implies #[trigger] before[i] is Datagram by {
            assert(before[i] == events[i]);
        }
        law_receive_loop_counts(s, before);
        let size: nat = match events.last() {
            EventModel::Datagram(data) => data.len(),
            _ => 0,
        };
        stats::lemma_counted_twice(s.datagrams_recv, datagrams_in(before).len(), 1);
        stats::lemma_counted_twice(s.bytes_recv, bytes_in(before), size);
    }
}

/// A receive loop hands on exactly the datagrams that came, in their order, each under the
/// address and the transport that the loop is for; and it ends exactly at an event that is none.
pub proof fn law_receive_loop_delivers(
    events: Seq<EventModel>,
    results: Seq<Option<ReceivedPacket>>,
    transport_id: TransportId,
    remote_addr: Seq<u8>,
)
    requires
        results.len() == events.len(),
        forall|i: int|
            0 <= i < events.len() ==> delivers(
                #[trigger] results[i],
                events[i],
                transport_id,
                remote_addr,
            ),
    ensures
        handed_on(results).len() == datagrams_in(events).len(),
        forall|j: int|
            0 <= j < handed_on(results).len() ==> {
                let p = #[trigger] handed_on(results)[j];
                &&& p.data@ == datagrams_in(events)[j]
                &&& p.remote_addr@ == remote_addr
                &&& p.transport_id == transport_id
            },
        forall|i: int|
            0 <= i < events.len() ==> (#[trigger] results[i] is None <==> !(events[i] is Datagram)),
    decreases events.len(),
{
    if events.len() > 0 {
        let before = events.drop_last();
        let handed = results.drop_last();
        assert forall|i: int| 0 <= i < before.len() implies delivers(
            #[trigger] handed[i],
            before[i],
            transport_id,
            remote_addr,
        ) by {
            assert(handed[i] == results[i]);
        }
        law_receive_loop_delivers(before, handed, transport_id, remote_addr);
        assert(delivers(results.last(), events.last(), transport_id, remote_addr)) by {
            assert(results.last() == results[events.len() - 1]);
        }
    }
}

/// The steps that follow one, as long as all goes well.
pub open spec fn steps_from(step: IdentityStep, has_directory: bool, fuel: nat) -> Seq<IdentityStep>
    decreases fuel,
{
    if fuel == 0 || step is Ready {
        seq![step]
    } else {
        seq![step] + steps_from(step_after(step, has_directory), has_directory, (fuel - 1) as nat)
    }
}

/// A new identity is ready only once its certificate and then its key were written, behind the
/// directory where there is one.
pub proof fn law_new_identity_is_written(has_directory: bool)
    ensures
        steps_from(IdentityStep::Generate, has_directory, 5) == if has_directory {
            seq![
                IdentityStep::Generate,
                IdentityStep::CreateDirectory,
                IdentityStep::StoreCertificate,
                IdentityStep::StoreKey,
                IdentityStep::Ready,
            ]
        } else {
            seq![
                IdentityStep::Generate,
                IdentityStep::StoreCertificate,
                IdentityStep::StoreKey,
                IdentityStep::Ready,
            ]
        },
{
    reveal_with_fuel(steps_from, 6);
    if has_directory {
        assert(steps_from(IdentityStep::Generate, true, 5) =~= seq![
            IdentityStep::Generate,
            IdentityStep::CreateDirectory,
            IdentityStep::StoreCertificate,
            IdentityStep::StoreKey,
            IdentityStep::Ready,
        ]);
    } else {
        assert(steps_from(IdentityStep::Generate, false, 5) =~= seq![
            IdentityStep::Generate,
            IdentityStep::StoreCertificate,
            IdentityStep::StoreKey,
            IdentityStep::Ready,
        ]);
    }
}

/// A TLS identity: its certificate chain and its private key.
pub struct IdentityModel {
    pub certificate: Seq<u8>,
    pub key: Seq<u8>,
}

/// What the certificate file and the key file hold, where they exist. They are two files.
pub struct FilesModel {
    pub certificate: Option<Seq<u8>>,
    pub key: Option<Seq<u8>>,
}

/// What a step that went well does to the files: the two that store write the part of the
/// identity that is theirs, and the others write nothing.
pub open spec fn files_after(
    step: IdentityStep,
    files: FilesModel,
    held: IdentityModel,
) -> FilesModel {
    match step {
        IdentityStep::StoreCertificate => FilesModel {
            certificate: Some(held.certificate),
            ..files
        },
        IdentityStep::StoreKey => FilesModel { key: Some(held.key), ..files },
        _ => files,
    }
}

/// The identity that is held after a step that went well: loaded from the files, newly
/// generated, or the one that was held before.
pub open spec fn held_after(
    step: IdentityStep,
    files: FilesModel,
    held: IdentityModel,
    generated: IdentityModel,
) -> IdentityModel {
    match step {
        IdentityStep::Load => IdentityModel { certificate: files.certificate->0, key: files.key->0 },
        IdentityStep::Generate => generated,
        _ => held,
    }
}

/// How many steps are left at most.
pub open spec fn steps_left(step: IdentityStep) -> nat {
    match step {
        IdentityStep::Generate => 4,
        IdentityStep::CreateDirectory => 3,
        IdentityStep::StoreCertificate => 2,
        IdentityStep::Load | IdentityStep::StoreKey => 1,
        IdentityStep::Ready => 0,
    }
}

/// What the steps from one on lead to: the files and the identity that is then held, or the
/// step that failed.
pub open spec fn identity_from(
    step: IdentityStep,
    files: FilesModel,
    held: IdentityModel,
    has_directory: bool,
    generated: IdentityModel,
    failing: Set<IdentityStep>,
) -> Result<(FilesModel, IdentityModel), IdentityStep>
    decreases steps_left(step),
{
    if step is Ready {
        Ok((files, held))
    } else if failing.contains(step) {
        Err(step)
    } else {
        identity_from(
            step_after(step, has_directory),
            files_after(step, files, held),
            held_after(step, files, held, generated),
            has_directory,
            generated,
            failing,
        )
    }
}

/// What a start makes of the files it finds: the files behind it and its identity, or the step
/// that failed. The first step loads or generates, so what is held before it does not matter.
pub open spec fn identity_at_start(
    files: FilesModel,
    has_directory: bool,
    generated: IdentityModel,
    failing: Set<IdentityStep>,
) -> Result<(FilesModel, IdentityModel), IdentityStep> {
    identity_from(
        first_step(files.certificate is Some, files.key is Some),
        files,
        generated,
        has_directory,
        generated,
        failing,
    )
}

/// Where both files exist, a start loads the identity from them and writes nothing; it fails
/// only if they cannot be loaded.
pub proof fn law_existing_identity_is_loaded(
    files: FilesModel,
    has_directory: bool,
    generated: IdentityModel,
    failing: Set<IdentityStep>,
)
    requires
        files.certificate is Some,
        files.key is Some,
    ensures
        identity_at_start(files, has_directory, generated, failing) == if failing.contains(
            IdentityStep::Load,
        ) {
            Err::<(FilesModel, IdentityModel), IdentityStep>(IdentityStep::Load)
        } else {
            Ok(
                (
                    files,
                    IdentityModel { certificate: files.certificate->0, key: files.key->0 },
                ),
            )
        },
{
    reveal_with_fuel(identity_from, 3);
}

/// Where a file is missing, a start that succeeds has written the certificate and the key of
/// the new identity to the two files. A later start finds both, so it loads that same identity,
/// whatever it could have generated, and writes nothing.
pub proof fn law_new_identity_is_kept(
    files: FilesModel,
    has_directory: bool,
    generated: IdentityModel,
    failing: Set<IdentityStep>,
    later_generated: IdentityModel,
    later_failing: Set<IdentityStep>,
)
    requires
        files.certificate is None || files.key is None,
    ensures
        ({
            let start = identity_at_start(files, has_directory, generated, failing);
            let written = FilesModel {
                certificate: Some(generated.certificate),
                key: Some(generated.key),
            };
            let later = identity_at_start(written, has_directory, later_generated, later_failing);
            &&& start is Ok <==> !failing.contains(IdentityStep::Generate) && !(has_directory
                && failing.contains(IdentityStep::CreateDirectory)) && !failing.contains(
                IdentityStep::StoreCertificate,
            ) && !failing.contains(IdentityStep::StoreKey)
            &&& start is Ok ==> start->Ok_0 == (written, generated)
            &&& later == if later_failing.contains(IdentityStep::Load) {
                Err::<(FilesModel, IdentityModel), IdentityStep>(IdentityStep::Load)
            } else {
                Ok((written, generated))
            }
        }),
{
    reveal_with_fuel(identity_from, 6);
}

/// The initial MTU leaves room for a full IPv6 minimum-MTU packet in FMP framing, at up to 135
/// bytes of QUIC overhead; the minimum MTU does not, whatever the overhead.
pub proof fn law_initial_mtu_carries_ipv6(overhead: nat)
    ensures
        overhead <= 135 ==> DEFAULT_INITIAL_MTU - overhead >= IPV6_MIN_MTU + FMP_OVERHEAD,
        DEFAULT_MIN_MTU - overhead < IPV6_MIN_MTU + FMP_OVERHEAD,
{
}

/// A session that a remote side opened is where datagrams for its address are sent, and its
/// datagram size is the MTU towards it, until it is closed.
pub proof fn law_accepted_session(t: WebTransportModel, session_id: u64, slot: Slot)
    ensures
        ({
            let addr = session_addr(session_id);
            let open = wt_accepted(t, session_id, slot);
            let closed = wt_closed(open, addr);
            &&& open.links.sessions.dom().contains(addr)
            &&& open.links.sessions[addr] == slot
            &&& slot.max_datagram_size matches Some(size) ==> wt_link_mtu(open, addr, None)
                == size_as_mtu(size)
            &&& !closed.links.sessions.dom().contains(addr)
            &&& wt_link_mtu(closed, addr, None) == t.mtu
        }),
{
}

/// What a question for a connection does to the transport: its links change as links do, a session
/// that was opened by it is counted as connected, and nothing else changes.
pub proof fn law_polling_counts(t: WebTransportModel, addr: Seq<u8>, attempt: AttemptModel)
    ensures
        ({
            let (after, state) = wt_poll(t, addr, attempt);
            let (links, answer) = links::links_poll(t.links, addr, attempt);
            let opened = !t.links.sessions.dom().contains(addr) && links.sessions.dom().contains(
                addr,
            );
            &&& state == answer
            &&& after == WebTransportModel { links, stats: after.stats, ..t }
            &&& opened ==> after.stats == WebTransportStats {
                sessions_connected: stats::counted(t.stats.sessions_connected, 1),
                ..t.stats
            }
            &&& !opened ==> after.stats == t.stats
        }),
{
}

/// Closing a session takes it out and counts it, and touches no other; where there is none, nothing
/// changes.
pub proof fn law_closing(t: WebTransportModel, addr: Seq<u8>, other: Seq<u8>)
    ensures
        ({
            let after = wt_closed(t, addr);
            let had = t.links.sessions.dom().contains(addr);
            &&& !had ==> after == t
            &&& after == WebTransportModel { links: after.links, stats: after.stats, ..t }
            &&& after.links == LinksModel { sessions: after.links.sessions, ..t.links }
            &&& !after.links.sessions.dom().contains(addr)
            &&& other != addr ==> (after.links.sessions.dom().contains(other)
                <==> t.links.sessions.dom().contains(other))
            &&& other != addr && t.links.sessions.dom().contains(other)
                ==> after.links.sessions[other] == t.links.sessions[other]
            &&& had ==> after.stats == WebTransportStats {
                sessions_closed: stats::counted(t.stats.sessions_closed, 1),
                ..t.stats
            }
        }),
{
}

/// What a configuration leaves open stands at `/etc/fips/wt-cert.pem`, `/etc/fips/wt-key.pem`, an
/// MTU of 1200 and accepting sessions; what it gives is taken as it is.
pub proof fn law_configuration(
    id: TransportId,
    name: Option<String>,
    config: WebTransportConfig,
)
    ensures
        ({
            let t = wt_new(id, name, config);
            &&& t.transport_id == id
            &&& t.name is Some <==> name is Some
            &&& name is Some ==> t.name->0 == name->0@
            &&& t.bind_addr is Some <==> config.bind_addr is Some
            &&& config.bind_addr is Some ==> t.bind_addr->0 == config.bind_addr->0@
            &&& config.cert_file is Some ==> t.cert_file == config.cert_file->0@
            &&& config.cert_file is None ==> t.cert_file == "/etc/fips/wt-cert.pem"@
            &&& config.key_file is Some ==> t.key_file == config.key_file->0@
            &&& config.key_file is None ==> t.key_file == "/etc/fips/wt-key.pem"@
            &&& config.mtu is Some ==> t.mtu == config.mtu->0
            &&& config.mtu is None ==> t.mtu == 1200
            &&& t.accepts <==> config.accept_connections != Some(false)
            &&& t.links == links::links_new()
            &&& t.stats == stats::stats_new()
        }),
{
}

/// A session that a remote side opened is kept under `wt-session-` and its number, as it was given,
/// and counted as accepted; no other session and no other counter is touched.
pub proof fn law_accepting(t: WebTransportModel, session_id: u64, slot: Slot, other: Seq<u8>)
    ensures
        ({
            let addr = vstd::utf8::encode_utf8("wt-session-"@ + text::decimal(session_id as nat));
            let after = wt_accepted(t, session_id, slot);
            &&& session_addr(session_id) == addr
            &&& after == WebTransportModel { links: after.links, stats: after.stats, ..t }
            &&& after.links == LinksModel { sessions: after.links.sessions, ..t.links }
            &&& after.links.sessions.dom().contains(addr)
            &&& after.links.sessions[addr] == slot
            &&& other != addr ==> (after.links.sessions.dom().contains(other)
                <==> t.links.sessions.dom().contains(other))
            &&& other != addr && t.links.sessions.dom().contains(other)
                ==> after.links.sessions[other] == t.links.sessions[other]
            &&& after.stats == WebTransportStats {
                sessions_accepted: stats::counted(t.stats.sessions_accepted, 1),
                ..t.stats
            }
        }),
{
}

/// The MTU towards an address: what its session says now, else what it said when it was opened,
/// both at most 65535; the configured one where neither is known or there is no session.
pub proof fn law_link_mtu(t: WebTransportModel, addr: Seq<u8>, live: Option<usize>)
    ensures
        ({
            let r = wt_link_mtu(t, addr, live);
            let kept = t.links.sessions.dom().contains(addr);
            let opened = t.links.sessions[addr].max_datagram_size;
            &&& !kept ==> r == t.mtu
            &&& kept && live is Some && live->0 < 65536 ==> r == live->0
            &&& kept && live is Some && live->0 >= 65536 ==> r == 65535
            &&& kept && live is None && opened is Some && opened->0 < 65536 ==> r == opened->0
            &&& kept && live is None && opened is Some && opened->0 >= 65536 ==> r == 65535
            &&& kept && live is None && opened is None ==> r == t.mtu
        }),
{
}

/// A datagram is counted with its size and handed on; an error and a node that is gone each end the
/// loop, and count the session as closed.
pub proof fn law_datagram_events(
    s: WebTransportStats,
    data: Seq<u8>,
    packet: Option<ReceivedPacket>,
    id: TransportId,
    remote: Seq<u8>,
)
    ensures
        rx_stats(s, EventModel::Datagram(data)) == (WebTransportStats {
            datagrams_recv: stats::counted(s.datagrams_recv, 1),
            bytes_recv: stats::counted(s.bytes_recv, data.len()),
            ..s
        }),
        delivers(packet, EventModel::Datagram(data), id, remote) ==> packet is Some
            && packet->0.data@ == data && packet->0.remote_addr@ == remote
            && packet->0.transport_id == id,
        rx_stats(s, EventModel::Error) == (WebTransportStats {
            recv_errors: stats::counted(s.recv_errors, 1),
            sessions_closed: stats::counted(s.sessions_closed, 1),
            ..s
        }),
        rx_stats(s, EventModel::NodeGone) == (WebTransportStats {
            sessions_closed: stats::counted(s.sessions_closed, 1),
            ..s
        }),
        delivers(packet, EventModel::Error, id, remote) <==> packet is None,
        delivers(packet, EventModel::NodeGone, id, remote) <==> packet is None,
{
}

/// An identity is loaded if and only if both files are there, a failure tells which step it was,
/// and a loaded identity is ready at once.
pub proof fn law_identity_steps(cert: bool, key: bool, directory: bool)
    ensures
        first_step(cert, key) == IdentityStep::Load <==> cert && key,
        first_step(cert, key) == IdentityStep::Generate <==> !cert || !key,
        step_after(IdentityStep::Load, directory) == IdentityStep::Ready,
        step_failure(IdentityStep::Load) == "failed to load TLS identity: "@,
        step_failure(IdentityStep::Generate) == "cert generation failed: "@,
        step_failure(IdentityStep::CreateDirectory) == "failed to create cert directory: "@,
        step_failure(IdentityStep::StoreCertificate) == "failed to write cert file: "@,
        step_failure(IdentityStep::StoreKey) == "failed to write key file: "@,
{
}

} // verus!

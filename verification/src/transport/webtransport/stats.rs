//! WebTransport transport statistics.

use vstd::prelude::*;

verus! {

/// Statistics for a WebTransport transport instance. The counters wrap around.
pub struct WebTransportStats {
    pub datagrams_sent: u64,
    pub bytes_sent: u64,
    pub datagrams_recv: u64,
    pub bytes_recv: u64,
    pub send_errors: u64,
    pub recv_errors: u64,
    pub sessions_accepted: u64,
    pub sessions_connected: u64,
    pub sessions_closed: u64,
}

/// A counter after an addition.
pub open spec fn counted(counter: u64, n: nat) -> u64 {
    ((counter + n) % 0x1_0000_0000_0000_0000) as u64
}

/// To count twice is to count the sum.
pub proof fn lemma_counted_twice(counter: u64, m: nat, n: nat)
    ensures
        counted(counted(counter, m), n) == counted(counter, m + n),
        counted(counter, 0) == counter,
{
}

fn count(counter: u64, n: usize) -> (r: u64)
    ensures
        r == counted(counter, n as nat),
{
    counter.wrapping_add(n as u64)
}

/// All counters at zero.
pub open spec fn stats_new() -> WebTransportStats {
    WebTransportStats {
        datagrams_sent: 0,
        bytes_sent: 0,
        datagrams_recv: 0,
        bytes_recv: 0,
        send_errors: 0,
        recv_errors: 0,
        sessions_accepted: 0,
        sessions_connected: 0,
        sessions_closed: 0,
    }
}

/// The statistics after a datagram was sent.
pub open spec fn sent(s: WebTransportStats, bytes: nat) -> WebTransportStats {
    WebTransportStats {
        datagrams_sent: counted(s.datagrams_sent, 1),
        bytes_sent: counted(s.bytes_sent, bytes),
        ..s
    }
}

/// The statistics after a datagram was received.
pub open spec fn received(s: WebTransportStats, bytes: nat) -> WebTransportStats {
    WebTransportStats {
        datagrams_recv: counted(s.datagrams_recv, 1),
        bytes_recv: counted(s.bytes_recv, bytes),
        ..s
    }
}

/// The statistics after a send failed.
pub open spec fn send_failed(s: WebTransportStats) -> WebTransportStats {
    WebTransportStats {
        send_errors: counted(s.send_errors, 1),
        ..s
    }
}

/// The statistics after a receive failed.
pub open spec fn recv_failed(s: WebTransportStats) -> WebTransportStats {
    WebTransportStats {
        recv_errors: counted(s.recv_errors, 1),
        ..s
    }
}

/// The statistics after a session was accepted.
pub open spec fn session_accepted(s: WebTransportStats) -> WebTransportStats {
    WebTransportStats {
        sessions_accepted: counted(s.sessions_accepted, 1),
        ..s
    }
}

/// The statistics after a session was connected.
pub open spec fn session_connected(s: WebTransportStats) -> WebTransportStats {
    WebTransportStats {
        sessions_connected: counted(s.sessions_connected, 1),
        ..s
    }
}

/// The statistics after a session was closed.
pub open spec fn session_closed(s: WebTransportStats) -> WebTransportStats {
    WebTransportStats {
        sessions_closed: counted(s.sessions_closed, 1),
        ..s
    }
}

impl WebTransportStats {
    /// Create a new stats instance with all counters at zero.
    pub fn new() -> (r: Self)
        ensures
            r == stats_new(),
    {
        Self {
            datagrams_sent: 0,
            bytes_sent: 0,
            datagrams_recv: 0,
            bytes_recv: 0,
            send_errors: 0,
            recv_errors: 0,
            sessions_accepted: 0,
            sessions_connected: 0,
            sessions_closed: 0,
        }
    }

    /// Record a successful datagram send.
    pub fn record_send(&mut self, bytes: usize)
        ensures
            *final(self) == sent(*old(self), bytes as nat),
    {
        self.datagrams_sent = count(self.datagrams_sent, 1);
        self.bytes_sent = count(self.bytes_sent, bytes);
    }

    /// Record a successful datagram receive.
    pub fn record_recv(&mut self, bytes: usize)
        ensures
            *final(self) == received(*old(self), bytes as nat),
    {
        self.datagrams_recv = count(self.datagrams_recv, 1);
        self.bytes_recv = count(self.bytes_recv, bytes);
    }

    /// Record a send error.
    pub fn record_send_error(&mut self)
        ensures
            *final(self) == send_failed(*old(self)),
    {
        self.send_errors = count(self.send_errors, 1);
    }

    /// Record a receive error.
    pub fn record_recv_error(&mut self)
        ensures
            *final(self) == recv_failed(*old(self)),
    {
        self.recv_errors = count(self.recv_errors, 1);
    }

    /// Record a new accepted session (server side).
    pub fn record_session_accepted(&mut self)
        ensures
            *final(self) == session_accepted(*old(self)),
    {
        self.sessions_accepted = count(self.sessions_accepted, 1);
    }

    /// Record a new outbound session (client side).
    pub fn record_session_connected(&mut self)
        ensures
            *final(self) == session_connected(*old(self)),
    {
        self.sessions_connected = count(self.sessions_connected, 1);
    }

    /// Record a closed session.
    pub fn record_session_closed(&mut self)
        ensures
            *final(self) == session_closed(*old(self)),
    {
        self.sessions_closed = count(self.sessions_closed, 1);
    }

    /// Take a snapshot of all counters.
    pub fn snapshot(&self) -> (r: WebTransportStatsSnapshot)
        ensures
            r.datagrams_sent == self.datagrams_sent,
            r.bytes_sent == self.bytes_sent,
            r.datagrams_recv == self.datagrams_recv,
            r.bytes_recv == self.bytes_recv,
            r.send_errors == self.send_errors,
            r.recv_errors == self.recv_errors,
            r.sessions_accepted == self.sessions_accepted,
            r.sessions_connected == self.sessions_connected,
            r.sessions_closed == self.sessions_closed,
    {
        WebTransportStatsSnapshot {
            datagrams_sent: self.datagrams_sent,
            bytes_sent: self.bytes_sent,
            datagrams_recv: self.datagrams_recv,
            bytes_recv: self.bytes_recv,
            send_errors: self.send_errors,
            recv_errors: self.recv_errors,
            sessions_accepted: self.sessions_accepted,
            sessions_connected: self.sessions_connected,
            sessions_closed: self.sessions_closed,
        }
    }
}

impl Default for WebTransportStats {
    fn default() -> (r: Self)
        ensures
            r == stats_new(),
    {
        Self::new()
    }
}

/// Point-in-time snapshot of WebTransport stats.
#[derive(Clone, Copy, Debug, Default)]
pub struct WebTransportStatsSnapshot {
    pub datagrams_sent: u64,
    pub bytes_sent: u64,
    pub datagrams_recv: u64,
    pub bytes_recv: u64,
    pub send_errors: u64,
    pub recv_errors: u64,
    pub sessions_accepted: u64,
    pub sessions_connected: u64,
    pub sessions_closed: u64,
}

/// A counter goes up by what is counted, and starts over at `2^64`.
pub proof fn law_counters_wrap(counter: u64, n: nat)
    ensures
        counter + n < 0x1_0000_0000_0000_0000 ==> counted(counter, n) == counter + n,
        counter + n >= 0x1_0000_0000_0000_0000 && n <= u64::MAX ==> counted(counter, n) == counter
            + n - 0x1_0000_0000_0000_0000,
{
}

/// All counters start at zero. Each kind of event has its own counter, a datagram and its bytes two,
/// and no event touches any other.
pub proof fn law_events_are_counted(s: WebTransportStats, bytes: nat)
    ensures
        ({
            let n = stats_new();
            &&& n.datagrams_sent == 0
            &&& n.bytes_sent == 0
            &&& n.datagrams_recv == 0
            &&& n.bytes_recv == 0
            &&& n.send_errors == 0
            &&& n.recv_errors == 0
            &&& n.sessions_accepted == 0
            &&& n.sessions_connected == 0
            &&& n.sessions_closed == 0
        }),
        ({
            let after = sent(s, bytes);
            &&& after.datagrams_sent == counted(s.datagrams_sent, 1)
            &&& after.bytes_sent == counted(s.bytes_sent, bytes)
            &&& after.datagrams_recv == s.datagrams_recv
            &&& after.bytes_recv == s.bytes_recv
            &&& after.send_errors == s.send_errors
            &&& after.recv_errors == s.recv_errors
            &&& after.sessions_accepted == s.sessions_accepted
            &&& after.sessions_connected == s.sessions_connected
            &&& after.sessions_closed == s.sessions_closed
        }),
        ({
            let after = received(s, bytes);
            &&& after.datagrams_sent == s.datagrams_sent
            &&& after.bytes_sent == s.bytes_sent
            &&& after.datagrams_recv == counted(s.datagrams_recv, 1)
            &&& after.bytes_recv == counted(s.bytes_recv, bytes)
            &&& after.send_errors == s.send_errors
            &&& after.recv_errors == s.recv_errors
            &&& after.sessions_accepted == s.sessions_accepted
            &&& after.sessions_connected == s.sessions_connected
            &&& after.sessions_closed == s.sessions_closed
        }),
        ({
            let after = send_failed(s);
            &&& after.datagrams_sent == s.datagrams_sent
            &&& after.bytes_sent == s.bytes_sent
            &&& after.datagrams_recv == s.datagrams_recv
            &&& after.bytes_recv == s.bytes_recv
            &&& after.send_errors == counted(s.send_errors, 1)
            &&& after.recv_errors == s.recv_errors
            &&& after.sessions_accepted == s.sessions_accepted
            &&& after.sessions_connected == s.sessions_connected
            &&& after.sessions_closed == s.sessions_closed
        }),
        ({
            let after = recv_failed(s);
            &&& after.datagrams_sent == s.datagrams_sent
            &&& after.bytes_sent == s.bytes_sent
            &&& after.datagrams_recv == s.datagrams_recv
            &&& after.bytes_recv == s.bytes_recv
            &&& after.send_errors == s.send_errors
            &&& after.recv_errors == counted(s.recv_errors, 1)
            &&& after.sessions_accepted == s.sessions_accepted
            &&& after.sessions_connected == s.sessions_connected
            &&& after.sessions_closed == s.sessions_closed
        }),
        ({
            let after = session_accepted(s);
            &&& after.datagrams_sent == s.datagrams_sent
            &&& after.bytes_sent == s.bytes_sent
            &&& after.datagrams_recv == s.datagrams_recv
            &&& after.bytes_recv == s.bytes_recv
            &&& after.send_errors == s.send_errors
            &&& after.recv_errors == s.recv_errors
            &&& after.sessions_accepted == counted(s.sessions_accepted, 1)
            &&& after.sessions_connected == s.sessions_connected
            &&& after.sessions_closed == s.sessions_closed
        }),
        ({
            let after = session_connected(s);
            &&& after.datagrams_sent == s.datagrams_sent
            &&& after.bytes_sent == s.bytes_sent
            &&& after.datagrams_recv == s.datagrams_recv
            &&& after.bytes_recv == s.bytes_recv
            &&& after.send_errors == s.send_errors
            &&& after.recv_errors == s.recv_errors
            &&& after.sessions_accepted == s.sessions_accepted
            &&& after.sessions_connected == counted(s.sessions_connected, 1)
            &&& after.sessions_closed == s.sessions_closed
        }),
        ({
            let after = session_closed(s);
            &&& after.datagrams_sent == s.datagrams_sent
            &&& after.bytes_sent == s.bytes_sent
            &&& after.datagrams_recv == s.datagrams_recv
            &&& after.bytes_recv == s.bytes_recv
            &&& after.send_errors == s.send_errors
            &&& after.recv_errors == s.recv_errors
            &&& after.sessions_accepted == s.sessions_accepted
            &&& after.sessions_connected == s.sessions_connected
            &&& after.sessions_closed == counted(s.sessions_closed, 1)
        }),
{
}

} // verus!

//! MMP (Mesh Metric Protocol) receiver state and ReceiverReport builder.
//!
//! Tracks metadata from received encrypted frames and builds ReceiverReports (msg_type 0x02)
//! that the peer uses for RTT and loss metrics.

use crate::bytes;
use crate::wire;
use vstd::prelude::*;

verus! {

/// ReceiverReport body size (after the msg_type byte).
pub const RECEIVER_REPORT_BODY_SIZE: usize = 67;

/// What a receiver has counted. All counters wrap at the size of their field on the wire, except
/// the bytes of an interval, which stop at their maximum.
#[verifier::ext_equal]
pub struct ReceiverModel {
    pub highest_counter: nat,
    pub cumulative_packets: nat,
    pub cumulative_bytes: nat,
    pub interval_packets: nat,
    pub interval_bytes: nat,
    pub last_sender_timestamp: nat,
    pub last_recv_time_ms: nat,
}

/// A receiver that has seen nothing.
pub open spec fn receiver_new() -> ReceiverModel {
    ReceiverModel {
        highest_counter: 0,
        cumulative_packets: 0,
        cumulative_bytes: 0,
        interval_packets: 0,
        interval_bytes: 0,
        last_sender_timestamp: 0,
        last_recv_time_ms: 0,
    }
}

/// A receiver after one more frame.
pub open spec fn receiver_recorded(
    m: ReceiverModel,
    counter: nat,
    sender_timestamp: nat,
    size: nat,
    now_ms: nat,
) -> ReceiverModel {
    let interval_bytes = m.interval_bytes + size % 0x1_0000_0000;
    ReceiverModel {
        highest_counter: if counter > m.highest_counter {
            counter
        } else {
            m.highest_counter
        },
        cumulative_packets: (m.cumulative_packets + 1) % 0x1_0000_0000_0000_0000,
        cumulative_bytes: (m.cumulative_bytes + size) % 0x1_0000_0000_0000_0000,
        interval_packets: (m.interval_packets + 1) % 0x1_0000_0000,
        interval_bytes: if interval_bytes > u32::MAX {
            u32::MAX as nat
        } else {
            interval_bytes
        },
        last_sender_timestamp: sender_timestamp,
        last_recv_time_ms: now_ms,
    }
}

/// Milliseconds since the last frame arrived, or 0 if none has.
pub open spec fn dwell_time(m: ReceiverModel, now_ms: nat) -> nat {
    if m.last_recv_time_ms > 0 && now_ms > m.last_recv_time_ms {
        (now_ms - m.last_recv_time_ms) as nat
    } else {
        0
    }
}

/// A ReceiverReport: the counters, the echoed timestamp with the dwell time, and zeros for the
/// metrics that are not measured.
pub open spec fn receiver_report(m: ReceiverModel, now_ms: nat) -> Seq<u8> {
    seq![wire::MSG_TYPE_RECEIVER_REPORT] + bytes::zeros(3) + bytes::le_bytes(m.highest_counter, 8)
        + bytes::le_bytes(m.cumulative_packets, 8) + bytes::le_bytes(m.cumulative_bytes, 8)
        + bytes::le_bytes(m.last_sender_timestamp, 4) + bytes::le_bytes(dwell_time(m, now_ms), 2)
        + bytes::zeros(26) + bytes::le_bytes(m.interval_packets, 4) + bytes::le_bytes(
        m.interval_bytes,
        4,
    )
}

/// A receiver after a report: a new interval starts.
pub open spec fn receiver_reported(m: ReceiverModel) -> ReceiverModel {
    ReceiverModel { interval_packets: 0, interval_bytes: 0, ..m }
}

/// Receiver-side MMP state.
///
/// Tracks metadata from received encrypted frames for building ReceiverReports. Updated on every
/// incoming decrypted frame.
#[derive(Clone, Copy)]
pub struct ReceiverState {
    /// Highest AEAD counter ever received.
    highest_counter: u64,
    /// Lifetime packets received.
    cumulative_packets: u64,
    /// Lifetime bytes received.
    cumulative_bytes: u64,
    /// Packets received since last report.
    interval_packets: u32,
    /// Bytes received since last report.
    interval_bytes: u32,
    /// Sender timestamp from the last received frame (session-relative ms).
    last_sender_timestamp: u32,
    /// Time (ms since epoch) when we last received a frame.
    last_recv_time_ms: u64,
}

impl View for ReceiverState {
    type V = ReceiverModel;

    closed spec fn view(&self) -> ReceiverModel {
        ReceiverModel {
            highest_counter: self.highest_counter as nat,
            cumulative_packets: self.cumulative_packets as nat,
            cumulative_bytes: self.cumulative_bytes as nat,
            interval_packets: self.interval_packets as nat,
            interval_bytes: self.interval_bytes as nat,
            last_sender_timestamp: self.last_sender_timestamp as nat,
            last_recv_time_ms: self.last_recv_time_ms as nat,
        }
    }
}

impl ReceiverState {
    /// Create a new receiver state.
    pub fn new() -> (r: Self)
        ensures
            r@ == receiver_new(),
    {
        Self {
            highest_counter: 0,
            cumulative_packets: 0,
            cumulative_bytes: 0,
            interval_packets: 0,
            interval_bytes: 0,
            last_sender_timestamp: 0,
            last_recv_time_ms: 0,
        }
    }

    /// Record a received encrypted frame.
    ///
    /// Called for every successfully decrypted FMP frame.
    ///
    /// - `counter`: the AEAD counter from the FMP outer header
    /// - `sender_timestamp`: the 4-byte timestamp from the FMP inner header
    /// - `size`: total wire size of the frame
    /// - `now_ms`: current time in ms
    pub fn record_frame(&mut self, counter: u64, sender_timestamp: u32, size: usize, now_ms: u64)
        ensures
            final(self)@ == receiver_recorded(
                old(self)@,
                counter as nat,
                sender_timestamp as nat,
                size as nat,
                now_ms as nat,
            ),
    {
        if counter > self.highest_counter {
            self.highest_counter = counter;
        }
        self.cumulative_packets = self.cumulative_packets.wrapping_add(1);
        self.cumulative_bytes = self.cumulative_bytes.wrapping_add(size as u64);
        self.interval_packets = self.interval_packets.wrapping_add(1);
        self.interval_bytes = self.interval_bytes.saturating_add(
            (size as u64 % 0x1_0000_0000) as u32,
        );
        self.last_sender_timestamp = sender_timestamp;
        self.last_recv_time_ms = now_ms;
    }

    /// Build a ReceiverReport payload.
    ///
    /// Returns the payload bytes (starting with msg_type 0x02) to be wrapped in an FMP encrypted
    /// frame.
    ///
    /// `now_ms` is the current time in milliseconds.
    pub fn build_report(&mut self, now_ms: u64) -> (r: Vec<u8>)
        ensures
            r@ == receiver_report(old(self)@, now_ms as nat),
            r@.len() == 1 + RECEIVER_REPORT_BODY_SIZE,
            final(self)@ == receiver_reported(old(self)@),
    {
        broadcast use bytes::lemma_le_bytes_len;

        let dwell: u64 = if self.last_recv_time_ms > 0 {
            now_ms.saturating_sub(self.last_recv_time_ms)
        } else {
            0
        };
        proof {
            bytes::lemma_le16_low(dwell as nat);
        }
        let mut payload: Vec<u8> = Vec::with_capacity(1 + RECEIVER_REPORT_BODY_SIZE);
        payload.push(wire::MSG_TYPE_RECEIVER_REPORT);
        assert(payload@ =~= seq![wire::MSG_TYPE_RECEIVER_REPORT]);
        bytes::push_zeros(&mut payload, 3);
        bytes::push_u64_le(&mut payload, self.highest_counter);
        bytes::push_u64_le(&mut payload, self.cumulative_packets);
        bytes::push_u64_le(&mut payload, self.cumulative_bytes);
        // The peer computes its round-trip time from the echoed timestamp and the dwell time
        bytes::push_u32_le(&mut payload, self.last_sender_timestamp);
        bytes::push_u16_le(&mut payload, (dwell % 0x1_0000) as u16);
        // Burst loss, jitter, ECN, delay trend and reordering are not measured
        bytes::push_zeros(&mut payload, 26);
        bytes::push_u32_le(&mut payload, self.interval_packets);
        bytes::push_u32_le(&mut payload, self.interval_bytes);
        self.interval_packets = 0;
        self.interval_bytes = 0;
        payload
    }
}

impl Default for ReceiverState {
    fn default() -> (r: Self)
        ensures
            r@ == receiver_new(),
    {
        Self::new()
    }
}

/// A report leaves everything but the interval counters: a second report at the same time
/// repeats the first in all other fields, and its interval counters are zero.
pub proof fn law_report_starts_new_interval(m: ReceiverModel, now_ms: nat)
    ensures
        receiver_report(m, now_ms).len() == 68,
        receiver_report(receiver_reported(m), now_ms).take(60) == receiver_report(m, now_ms).take(
            60,
        ),
        receiver_report(receiver_reported(m), now_ms).skip(60) == bytes::zeros(8),
{
    broadcast use bytes::lemma_le_bytes_len;

    reveal_with_fuel(bytes::le_bytes, 5);
    let second = receiver_report(receiver_reported(m), now_ms);
    assert(second.take(60) =~= receiver_report(m, now_ms).take(60));
    assert(bytes::le_bytes(0, 4) =~= bytes::zeros(4));
    assert(second.skip(60) =~= bytes::le_bytes(0, 4) + bytes::le_bytes(0, 4));
    assert(second.skip(60) =~= bytes::zeros(8));
}

/// The highest counter never falls.
pub proof fn law_highest_counter_rises(
    m: ReceiverModel,
    counter: nat,
    sender_timestamp: nat,
    size: nat,
    now_ms: nat,
)
    ensures
        receiver_recorded(m, counter, sender_timestamp, size, now_ms).highest_counter
            >= m.highest_counter,
        receiver_recorded(m, counter, sender_timestamp, size, now_ms).highest_counter >= counter,
{
}

/// What one more frame changes: it is counted, with its bytes, in total and in the interval; the
/// highest counter, the last timestamp and the last arrival are those of this frame where it is
/// the highest, or the last.
pub proof fn law_frame_is_counted(
    m: ReceiverModel,
    counter: nat,
    sender_timestamp: nat,
    size: nat,
    now_ms: nat,
)
    ensures
        ({
            let r = receiver_recorded(m, counter, sender_timestamp, size, now_ms);
            &&& r.highest_counter == counter || r.highest_counter == m.highest_counter
            &&& r.highest_counter >= counter && r.highest_counter >= m.highest_counter
            &&& r.last_sender_timestamp == sender_timestamp
            &&& r.last_recv_time_ms == now_ms
            &&& m.cumulative_packets < u64::MAX ==> r.cumulative_packets == m.cumulative_packets + 1
            &&& m.cumulative_packets == u64::MAX ==> r.cumulative_packets == 0
            &&& m.cumulative_bytes + size <= u64::MAX ==> r.cumulative_bytes == m.cumulative_bytes
                + size
            &&& r.cumulative_bytes <= u64::MAX
            &&& (m.cumulative_bytes + size - r.cumulative_bytes) % 0x1_0000_0000_0000_0000 == 0
            &&& m.interval_packets < u32::MAX ==> r.interval_packets == m.interval_packets + 1
            &&& m.interval_packets == u32::MAX ==> r.interval_packets == 0
            &&& m.interval_bytes + size <= u32::MAX ==> r.interval_bytes == m.interval_bytes + size
            &&& size <= u32::MAX && m.interval_bytes + size > u32::MAX ==> r.interval_bytes
                == u32::MAX
        }),
{
}

/// Where everything stands in a ReceiverReport: the type, three zeros, the highest counter, the
/// packets and the bytes in total, the last timestamp, the milliseconds since the last frame
/// arrived, zeros, and the packets and bytes of the interval.
pub proof fn law_report_layout(m: ReceiverModel, now_ms: nat)
    ensures
        ({
            let r = receiver_report(m, now_ms);
            let dwell: nat = if m.last_recv_time_ms != 0 && now_ms >= m.last_recv_time_ms {
                (now_ms - m.last_recv_time_ms) as nat
            } else {
                0
            };
            &&& r.len() == 68
            &&& r[0] == 2
            &&& r[1] == 0 && r[2] == 0 && r[3] == 0
            &&& r.subrange(4, 12) == bytes::le_bytes(m.highest_counter, 8)
            &&& r.subrange(12, 20) == bytes::le_bytes(m.cumulative_packets, 8)
            &&& r.subrange(20, 28) == bytes::le_bytes(m.cumulative_bytes, 8)
            &&& r.subrange(28, 32) == bytes::le_bytes(m.last_sender_timestamp, 4)
            &&& r.subrange(32, 34) == bytes::le_bytes(dwell, 2)
            &&& forall|i: int| 34 <= i < 60 ==> #[trigger] r[i] == 0
            &&& r.subrange(60, 64) == bytes::le_bytes(m.interval_packets, 4)
            &&& r.subrange(64, 68) == bytes::le_bytes(m.interval_bytes, 4)
        }),
{
    broadcast use bytes::lemma_le_bytes_len;

    let r = receiver_report(m, now_ms);
    assert(r.subrange(4, 12) =~= bytes::le_bytes(m.highest_counter, 8));
    assert(r.subrange(12, 20) =~= bytes::le_bytes(m.cumulative_packets, 8));
    assert(r.subrange(20, 28) =~= bytes::le_bytes(m.cumulative_bytes, 8));
    assert(r.subrange(28, 32) =~= bytes::le_bytes(m.last_sender_timestamp, 4));
    assert(r.subrange(32, 34) =~= bytes::le_bytes(dwell_time(m, now_ms), 2));
    assert(r.subrange(60, 64) =~= bytes::le_bytes(m.interval_packets, 4));
    assert(r.subrange(64, 68) =~= bytes::le_bytes(m.interval_bytes, 4));
}

/// A report starts a new interval and forgets nothing else.
pub proof fn law_report_keeps_totals(m: ReceiverModel)
    ensures
        ({
            let r = receiver_reported(m);
            &&& r.interval_packets == 0
            &&& r.interval_bytes == 0
            &&& r.highest_counter == m.highest_counter
            &&& r.cumulative_packets == m.cumulative_packets
            &&& r.cumulative_bytes == m.cumulative_bytes
            &&& r.last_sender_timestamp == m.last_sender_timestamp
            &&& r.last_recv_time_ms == m.last_recv_time_ms
        }),
{
}

/// A receiver that has seen nothing has counted nothing.
pub proof fn law_new_receiver_is_empty()
    ensures
        ({
            let r = receiver_new();
            &&& r.highest_counter == 0 && r.cumulative_packets == 0 && r.cumulative_bytes == 0
            &&& r.interval_packets == 0 && r.interval_bytes == 0
            &&& r.last_sender_timestamp == 0 && r.last_recv_time_ms == 0
        }),
{
}

} // verus!

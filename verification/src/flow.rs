//! TCP flow tracking and state machine
//!
//! Tracks TCP connections and their state for RTT measurement.

use std::collections::HashMap;

use vstd::prelude::*;

use crate::addr::SocketAddr;
use crate::pending::{
    ack_matched, match_ack, pending_ok, plausible, segment_tracked, track_segment,
};
use crate::time::{span_since, Duration, Instant};

pub use crate::pending::PendingSegment;
pub use crate::tracker::FlowTracker;

verus! {

/// Unique identifier for a TCP flow (bidirectional)
#[derive(Debug, Clone, Copy, PartialEq, Eq, Structural, Hash)]
pub struct FlowKey {
    /// Lower address (by IP, then port)
    pub addr_a: SocketAddr,
    /// Higher address
    pub addr_b: SocketAddr,
}

impl FlowKey {
    /// The key of the flow between two endpoints: the lower address comes first.
    pub open spec fn between(src: SocketAddr, dst: SocketAddr) -> FlowKey {
        if src.precedes(dst) {
            FlowKey { addr_a: src, addr_b: dst }
        } else {
            FlowKey { addr_a: dst, addr_b: src }
        }
    }

    /// Keys are ordered by their lower address, then by their higher one.
    pub open spec fn precedes(self, other: FlowKey) -> bool {
        self.addr_a.precedes(other.addr_a) || (self.addr_a == other.addr_a
            && self.addr_b.precedes(other.addr_b))
    }

    /// Create a flow key from source and destination addresses.
    /// Normalizes to ensure consistent ordering regardless of direction.
    pub fn new(src: SocketAddr, dst: SocketAddr) -> (key: Self)
        ensures
            key == FlowKey::between(src, dst),
            (key.addr_a == src && key.addr_b == dst) || (key.addr_a == dst && key.addr_b == src),
            !key.addr_b.precedes(key.addr_a),
    {
        if src.is_before(&dst) {
            FlowKey { addr_a: src, addr_b: dst }
        } else {
            FlowKey { addr_a: dst, addr_b: src }
        }
    }

    /// Check if this packet is from addr_a to addr_b
    pub fn is_a_to_b(&self, src: SocketAddr) -> (b: bool)
        ensures
            b == (src == self.addr_a),
    {
        src == self.addr_a
    }

    /// Tests the order of two keys.
    pub fn is_before(&self, other: &FlowKey) -> (b: bool)
        ensures
            b == self.precedes(*other),
    {
        self.addr_a.is_before(&other.addr_a) || (self.addr_a == other.addr_a
            && self.addr_b.is_before(&other.addr_b))
    }
}

/// TCP flags extracted from packet
#[derive(Debug, Clone, Copy, PartialEq, Eq, Structural)]
pub struct TcpFlags {
    pub syn: bool,
    pub ack: bool,
    pub fin: bool,
    pub rst: bool,
    pub psh: bool,
}

impl Default for TcpFlags {
    fn default() -> (flags: Self)
        ensures
            flags == (TcpFlags { syn: false, ack: false, fin: false, rst: false, psh: false }),
    {
        TcpFlags { syn: false, ack: false, fin: false, rst: false, psh: false }
    }
}

/// The bit of weight `weight` (a power of two) is set in a flag byte.
pub open spec fn flag_bit(byte: u8, weight: int) -> bool {
    (byte as int / weight) % 2 == 1
}

/// The flags in the flag byte of a TCP header.
pub open spec fn flags_in(byte: u8) -> TcpFlags {
    TcpFlags {
        fin: flag_bit(byte, 1),
        syn: flag_bit(byte, 2),
        rst: flag_bit(byte, 4),
        psh: flag_bit(byte, 8),
        ack: flag_bit(byte, 16),
    }
}

impl TcpFlags {
    /// A SYN that opens a connection.
    pub open spec fn opens(self) -> bool {
        self.syn && !self.ack
    }

    /// A SYN that answers one.
    pub open spec fn answers_syn(self) -> bool {
        self.syn && self.ack
    }

    /// An acknowledgement that neither opens nor closes.
    pub open spec fn only_acks(self) -> bool {
        self.ack && !self.syn && !self.fin && !self.rst
    }

    /// Reads the flags from the flag byte of a TCP header.
    pub fn from_byte(flags: u8) -> (r: Self)
        ensures
            r == flags_in(flags),
    {
        assert((flags & 0x01 != 0) == (flags % 2 == 1)) by (bit_vector);
        assert((flags & 0x02 != 0) == ((flags / 2) % 2 == 1)) by (bit_vector);
        assert((flags & 0x04 != 0) == ((flags / 4) % 2 == 1)) by (bit_vector);
        assert((flags & 0x08 != 0) == ((flags / 8) % 2 == 1)) by (bit_vector);
        assert((flags & 0x10 != 0) == ((flags / 16) % 2 == 1)) by (bit_vector);
        TcpFlags {
            fin: flags & 0x01 != 0,
            syn: flags & 0x02 != 0,
            rst: flags & 0x04 != 0,
            psh: flags & 0x08 != 0,
            ack: flags & 0x10 != 0,
        }
    }

    /// Tests for a SYN that opens a connection.
    pub fn is_syn(&self) -> (b: bool)
        ensures
            b == self.opens(),
            b == (self.syn && !self.ack),
    {
        self.syn && !self.ack
    }

    /// Tests for a SYN that answers one.
    pub fn is_syn_ack(&self) -> (b: bool)
        ensures
            b == self.answers_syn(),
            b == (self.syn && self.ack),
    {
        self.syn && self.ack
    }

    /// Tests for an acknowledgement that neither opens nor closes.
    pub fn is_pure_ack(&self) -> (b: bool)
        ensures
            b == self.only_acks(),
            b == (self.ack && !(self.syn || self.fin || self.rst)),
    {
        self.ack && !self.syn && !self.fin && !self.rst
    }
}

/// State of a TCP flow for RTT tracking
#[derive(Debug, Clone)]
pub enum FlowState {
    /// Initial SYN seen, waiting for SYN-ACK
    SynSent { initiator: SocketAddr, syn_time: Instant, syn_seq: u32 },
    /// SYN-ACK received, waiting for final ACK
    SynAckReceived {
        initiator: SocketAddr,
        syn_time: Instant,
        syn_ack_time: Instant,
        syn_ack_seq: u32,
    },
    /// Connection established, tracking data RTT
    Established {
        initiator: SocketAddr,
        handshake_rtt: Duration,
        pending_data: HashMap<u32, PendingSegment>,
    },
    /// Connection closing
    Closing,
    /// Connection closed
    Closed,
}

/// What a [`FlowState`] stands for.
#[verifier::ext_equal]
pub enum StateModel {
    SynSent { initiator: SocketAddr, syn_time: Instant, syn_seq: u32 },
    SynAckReceived {
        initiator: SocketAddr,
        syn_time: Instant,
        syn_ack_time: Instant,
        syn_ack_seq: u32,
    },
    Established {
        initiator: SocketAddr,
        handshake_rtt: Duration,
        pending: Map<u32, PendingSegment>,
    },
    Closing,
    Closed,
}

impl View for FlowState {
    type V = StateModel;

    open spec fn view(&self) -> StateModel {
        match *self {
            FlowState::SynSent { initiator, syn_time, syn_seq } => StateModel::SynSent {
                initiator,
                syn_time,
                syn_seq,
            },
            FlowState::SynAckReceived { initiator, syn_time, syn_ack_time, syn_ack_seq } => {
                StateModel::SynAckReceived { initiator, syn_time, syn_ack_time, syn_ack_seq }
            },
            FlowState::Established { initiator, handshake_rtt, pending_data } => {
                StateModel::Established { initiator, handshake_rtt, pending: pending_data@ }
            },
            FlowState::Closing => StateModel::Closing,
            FlowState::Closed => StateModel::Closed,
        }
    }
}

/// Tracked TCP flow with state and RTT samples
#[derive(Debug)]
pub struct TrackedFlow {
    pub key: FlowKey,
    /// The end that opened the connection.
    pub initiator: SocketAddr,
    pub state: FlowState,
    pub rtt_samples: Vec<Duration>,
    pub last_activity: Instant,
    pub packets_seen: u64,
    pub bytes_seen: u64,
}

/// What a [`TrackedFlow`] stands for.
#[verifier::ext_equal]
pub struct FlowModel {
    pub key: FlowKey,
    pub initiator: SocketAddr,
    pub state: StateModel,
    pub samples: Seq<Duration>,
    pub last_activity: Instant,
    pub packets: u64,
    pub bytes: u64,
}

impl View for TrackedFlow {
    type V = FlowModel;

    open spec fn view(&self) -> FlowModel {
        FlowModel {
            key: self.key,
            initiator: self.initiator,
            state: self.state@,
            samples: self.rtt_samples@,
            last_activity: self.last_activity,
            packets: self.packets_seen,
            bytes: self.bytes_seen,
        }
    }
}

/// One packet of a flow, as its state machine sees it.
pub struct Segment {
    pub src: SocketAddr,
    pub flags: TcpFlags,
    pub seq: u32,
    pub ack: u32,
    pub payload_len: u16,
    pub timestamp: Instant,
}

/// The flow that a SYN starts.
pub open spec fn fresh_flow(
    key: FlowKey,
    initiator: SocketAddr,
    syn_time: Instant,
    syn_seq: u32,
) -> FlowModel {
    FlowModel {
        key,
        initiator,
        state: StateModel::SynSent { initiator, syn_time, syn_seq },
        samples: Seq::empty(),
        last_activity: syn_time,
        packets: 1,
        bytes: 0,
    }
}

/// What a data packet leaves on record.
pub open spec fn data_segment(p: Segment) -> PendingSegment {
    PendingSegment {
        sender: p.src,
        send_time: p.timestamp,
        seq_end: ((p.seq + p.payload_len) % 0x1_0000_0000) as u32,
        payload_len: p.payload_len,
    }
}

/// A packet's payload, where it has one, is put on record.
pub open spec fn payload_recorded(
    before: Map<u32, PendingSegment>,
    p: Segment,
    after: Map<u32, PendingSegment>,
) -> bool {
    if p.payload_len > 0 {
        segment_tracked(before, data_segment(p), after)
    } else {
        after == before
    }
}

/// A packet's acknowledgement, where it has one, is matched.
pub open spec fn ack_taken(
    before: Map<u32, PendingSegment>,
    p: Segment,
    after: Map<u32, PendingSegment>,
    rtt: Option<Duration>,
) -> bool {
    if p.flags.ack && p.ack > 0 {
        ack_matched(before, p.ack, p.src, p.timestamp, after, rtt)
    } else {
        after == before && rtt is None
    }
}

/// On an established connection a packet turns the unacknowledged segments `before` into
/// `after` and yields `rtt`: first its payload is put on record, then its acknowledgement is
/// matched.
pub open spec fn data_step(
    before: Map<u32, PendingSegment>,
    p: Segment,
    after: Map<u32, PendingSegment>,
    rtt: Option<Duration>,
) -> bool {
    exists|held: Map<u32, PendingSegment>| #[trigger]
        payload_recorded(before, p, held) && ack_taken(held, p, after, rtt)
}

/// A packet takes a flow from state `s` to state `t` and yields `rtt`.
pub open spec fn state_step(
    s: StateModel,
    p: Segment,
    t: StateModel,
    rtt: Option<Duration>,
) -> bool {
    match s {
        StateModel::SynSent { initiator, syn_time, .. } => {
            if p.flags.answers_syn() && p.src != initiator {
                &&& t == StateModel::SynAckReceived {
                    initiator,
                    syn_time,
                    syn_ack_time: p.timestamp,
                    syn_ack_seq: p.seq,
                }
                &&& rtt == Some(span_since(p.timestamp, syn_time))
            } else {
                &&& t == if p.flags.rst {
                    StateModel::Closing
                } else {
                    s
                }
                &&& rtt is None
            }
        },
        StateModel::SynAckReceived { initiator, syn_time, syn_ack_time, .. } => {
            &&& t == if p.flags.only_acks() && p.src == initiator {
                StateModel::Established {
                    initiator,
                    handshake_rtt: span_since(syn_ack_time, syn_time),
                    pending: Map::empty(),
                }
            } else if p.flags.rst {
                StateModel::Closing
            } else {
                s
            }
            &&& rtt is None
        },
        StateModel::Established { initiator, handshake_rtt, pending } => {
            if p.flags.rst || p.flags.fin {
                t == StateModel::Closing && rtt is None
            } else {
                &&& t is Established
                &&& t->Established_initiator == initiator
                &&& t->Established_handshake_rtt == handshake_rtt
                &&& data_step(pending, p, t->Established_pending, rtt)
            }
        },
        StateModel::Closing => {
            &&& t == if p.flags.rst || (p.flags.fin && p.flags.ack) {
                StateModel::Closed
            } else {
                s
            }
            &&& rtt is None
        },
        StateModel::Closed => t == s && rtt is None,
    }
}

/// A packet takes a flow from `m` to `n` and yields `rtt`, which then ends the list of samples.
pub open spec fn flow_step(m: FlowModel, p: Segment, n: FlowModel, rtt: Option<Duration>) -> bool {
    &&& state_step(m.state, p, n.state, rtt)
    &&& n.key == m.key
    &&& n.initiator == m.initiator
    &&& n.samples == match rtt {
        Some(d) => m.samples.push(d),
        None => m.samples,
    }
    &&& n.last_activity == p.timestamp
    &&& n.packets == (m.packets + 1) % 0x1_0000_0000_0000_0000
    &&& n.bytes == (m.bytes + p.payload_len) % 0x1_0000_0000_0000_0000
}

/// A flow is active while it is not closed and its last packet is less than `timeout` ago.
pub open spec fn flow_active(m: FlowModel, now: Instant, timeout: Duration) -> bool {
    !(m.state is Closed) && span_since(now, m.last_activity).nanos < timeout.nanos
}

/// The handshake round trip, known once the connection is established and until it closes.
pub open spec fn handshake_rtt_of(m: FlowModel) -> Option<Duration> {
    match m.state {
        StateModel::Established { handshake_rtt, .. } => Some(handshake_rtt),
        _ => None,
    }
}

/// The unacknowledged segments of an established flow are in order.
pub open spec fn state_ok(s: StateModel) -> bool {
    s matches StateModel::Established { pending, .. } ==> pending_ok(pending)
}

/// The end that opened the connection, as far as the state tells.
pub open spec fn initiator_in(s: StateModel) -> Option<SocketAddr> {
    match s {
        StateModel::SynSent { initiator, .. } => Some(initiator),
        StateModel::SynAckReceived { initiator, .. } => Some(initiator),
        StateModel::Established { initiator, .. } => Some(initiator),
        _ => None,
    }
}

/// The samples of data: all but the first, which is that of the handshake.
pub open spec fn data_samples(m: FlowModel) -> Seq<Duration> {
    if m.samples.len() == 0 {
        m.samples
    } else {
        m.samples.subrange(1, m.samples.len() as int)
    }
}

/// The first sample is the handshake round trip, taken with the SYN-ACK, and the others are
/// plausible data round trips.
pub open spec fn samples_ok(m: FlowModel) -> bool {
    &&& match m.state {
        StateModel::SynSent { .. } => m.samples.len() == 0,
        StateModel::SynAckReceived { syn_time, syn_ack_time, .. } => {
            m.samples.len() == 1 && m.samples[0] == span_since(syn_ack_time, syn_time)
        },
        StateModel::Established { handshake_rtt, .. } => {
            m.samples.len() >= 1 && m.samples[0] == handshake_rtt
        },
        _ => true,
    }
    &&& forall|i: int| 1 <= i < m.samples.len() ==> plausible(#[trigger] m.samples[i])
}

/// The flow's record is in order, and one of its two ends opened the connection.
pub open spec fn flow_ok(m: FlowModel) -> bool {
    &&& state_ok(m.state)
    &&& samples_ok(m)
    &&& m.initiator == m.key.addr_a || m.initiator == m.key.addr_b
    &&& initiator_in(m.state) matches Some(end) ==> end == m.initiator
}

impl FlowState {
    /// Lets a packet act on the state and returns the round trip that it completes.
    fn advance(
        &mut self,
        src: SocketAddr,
        flags: TcpFlags,
        seq: u32,
        ack: u32,
        payload_len: u16,
        timestamp: Instant,
    ) -> (rtt: Option<Duration>)
        ensures
            state_step(
                old(self)@,
                (Segment { src, flags, seq, ack, payload_len, timestamp }),
                final(self)@,
                rtt,
            ),
    {
        match self {
            FlowState::SynSent { initiator, syn_time, .. } => {
                // Expect SYN-ACK from responder
                if flags.is_syn_ack() && src != *initiator {
                    let rtt = timestamp.saturating_duration_since(*syn_time);
                    *self = FlowState::SynAckReceived {
                        initiator: *initiator,
                        syn_time: *syn_time,
                        syn_ack_time: timestamp,
                        syn_ack_seq: seq,
                    };
                    return Some(rtt);
                }
                if flags.rst {
                    *self = FlowState::Closing;
                }
                None
            },
            FlowState::SynAckReceived { initiator, syn_time, syn_ack_time, .. } => {
                // Expect ACK from initiator completing handshake
                if flags.is_pure_ack() && src == *initiator {
                    *self = FlowState::Established {
                        initiator: *initiator,
                        handshake_rtt: syn_ack_time.saturating_duration_since(*syn_time),
                        pending_data: HashMap::new(),
                    };
                } else if flags.rst {
                    *self = FlowState::Closing;
                }
                None
            },
            FlowState::Established { pending_data, .. } => {
                if flags.rst || flags.fin {
                    *self = FlowState::Closing;
                    return None;
                }
                let ghost p = Segment { src, flags, seq, ack, payload_len, timestamp };
                let ghost before = pending_data@;
                // Data packet: track for ACK matching
                if payload_len > 0 {
                    let seq_end: u32 = seq.wrapping_add(payload_len as u32);
                    track_segment(
                        pending_data,
                        PendingSegment { sender: src, send_time: timestamp, seq_end, payload_len },
                    );
                }
                assert(payload_recorded(before, p, pending_data@));
                // ACK packet: match against pending data
                if flags.ack && ack > 0 {
                    match_ack(pending_data, ack, src, timestamp)
                } else {
                    None
                }
            },
            FlowState::Closing => {
                if flags.rst || (flags.fin && flags.ack) {
                    *self = FlowState::Closed;
                }
                None
            },
            FlowState::Closed => None,
        }
    }
}

impl TrackedFlow {
    /// Starts tracking the flow that a SYN opens.
    pub fn new(key: FlowKey, initiator: SocketAddr, syn_time: Instant, syn_seq: u32) -> (flow: Self)
        ensures
            flow@ == fresh_flow(key, initiator, syn_time, syn_seq),
            flow.key == key,
            flow.initiator == initiator,
            flow.state == (FlowState::SynSent { initiator, syn_time, syn_seq }),
            flow.rtt_samples@.len() == 0,
            flow.last_activity == syn_time,
            flow.packets_seen == 1,
            flow.bytes_seen == 0,
    {
        TrackedFlow {
            key,
            initiator,
            state: FlowState::SynSent { initiator, syn_time, syn_seq },
            rtt_samples: Vec::new(),
            last_activity: syn_time,
            packets_seen: 1,
            bytes_seen: 0,
        }
    }

    /// Process a packet and potentially extract RTT sample
    ///
    /// The SYN-ACK that answers the SYN gives a sample, and so does the acknowledgement of a
    /// data segment by the other end, counted from the segment's first transmission. A reset during the
    /// handshake, or a reset or FIN afterwards, sets the flow closing. The packet and byte
    /// counters wrap around.
    pub fn process_packet(
        &mut self,
        src: SocketAddr,
        flags: TcpFlags,
        seq: u32,
        ack: u32,
        payload_len: u16,
        timestamp: Instant,
    ) -> (rtt: Option<Duration>)
        ensures
            flow_step(
                old(self)@,
                (Segment { src, flags, seq, ack, payload_len, timestamp }),
                final(self)@,
                rtt,
            ),
            final(self).key == old(self).key,
            final(self).initiator == old(self).initiator,
            final(self).last_activity == timestamp,
            final(self).packets_seen == (old(self).packets_seen + 1) % 0x1_0000_0000_0000_0000,
            final(self).bytes_seen == (old(self).bytes_seen + payload_len) % 0x1_0000_0000_0000_0000,
            rtt matches Some(d) ==> final(self).rtt_samples@ == old(self).rtt_samples@.push(d),
            rtt is None ==> final(self).rtt_samples@ == old(self).rtt_samples@,
    {
        self.last_activity = timestamp;
        self.packets_seen = self.packets_seen.wrapping_add(1);
        self.bytes_seen = self.bytes_seen.wrapping_add(payload_len as u64);
        let rtt_sample = self.state.advance(src, flags, seq, ack, payload_len, timestamp);
        if let Some(rtt) = rtt_sample {
            self.rtt_samples.push(rtt);
        }
        rtt_sample
    }

    /// Check if flow is still active
    pub fn is_active(&self, now: Instant, timeout: Duration) -> (b: bool)
        ensures
            b == flow_active(self@, now, timeout),
            b == (!(self.state is Closed) && timeout.nanos > 0 && now.nanos
                < self.last_activity.nanos + timeout.nanos),
    {
        !matches!(self.state, FlowState::Closed) && now.saturating_duration_since(
            self.last_activity,
        ).nanos < timeout.nanos
    }

    /// Check if flow is established
    pub fn is_established(&self) -> (b: bool)
        ensures
            b == self@.state is Established,
            b == self.state is Established,
    {
        matches!(self.state, FlowState::Established { .. })
    }

    /// Get handshake RTT if available
    pub fn handshake_rtt(&self) -> (rtt: Option<Duration>)
        ensures
            rtt == handshake_rtt_of(self@),
            match self.state {
                FlowState::Established { handshake_rtt, .. } => rtt == Some(handshake_rtt),
                _ => rtt is None,
            },
    {
        match &self.state {
            FlowState::Established { handshake_rtt, .. } => Some(*handshake_rtt),
            _ => None,
        }
    }
}

/// The record of unacknowledged segments stays in order whatever packet comes: every segment
/// is filed under its own end, carries data, and there are never more than the limit.
pub proof fn pending_stays_bounded(s: StateModel, p: Segment, t: StateModel, rtt: Option<Duration>)
    requires
        state_ok(s),
        state_step(s, p, t, rtt),
    ensures
        state_ok(t),
{
    if s is Established && t is Established {
        let before = s->Established_pending;
        let after = t->Established_pending;
        let held = choose|held: Map<u32, PendingSegment>| #[trigger]
            payload_recorded(before, p, held) && ack_taken(held, p, after, rtt);
        assert(pending_ok(held));
        assert(after.dom().subset_of(held.dom()));
        vstd::set_lib::lemma_len_subset(after.dom(), held.dom());
    }
}

/// A flow in order stays in order whatever packet comes, and the end that opened the connection
/// stays known.
pub proof fn flow_stays_ok(m: FlowModel, p: Segment, n: FlowModel, rtt: Option<Duration>)
    requires
        flow_ok(m),
        flow_step(m, p, n, rtt),
    ensures
        flow_ok(n),
        n.initiator == m.initiator,
{
    pending_stays_bounded(m.state, p, n.state, rtt);
}

} // verus!

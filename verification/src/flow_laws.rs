//! What packets do to a flow, told packet by packet.

use vstd::prelude::*;

use crate::addr::SocketAddr;
use crate::flow::{
    ack_taken, data_step, flags_in, flow_active, flow_ok, flow_step, fresh_flow, handshake_rtt_of,
    payload_recorded, FlowKey, FlowModel, FlowState, Segment, StateModel, TcpFlags, TrackedFlow,
};
use crate::pending::{acknowledged, answered, covers, PendingSegment};
use crate::time::{span_since, Duration, Instant};

verus! {

/// The weight of a flag in the flag byte.
pub open spec fn weight(flag: bool, w: int) -> int {
    if flag {
        w
    } else {
        0
    }
}

/// The flags spell their byte, but for the three highest bits, which are of no concern.
pub proof fn flags_spell_their_byte(byte: u8)
    ensures
        ({
            let f = flags_in(byte);
            byte as int == weight(f.fin, 1) + weight(f.syn, 2) + weight(f.rst, 4) + weight(
                f.psh,
                8,
            ) + weight(f.ack, 16) + 32 * (byte as int / 32)
        }),
{
    assert(byte == (byte % 2) + 2 * ((byte / 2) % 2) + 4 * ((byte / 4) % 2) + 8 * ((byte / 8) % 2)
        + 16 * ((byte / 16) % 2) + 32 * (byte / 32)) by (bit_vector);
}

/// A SYN opens a connection unless it acknowledges, and then it answers one; an acknowledgement
/// that opens, closes and resets nothing is a pure one.
pub proof fn flags_tell_what_a_packet_is_for(flags: TcpFlags)
    ensures
        flags.syn == (flags.opens() || flags.answers_syn()),
        flags.opens() ==> !flags.ack,
        flags.answers_syn() ==> flags.ack,
        flags.ack == (flags.answers_syn() || flags.only_acks() || (!flags.syn && (flags.fin
            || flags.rst) && flags.ack)),
        flags.only_acks() ==> flags.ack && !flags.syn && !flags.fin && !flags.rst,
{
}

/// Keys are ordered by their lower ends, and where these are the same by their higher ones.
pub proof fn keys_order_by_lower_end_first(a: FlowKey, b: FlowKey)
    ensures
        a.addr_a.precedes(b.addr_a) ==> a.precedes(b),
        a.addr_a == b.addr_a && a.addr_b.precedes(b.addr_b) ==> a.precedes(b),
{
}

/// A fresh flow has seen its SYN and nothing else.
pub proof fn fresh_flows_have_seen_their_syn(
    key: FlowKey,
    initiator: SocketAddr,
    syn_time: Instant,
    syn_seq: u32,
)
    ensures
        ({
            let m = fresh_flow(key, initiator, syn_time, syn_seq);
            &&& m.key == key
            &&& m.initiator == initiator
            &&& m.state == (StateModel::SynSent { initiator, syn_time, syn_seq })
            &&& m.samples.len() == 0
            &&& m.last_activity == syn_time
            &&& m.packets == 1
            &&& m.bytes == 0
        }),
{
}

/// Every packet is put down: its time as that of the last activity, itself and its payload in
/// the counters, and what it yields behind the samples. The flow stays the same flow.
pub proof fn packets_are_put_down(m: FlowModel, p: Segment, n: FlowModel, rtt: Option<Duration>)
    requires
        flow_step(m, p, n, rtt),
    ensures
        n.key == m.key,
        n.initiator == m.initiator,
        n.last_activity == p.timestamp,
        m.packets < u64::MAX ==> n.packets == m.packets + 1,
        m.packets == u64::MAX ==> n.packets == 0,
        m.bytes + p.payload_len <= u64::MAX ==> n.bytes == m.bytes + p.payload_len,
        m.bytes + p.payload_len > u64::MAX ==> n.bytes == m.bytes + p.payload_len - u64::MAX - 1,
        rtt is None ==> n.samples == m.samples,
        rtt matches Some(d) ==> n.samples == m.samples.push(d),
{
}

/// The answer to a SYN from the other end yields the time since the SYN, and is put down. Of all
/// other packets only a reset matters to a flow that waits for the answer.
pub proof fn only_the_other_end_answers_a_syn(
    m: FlowModel,
    initiator: SocketAddr,
    syn_time: Instant,
    syn_seq: u32,
    p: Segment,
    n: FlowModel,
    rtt: Option<Duration>,
)
    requires
        m.state == (StateModel::SynSent { initiator, syn_time, syn_seq }),
        flow_step(m, p, n, rtt),
    ensures
        ({
            let is_answer = p.flags.syn && p.flags.ack && p.src != initiator;
            &&& rtt is Some <==> is_answer
            &&& is_answer ==> n.state == (StateModel::SynAckReceived {
                initiator,
                syn_time,
                syn_ack_time: p.timestamp,
                syn_ack_seq: p.seq,
            })
            &&& is_answer && p.timestamp.nanos >= syn_time.nanos ==> syn_time.nanos
                + rtt->Some_0.nanos == p.timestamp.nanos
            &&& is_answer && p.timestamp.nanos < syn_time.nanos ==> rtt->Some_0.nanos == 0
            &&& !is_answer && p.flags.rst ==> n.state is Closing
            &&& !is_answer && !p.flags.rst ==> n.state == m.state
        }),
{
}

/// The initiator's pure acknowledgement establishes an answered connection, with the time from
/// the SYN to its answer and nothing unacknowledged. Of all other packets only a reset matters.
pub proof fn only_the_initiator_establishes(
    m: FlowModel,
    initiator: SocketAddr,
    syn_time: Instant,
    syn_ack_time: Instant,
    syn_ack_seq: u32,
    p: Segment,
    n: FlowModel,
    rtt: Option<Duration>,
)
    requires
        m.state == (StateModel::SynAckReceived {
            initiator,
            syn_time,
            syn_ack_time,
            syn_ack_seq,
        }),
        flow_step(m, p, n, rtt),
    ensures
        ({
            let completes = p.flags.ack && !p.flags.syn && !p.flags.fin && !p.flags.rst && p.src
                == initiator;
            &&& rtt is None
            &&& n.state is Established <==> completes
            &&& completes ==> n.state->Established_initiator == initiator
                && n.state->Established_pending.dom() =~= Set::<u32>::empty()
            &&& completes && syn_ack_time.nanos >= syn_time.nanos ==> syn_time.nanos
                + n.state->Established_handshake_rtt.nanos == syn_ack_time.nanos
            &&& completes && syn_ack_time.nanos < syn_time.nanos
                ==> n.state->Established_handshake_rtt.nanos == 0
            &&& !completes && p.flags.rst ==> n.state is Closing
            &&& !completes && !p.flags.rst ==> n.state == m.state
        }),
{
}

/// An established connection stays established, between the same ends and with the same
/// handshake, until a reset or a FIN. Then it closes: with one more reset, or a FIN that
/// acknowledges, and with nothing else.
pub proof fn connections_end_by_reset_or_fin(
    m: FlowModel,
    p: Segment,
    n: FlowModel,
    rtt: Option<Duration>,
)
    requires
        flow_step(m, p, n, rtt),
    ensures
        m.state is Established && (p.flags.rst || p.flags.fin) ==> n.state is Closing && rtt is None,
        m.state is Established && !p.flags.rst && !p.flags.fin ==> n.state is Established
            && n.state->Established_initiator == m.state->Established_initiator
            && n.state->Established_handshake_rtt == m.state->Established_handshake_rtt,
        m.state is Closing || m.state is Closed ==> rtt is None,
        m.state is Closing && (p.flags.rst || (p.flags.fin && p.flags.ack)) ==> n.state is Closed,
        m.state is Closing && !p.flags.rst && !(p.flags.fin && p.flags.ack) ==> n.state is Closing,
        m.state is Closed ==> n.state is Closed,
{
}

/// An acknowledgement reaches all data that ends at most a thousand bytes before it, also where
/// the sequence numbers start anew in between, and all that ends before it in number.
pub proof fn acknowledgements_reach_back_across_the_wrap(seq_end: u32, beyond: u32, ack: u32)
    ensures
        beyond <= 1_000 && ack as int == (seq_end + beyond) % 0x1_0000_0000 ==> covers(ack, seq_end),
        ack >= seq_end ==> covers(ack, seq_end),
{
}

/// An acknowledgement does not reach data that ends after it, unless the numbers started anew.
pub proof fn acknowledgements_do_not_reach_ahead(seq_end: u32, ack: u32)
    requires
        ack < seq_end,
        ack >= 1_000 || seq_end <= 4_294_966_295,
    ensures
        !covers(ack, seq_end),
{
}

/// On an established connection, data that acknowledges nothing yields nothing, and a segment
/// is put on record unless its sender's segment with that end is there already. While there are
/// no more than a thousand segments, nothing else changes.
pub proof fn data_is_put_on_record(
    m: FlowModel,
    p: Segment,
    n: FlowModel,
    rtt: Option<Duration>,
    end: u32,
    k: u32,
)
    requires
        m.state is Established,
        m.state->Established_pending.dom().finite(),
        !p.flags.rst,
        !p.flags.fin,
        !p.flags.ack || p.ack == 0,
        p.payload_len > 0,
        end as int == (p.seq + p.payload_len) % 0x1_0000_0000,
        m.state->Established_pending.dom().len() < 1_000 || (
        m.state->Established_pending.dom().len() == 1_000
            && m.state->Established_pending.contains_key(end)),
        flow_step(m, p, n, rtt),
    ensures
        ({
            let before = m.state->Established_pending;
            let after = n.state->Established_pending;
            let again = before.contains_key(end) && before[end].sender == p.src;
            &&& rtt is None
            &&& n.state is Established
            &&& after.contains_key(end)
            &&& again ==> after[end] == before[end]
            &&& !again ==> after[end].sender == p.src && after[end].send_time == p.timestamp
                && after[end].seq_end == end && after[end].payload_len == p.payload_len
            &&& k != end ==> after.contains_key(k) == before.contains_key(k)
            &&& k != end && before.contains_key(k) ==> after[k] == before[k]
        }),
{
    let before = m.state->Established_pending;
    let after = n.state->Established_pending;
    let held = choose|held: Map<u32, PendingSegment>| #[trigger]
        payload_recorded(before, p, held) && ack_taken(held, p, after, rtt);
    assert(before.insert(end, crate::flow::data_segment(p)).dom().len() <= 1_000);
}

/// One segment too many leaves the record with the newest five hundred and one: those that were
/// first seen last, among the old ones and the new one.
pub proof fn full_record_keeps_the_newest(
    m: FlowModel,
    p: Segment,
    n: FlowModel,
    rtt: Option<Duration>,
    end: u32,
    gone: u32,
    kept: u32,
)
    requires
        m.state is Established,
        m.state->Established_pending.dom().finite(),
        m.state->Established_pending.dom().len() == 1_000,
        !m.state->Established_pending.contains_key(end),
        !p.flags.rst,
        !p.flags.fin,
        !p.flags.ack || p.ack == 0,
        p.payload_len > 0,
        end as int == (p.seq + p.payload_len) % 0x1_0000_0000,
        flow_step(m, p, n, rtt),
    ensures
        ({
            let before = m.state->Established_pending;
            let after = n.state->Established_pending;
            let time = |k: u32|
                if k == end {
                    p.timestamp.nanos
                } else {
                    before[k].send_time.nanos
                };
            &&& rtt is None
            &&& after.dom().len() == 501
            &&& after.contains_key(kept) ==> kept == end || before.contains_key(kept)
            &&& after.contains_key(kept) && kept != end ==> after[kept] == before[kept]
            &&& after.contains_key(end) ==> after[end].sender == p.src && after[end].send_time
                == p.timestamp && after[end].payload_len == p.payload_len
            &&& (gone == end || before.contains_key(gone)) && !after.contains_key(gone)
                && after.contains_key(kept) ==> time(gone) <= time(kept)
        }),
{
    let before = m.state->Established_pending;
    let after = n.state->Established_pending;
    let held = choose|held: Map<u32, PendingSegment>| #[trigger]
        payload_recorded(before, p, held) && ack_taken(held, p, after, rtt);
    let full = before.insert(end, crate::flow::data_segment(p));
    assert(full.dom().len() == 1_001);
    assert(full.contains_key(gone) == (gone == end || before.contains_key(gone)));
}

/// A segment is acknowledged by a packet of the other end: one that acknowledges, with a number
/// that reaches the segment's end.
pub open spec fn meets(segment: PendingSegment, k: u32, p: Segment) -> bool {
    &&& segment.sender != p.src
    &&& p.flags.ack && p.ack > 0
    &&& p.ack >= k || (p.ack < 1_000 && k > 4_294_966_295)
}

/// A packet comes a believable time after a segment: more than ten microseconds, and less than
/// thirty seconds.
pub open spec fn in_time(segment: PendingSegment, p: Segment) -> bool {
    segment.send_time.nanos + 10_000 < p.timestamp.nanos < segment.send_time.nanos
        + 30_000_000_000
}

/// On an established connection a packet without payload yields a round trip just where it meets
/// a segment of the other end in time. The round trip leads back to the latest such segment. Then
/// all segments that it meets leave the record, and else none does.
pub proof fn acknowledgements_meet_their_segments(
    m: FlowModel,
    p: Segment,
    n: FlowModel,
    rtt: Option<Duration>,
    k: u32,
)
    requires
        m.state is Established,
        !p.flags.rst,
        !p.flags.fin,
        p.payload_len == 0,
        flow_step(m, p, n, rtt),
    ensures
        ({
            let before = m.state->Established_pending;
            let after = n.state->Established_pending;
            &&& n.state is Established
            &&& before.contains_key(k) && meets(before[k], k, p) && in_time(before[k], p) ==> rtt
                is Some && before[k].send_time.nanos + rtt->Some_0.nanos <= p.timestamp.nanos
            &&& rtt matches Some(d) ==> exists|l: u32| #[trigger]
                before.contains_key(l) && meets(before[l], l, p) && in_time(before[l], p)
                    && before[l].send_time.nanos + d.nanos == p.timestamp.nanos
            &&& after.contains_key(k) <==> before.contains_key(k) && !(rtt is Some && meets(
                before[k],
                k,
                p,
            ))
            &&& after.contains_key(k) ==> after[k] == before[k]
        }),
{
    let before = m.state->Established_pending;
    let after = n.state->Established_pending;
    let held = choose|held: Map<u32, PendingSegment>| #[trigger]
        payload_recorded(before, p, held) && ack_taken(held, p, after, rtt);
    assert(held == before);
    if before.contains_key(k) && meets(before[k], k, p) && in_time(before[k], p) {
        assert(answered(before, p.ack, p.src, p.timestamp, k));
    }
    if let Some(d) = rtt {
        let l = choose|l: u32| #[trigger]
            answered(before, p.ack, p.src, p.timestamp, l) && d == span_since(
                p.timestamp,
                before[l].send_time,
            );
        assert(before.contains_key(l) && meets(before[l], l, p) && in_time(before[l], p));
    }
    if p.flags.ack && p.ack > 0 && before.contains_key(k) {
        assert(acknowledged(before, p.ack, p.src, k) == meets(before[k], k, p));
    }
}

/// The two halves of a packet: its payload without the acknowledgement.
pub open spec fn payload_half(p: Segment) -> Segment {
    Segment { flags: TcpFlags { ack: false, ..p.flags }, ..p }
}

/// The two halves of a packet: its acknowledgement without the payload.
pub open spec fn acknowledgement_half(p: Segment) -> Segment {
    Segment { payload_len: 0, ..p }
}

/// On an established connection a packet with both payload and an acknowledgement does what its
/// payload alone and then its acknowledgement alone would do.
pub proof fn packets_act_as_payload_and_then_acknowledgement(
    m: FlowModel,
    p: Segment,
    n: FlowModel,
    rtt: Option<Duration>,
) -> (mid: (FlowModel, FlowModel))
    requires
        m.state is Established,
        !p.flags.rst,
        !p.flags.fin,
        flow_step(m, p, n, rtt),
    ensures
        flow_step(m, payload_half(p), mid.0, None),
        flow_step(mid.0, acknowledgement_half(p), mid.1, rtt),
        mid.1.state == n.state,
        mid.1.samples == n.samples,
{
    let before = m.state->Established_pending;
    let after = n.state->Established_pending;
    let held = choose|held: Map<u32, PendingSegment>| #[trigger]
        payload_recorded(before, p, held) && ack_taken(held, p, after, rtt);
    let first = FlowModel {
        state: StateModel::Established {
            initiator: m.state->Established_initiator,
            handshake_rtt: m.state->Established_handshake_rtt,
            pending: held,
        },
        last_activity: p.timestamp,
        packets: ((m.packets + 1) % 0x1_0000_0000_0000_0000) as u64,
        bytes: ((m.bytes + p.payload_len) % 0x1_0000_0000_0000_0000) as u64,
        ..m
    };
    let second = FlowModel {
        state: n.state,
        samples: n.samples,
        packets: ((first.packets + 1) % 0x1_0000_0000_0000_0000) as u64,
        ..first
    };
    assert(payload_recorded(before, payload_half(p), held));
    assert(ack_taken(held, payload_half(p), held, None));
    assert(data_step(before, payload_half(p), held, None));
    assert(payload_recorded(held, acknowledgement_half(p), held));
    assert(ack_taken(held, acknowledgement_half(p), after, rtt));
    assert(data_step(held, acknowledgement_half(p), after, rtt));
    (first, second)
}

/// Whatever payload a packet carries itself, it meets the segments of the other end as if it
/// carried none: while there is room on record, it yields the time since the latest segment that
/// it meets in time was first seen, and all that it meets leave the record.
pub proof fn payload_does_not_hide_an_acknowledgement(
    m: FlowModel,
    p: Segment,
    n: FlowModel,
    rtt: Option<Duration>,
    end: u32,
    k: u32,
)
    requires
        m.state is Established,
        m.state->Established_pending.dom().finite(),
        m.state->Established_pending.dom().len() < 1_000,
        !p.flags.rst,
        !p.flags.fin,
        end as int == (p.seq + p.payload_len) % 0x1_0000_0000,
        k != end || p.payload_len == 0,
        flow_step(m, p, n, rtt),
    ensures
        ({
            let before = m.state->Established_pending;
            let after = n.state->Established_pending;
            &&& before.contains_key(k) && meets(before[k], k, p) && in_time(before[k], p) ==> rtt
                is Some && before[k].send_time.nanos + rtt->Some_0.nanos <= p.timestamp.nanos
                && !after.contains_key(k)
            &&& rtt matches Some(d) ==> exists|l: u32| #[trigger]
                before.contains_key(l) && meets(before[l], l, p) && in_time(before[l], p)
                    && before[l].send_time.nanos + d.nanos == p.timestamp.nanos
            &&& after.contains_key(k) <==> before.contains_key(k) && !(rtt is Some && meets(
                before[k],
                k,
                p,
            ))
            &&& after.contains_key(k) ==> after[k] == before[k]
        }),
{
    let before = m.state->Established_pending;
    if p.payload_len == 0 {
        acknowledgements_meet_their_segments(m, p, n, rtt, k);
    } else {
        let (mid, last) = packets_act_as_payload_and_then_acknowledgement(m, p, n, rtt);
        let held = mid.state->Established_pending;
        let ack = acknowledgement_half(p);
        data_is_put_on_record(m, payload_half(p), mid, None, end, k);
        acknowledgements_meet_their_segments(mid, ack, last, rtt, k);
        if let Some(d) = rtt {
            let l = choose|l: u32| #[trigger]
                held.contains_key(l) && meets(held[l], l, ack) && in_time(held[l], ack)
                    && held[l].send_time.nanos + d.nanos == ack.timestamp.nanos;
            data_is_put_on_record(m, payload_half(p), mid, None, end, l);
            assert(l != end);
            assert(before.contains_key(l) && meets(before[l], l, p) && in_time(before[l], p));
        }
    }
}

/// With one unacknowledged segment of the other end on record, a packet that meets it in time
/// yields the time since that segment was first seen, whatever payload the packet carries, and
/// the segment leaves the record.
pub proof fn any_acknowledgement_yields_the_round_trip(
    m: FlowModel,
    k: u32,
    p: Segment,
    n: FlowModel,
    rtt: Option<Duration>,
)
    requires
        m.state is Established,
        m.state->Established_pending.dom() == Set::<u32>::empty().insert(k),
        (p.seq + p.payload_len) % 0x1_0000_0000 != k || p.payload_len == 0,
        !p.flags.rst,
        !p.flags.fin,
        meets(m.state->Established_pending[k], k, p),
        in_time(m.state->Established_pending[k], p),
        flow_step(m, p, n, rtt),
    ensures
        rtt is Some,
        m.state->Established_pending[k].send_time.nanos + rtt->Some_0.nanos == p.timestamp.nanos,
        n.samples == m.samples.push(rtt->Some_0),
        !n.state->Established_pending.contains_key(k),
{
    let before = m.state->Established_pending;
    assert(before.contains_key(k));
    let end = ((p.seq + p.payload_len) % 0x1_0000_0000) as u32;
    payload_does_not_hide_an_acknowledgement(m, p, n, rtt, end, k);
    let d = rtt->Some_0;
    let l = choose|l: u32| #[trigger]
        before.contains_key(l) && meets(before[l], l, p) && in_time(before[l], p)
            && before[l].send_time.nanos + d.nanos == p.timestamp.nanos;
    assert(before.dom().contains(l));
}

/// What a state stands for is the same state, with the same contents.
pub proof fn states_stand_for_themselves(s: FlowState)
    ensures
        match s {
            FlowState::SynSent { initiator, syn_time, syn_seq } => s@ == (StateModel::SynSent {
                initiator,
                syn_time,
                syn_seq,
            }),
            FlowState::SynAckReceived { initiator, syn_time, syn_ack_time, syn_ack_seq } => s@ == (
            StateModel::SynAckReceived { initiator, syn_time, syn_ack_time, syn_ack_seq }),
            FlowState::Established { initiator, handshake_rtt, pending_data } => {
                &&& s@ is Established
                &&& s@->Established_initiator == initiator
                &&& s@->Established_handshake_rtt == handshake_rtt
                &&& s@->Established_pending == pending_data@
            },
            FlowState::Closing => s@ is Closing,
            FlowState::Closed => s@ is Closed,
        },
{
}

/// What a flow stands for has the fields of the flow.
pub proof fn flows_stand_for_their_fields(f: TrackedFlow)
    ensures
        f@.key == f.key,
        f@.initiator == f.initiator,
        f@.state == f.state@,
        f@.samples == f.rtt_samples@,
        f@.last_activity == f.last_activity,
        f@.packets == f.packets_seen,
        f@.bytes == f.bytes_seen,
{
}

/// A flow in order was opened by one of its ends, keeps no more than a thousand segments, each
/// of them with data and under its own end, and has its handshake as the first sample.
pub proof fn flows_in_order(m: FlowModel, k: u32, i: int)
    requires
        flow_ok(m),
    ensures
        m.initiator == m.key.addr_a || m.initiator == m.key.addr_b,
        m.state is Established ==> m.state->Established_pending.dom().len() <= 1_000,
        m.state is Established && m.state->Established_pending.contains_key(k)
            ==> m.state->Established_pending[k].seq_end == k
            && m.state->Established_pending[k].payload_len > 0,
        m.state is Established ==> m.state->Established_initiator == m.initiator && m.samples.len()
            > 0 && m.samples[0] == m.state->Established_handshake_rtt,
        m.state is SynSent ==> m.samples.len() == 0,
        m.state is SynAckReceived ==> m.samples.len() == 1,
        1 <= i < m.samples.len() ==> 10_000 < m.samples[i].nanos < 30_000_000_000,
{
}

/// A flow is active from its last packet on for as long as the timeout, unless it is closed.
pub proof fn flows_stay_active_for_the_timeout(m: FlowModel, now: Instant, timeout: Duration)
    ensures
        flow_active(m, now, timeout) <==> !(m.state is Closed) && timeout.nanos > 0 && now.nanos
            < m.last_activity.nanos + timeout.nanos,
{
}

/// The handshake's round trip is known of established connections, and of no others.
pub proof fn established_connections_know_their_handshake(m: FlowModel)
    ensures
        handshake_rtt_of(m) is Some <==> m.state is Established,
        m.state is Established ==> handshake_rtt_of(m)->Some_0
            == m.state->Established_handshake_rtt,
{
}

} // verus!

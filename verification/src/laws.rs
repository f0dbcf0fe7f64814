//! What holds of keys, flows, the table of flows and the statistics, across several packets and
//! calls.

use vstd::multiset::Multiset;
use vstd::prelude::*;

use crate::addr::{addresses_are_totally_ordered, SocketAddr};
use crate::flow::{
    ack_taken, data_samples, data_segment, flow_active, flow_ok, flow_stays_ok, flow_step, fresh_flow,
    handshake_rtt_of, payload_recorded, FlowKey, FlowModel, Segment, StateModel,
    TcpFlags,
};
use crate::capture::replay_time;
use crate::histogram::{
    bin_ceiling, bin_floor, bins_are_ordered, bins_hold_their_values, bins_keep_three_digits,
    count_at_most, count_below, is_asked_for, is_greatest, is_least, percentile_of, splits_at, tops_a_bin,
    HISTOGRAM_TOP, SPLIT_LIMIT,
};
use crate::monitor::{
    completion, lists_stats, packet_told, packets_told, stats_keys, MonitorModel,
};
use crate::packet::TcpPacketInfo;
use crate::pending::{
    acknowledged, answered, covers, plausible, unacknowledged, PendingSegment, PENDING_LIMIT,
};
use crate::stats::{
    greatest, least, lemma_usable_values, micros, percentiles_split, stats_of_flow, stats_of_samples, stats_of_values,
    usable_micros, usable_values, FlowStats,
};
use crate::time::{span_since, Duration, Instant};
use crate::tracker::{
    active_only, keys_are_totally_ordered, leaves_place, limit_of, packet_taken, packets_taken,
    room_for_syn, tracker_ok, tracker_step, within_limit, TrackerModel,
};

verus! {

/// The key of a flow is the same for both directions, and it holds the two ends, the lower one
/// first.
pub proof fn key_ignores_direction(a: SocketAddr, b: SocketAddr)
    ensures
        FlowKey::between(a, b) == FlowKey::between(b, a),
        !FlowKey::between(a, b).addr_b.precedes(FlowKey::between(a, b).addr_a),
        FlowKey::between(a, b) == (FlowKey { addr_a: a, addr_b: b }) || FlowKey::between(a, b) == (
        FlowKey { addr_a: b, addr_b: a }),
{
    addresses_are_totally_ordered(a, b, a);
}

/// Two pairs of ends have the same key only if they are the same ends.
pub proof fn key_tells_flows_apart(a: SocketAddr, b: SocketAddr, c: SocketAddr, d: SocketAddr)
    requires
        FlowKey::between(a, b) == FlowKey::between(c, d),
    ensures
        (a == c && b == d) || (a == d && b == c),
{
}

/// A packet is at most one of these: a SYN, the answer to one, a pure acknowledgement.
pub proof fn packet_kinds_exclude_one_another(flags: TcpFlags)
    ensures
        !(flags.opens() && flags.answers_syn()),
        !(flags.opens() && flags.only_acks()),
        !(flags.answers_syn() && flags.only_acks()),
{
}

/// The handshake round trip is the time from the SYN to the SYN-ACK. It is known once the
/// initiator has acknowledged, however long that took, and it is the first sample.
pub proof fn handshake_takes_from_syn_to_syn_ack(
    key: FlowKey,
    initiator: SocketAddr,
    syn_time: Instant,
    syn_seq: u32,
    syn_ack: Segment,
    answered: FlowModel,
    first: Option<Duration>,
    ack: Segment,
    established: FlowModel,
    second: Option<Duration>,
)
    requires
        syn_ack.flags.answers_syn(),
        syn_ack.src != initiator,
        ack.flags.only_acks(),
        ack.src == initiator,
        flow_step(fresh_flow(key, initiator, syn_time, syn_seq), syn_ack, answered, first),
        flow_step(answered, ack, established, second),
    ensures
        first == Some(span_since(syn_ack.timestamp, syn_time)),
        second is None,
        established.samples == seq![span_since(syn_ack.timestamp, syn_time)],
        handshake_rtt_of(established) == Some(span_since(syn_ack.timestamp, syn_time)),
        established.state->Established_pending == Map::<u32, PendingSegment>::empty(),
{
}

/// While a connection stays established, its handshake round trip does not change.
pub proof fn handshake_stays(m: FlowModel, p: Segment, n: FlowModel, rtt: Option<Duration>)
    requires
        m.state is Established,
        n.state is Established,
        flow_step(m, p, n, rtt),
    ensures
        handshake_rtt_of(n) == handshake_rtt_of(m),
{
}

/// A data packet on an established connection with nothing unacknowledged leaves its segment
/// on record and yields nothing.
pub proof fn data_goes_on_record(
    m: FlowModel,
    data: Segment,
    n: FlowModel,
    rtt: Option<Duration>,
)
    requires
        m.state is Established,
        m.state->Established_pending == Map::<u32, PendingSegment>::empty(),
        data.payload_len > 0,
        !data.flags.rst,
        !data.flags.fin,
        flow_step(m, data, n, rtt),
    ensures
        rtt is None,
        n.state is Established,
        n.state->Established_pending == Map::<u32, PendingSegment>::empty().insert(
            data_segment(data).seq_end,
            data_segment(data),
        ),
{
    let before = m.state->Established_pending;
    let after = n.state->Established_pending;
    let held = choose|held: Map<u32, PendingSegment>| #[trigger]
        payload_recorded(before, data, held) && ack_taken(held, data, after, rtt);
    let segment = data_segment(data);
    assert(held == before.insert(segment.seq_end, segment));
}

/// Sending the only unacknowledged segment again changes nothing on record: the first
/// transmission stands.
pub proof fn retransmission_changes_nothing(
    m: FlowModel,
    segment: PendingSegment,
    again: Segment,
    n: FlowModel,
    rtt: Option<Duration>,
)
    requires
        m.state is Established,
        m.state->Established_pending == Map::<u32, PendingSegment>::empty().insert(
            segment.seq_end,
            segment,
        ),
        again.src == segment.sender,
        again.payload_len > 0,
        data_segment(again).seq_end == segment.seq_end,
        !again.flags.rst,
        !again.flags.fin,
        flow_step(m, again, n, rtt),
    ensures
        rtt is None,
        n.state == m.state,
        n.samples == m.samples,
{
    let before = m.state->Established_pending;
    let after = n.state->Established_pending;
    let held = choose|held: Map<u32, PendingSegment>| #[trigger]
        payload_recorded(before, again, held) && ack_taken(held, again, after, rtt);
    assert(before.dom() =~= set![segment.seq_end]);
    assert(held == before);
    assert(rtt is None);
}

/// The other end's acknowledgement of the only unacknowledged segment yields the time since that segment
/// was first seen, if that is plausible, and takes it off the record.
pub proof fn acknowledgement_yields_round_trip(
    m: FlowModel,
    segment: PendingSegment,
    ack: Segment,
    n: FlowModel,
    rtt: Option<Duration>,
)
    requires
        m.state is Established,
        m.state->Established_pending == Map::<u32, PendingSegment>::empty().insert(
            segment.seq_end,
            segment,
        ),
        ack.src != segment.sender,
        ack.payload_len == 0,
        ack.flags.only_acks(),
        ack.ack > 0,
        covers(ack.ack, segment.seq_end),
        plausible(span_since(ack.timestamp, segment.send_time)),
        flow_step(m, ack, n, rtt),
    ensures
        rtt == Some(span_since(ack.timestamp, segment.send_time)),
        n.state is Established,
        n.state->Established_pending == Map::<u32, PendingSegment>::empty(),
        n.samples == m.samples.push(span_since(ack.timestamp, segment.send_time)),
{
    let before = m.state->Established_pending;
    let after = n.state->Established_pending;
    let held = choose|held: Map<u32, PendingSegment>| #[trigger]
        payload_recorded(before, ack, held) && ack_taken(held, ack, after, rtt);
    assert(held == before);
    assert(answered(before, ack.ack, ack.src, ack.timestamp, segment.seq_end));
    assert(rtt is Some);
    assert(after =~= Map::<u32, PendingSegment>::empty());
}

/// A data round trip is the time from the data segment to the acknowledgement of the other end
/// that covers it, and a retransmission in between does not count.
pub proof fn data_round_trip_takes_from_first_transmission(
    quiet: FlowModel,
    data: Segment,
    sent: FlowModel,
    first: Option<Duration>,
    again: Segment,
    resent: FlowModel,
    second: Option<Duration>,
    ack: Segment,
    done: FlowModel,
    third: Option<Duration>,
)
    requires
        quiet.state is Established,
        quiet.state->Established_pending == Map::<u32, PendingSegment>::empty(),
        data.payload_len > 0,
        !data.flags.rst && !data.flags.fin,
        again.src == data.src,
        again.payload_len > 0,
        data_segment(again).seq_end == data_segment(data).seq_end,
        !again.flags.rst && !again.flags.fin,
        ack.src != data.src,
        ack.payload_len == 0,
        ack.flags.only_acks(),
        ack.ack > 0,
        covers(ack.ack, data_segment(data).seq_end),
        plausible(span_since(ack.timestamp, data.timestamp)),
        flow_step(quiet, data, sent, first),
        flow_step(sent, again, resent, second),
        flow_step(resent, ack, done, third),
    ensures
        first is None && second is None,
        third == Some(span_since(ack.timestamp, data.timestamp)),
        done.samples == quiet.samples.push(span_since(ack.timestamp, data.timestamp)),
{
    data_goes_on_record(quiet, data, sent, first);
    retransmission_changes_nothing(sent, data_segment(data), again, resent, second);
    acknowledgement_yields_round_trip(resent, data_segment(data), ack, done, third);
}

/// Acknowledgements without data yield nothing while nothing is unacknowledged, and leave it so.
pub proof fn acknowledgements_alone_yield_nothing(
    m: FlowModel,
    ack: Segment,
    n: FlowModel,
    rtt: Option<Duration>,
)
    requires
        m.state is Established,
        m.state->Established_pending == Map::<u32, PendingSegment>::empty(),
        ack.payload_len == 0,
        ack.flags.only_acks(),
        flow_step(m, ack, n, rtt),
    ensures
        rtt is None,
        n.state == m.state,
        n.samples == m.samples,
{
    let before = m.state->Established_pending;
    let after = n.state->Established_pending;
    let held = choose|held: Map<u32, PendingSegment>| #[trigger]
        payload_recorded(before, ack, held) && ack_taken(held, ack, after, rtt);
    assert(held == before);
    assert(rtt is None);
}

/// An acknowledgement that covers no segment on record, such as a duplicate, changes nothing on
/// record and yields nothing.
pub proof fn duplicate_acknowledgement_changes_nothing(
    m: FlowModel,
    ack: Segment,
    n: FlowModel,
    rtt: Option<Duration>,
)
    requires
        m.state is Established,
        ack.payload_len == 0,
        ack.flags.only_acks(),
        forall|k: u32| #[trigger]
            m.state->Established_pending.contains_key(k) ==> !covers(ack.ack, k),
        flow_step(m, ack, n, rtt),
    ensures
        rtt is None,
        n.state == m.state,
        n.samples == m.samples,
{
    let before = m.state->Established_pending;
    let after = n.state->Established_pending;
    let held = choose|held: Map<u32, PendingSegment>| #[trigger]
        payload_recorded(before, ack, held) && ack_taken(held, ack, after, rtt);
    assert(held == before);
    assert(rtt is None);
}

/// Nobody acknowledges their own data: while all data on record is of one end, no packet of that
/// end yields a round trip or takes data off the record, unless the record overflows.
pub proof fn senders_do_not_acknowledge_themselves(
    m: FlowModel,
    p: Segment,
    n: FlowModel,
    rtt: Option<Duration>,
    k: u32,
)
    requires
        m.state is Established,
        m.state->Established_pending.dom().len() < PENDING_LIMIT,
        m.state->Established_pending.dom().finite(),
        forall|l: u32| #[trigger]
            m.state->Established_pending.contains_key(l)
                ==> m.state->Established_pending[l].sender == p.src,
        !p.flags.rst,
        !p.flags.fin,
        flow_step(m, p, n, rtt),
    ensures
        rtt is None,
        n.samples == m.samples,
        n.state is Established,
        m.state->Established_pending.contains_key(k)
            ==> n.state->Established_pending.contains_key(k) && n.state->Established_pending[k]
            == m.state->Established_pending[k],
{
    let before = m.state->Established_pending;
    let after = n.state->Established_pending;
    let held = choose|held: Map<u32, PendingSegment>| #[trigger]
        payload_recorded(before, p, held) && ack_taken(held, p, after, rtt);
    assert(forall|l: u32| #[trigger] held.contains_key(l) ==> held[l].sender == p.src);
    assert(rtt is None);
}

/// An acknowledgement that yields a round trip takes all that it acknowledges off the record: the
/// same acknowledgement again, however late, yields nothing and changes nothing on record.
pub proof fn repeated_acknowledgement_yields_nothing(
    m: FlowModel,
    ack: Segment,
    n: FlowModel,
    first: Option<Duration>,
    again: Segment,
    o: FlowModel,
    second: Option<Duration>,
)
    requires
        m.state is Established,
        ack.payload_len == 0,
        ack.flags.only_acks(),
        again.src == ack.src,
        again.ack == ack.ack,
        again.payload_len == 0,
        again.flags.only_acks(),
        flow_step(m, ack, n, first),
        flow_step(n, again, o, second),
        first is Some,
    ensures
        second is None,
        o.state == n.state,
        o.samples == n.samples,
{
    let before = m.state->Established_pending;
    let between = n.state->Established_pending;
    let after = o.state->Established_pending;
    let held = choose|held: Map<u32, PendingSegment>| #[trigger]
        payload_recorded(before, ack, held) && ack_taken(held, ack, between, first);
    assert(between == unacknowledged(held, ack.ack, ack.src));
    let then = choose|then: Map<u32, PendingSegment>| #[trigger]
        payload_recorded(between, again, then) && ack_taken(then, again, after, second);
    assert(then == between);
    assert forall|k: u32| !#[trigger] answered(
        between,
        again.ack,
        again.src,
        again.timestamp,
        k,
    ) by {
        assert(between.contains_key(k) ==> !acknowledged(held, ack.ack, ack.src, k));
    }
    assert(second is None);
}

/// A round trip that a packet yields on an established connection is plausible: more than ten
/// microseconds, less than thirty seconds.
pub proof fn data_round_trips_are_plausible(
    m: FlowModel,
    p: Segment,
    n: FlowModel,
    rtt: Option<Duration>,
)
    requires
        m.state is Established,
        flow_step(m, p, n, rtt),
    ensures
        rtt matches Some(d) ==> plausible(d),
{
}

/// What a flow has measured stays: the samples before a packet begin the samples after it, and
/// there is at most one more, which is what the packet yields.
pub proof fn samples_only_grow(m: FlowModel, p: Segment, n: FlowModel, rtt: Option<Duration>)
    requires
        flow_step(m, p, n, rtt),
    ensures
        m.samples.is_prefix_of(n.samples),
        n.samples.len() == m.samples.len() + if rtt is Some {
            1int
        } else {
            0
        },
        rtt matches Some(d) ==> n.samples.last() == d,
{
    assert(n.samples.take(m.samples.len() as int) =~= m.samples);
}

/// A reset or FIN ends an established connection, and a reset ends a handshake; neither yields
/// a round trip.
pub proof fn reset_ends_connection(m: FlowModel, p: Segment, n: FlowModel, rtt: Option<Duration>)
    requires
        flow_step(m, p, n, rtt),
        m.state is Established && (p.flags.rst || p.flags.fin) || m.state is SynAckReceived
            && p.flags.rst || m.state is SynSent && p.flags.rst && !p.flags.answers_syn(),
    ensures
        n.state is Closing,
        rtt is None,
{
}

/// A flow that is closing or closed is never established again, measures nothing more, and once
/// closed stays closed.
pub proof fn closing_is_for_good(m: FlowModel, p: Segment, n: FlowModel, rtt: Option<Duration>)
    requires
        m.state is Closing || m.state is Closed,
        flow_step(m, p, n, rtt),
    ensures
        n.state is Closing || n.state is Closed,
        m.state is Closed ==> n.state is Closed,
        rtt is None,
        n.samples == m.samples,
{
}

/// A closed flow is not active, and neither is one that has been silent for the timeout.
pub proof fn silent_flows_expire(m: FlowModel, now: Instant, timeout: Duration)
    ensures
        m.state is Closed ==> !flow_active(m, now, timeout),
        now.nanos >= m.last_activity.nanos + timeout.nanos ==> !flow_active(m, now, timeout),
        !(m.state is Closed) && now.nanos < m.last_activity.nanos + timeout.nanos && timeout.nanos
            > 0 ==> flow_active(m, now, timeout),
{
}

/// The packets, one after the other, take a flow from `m` to `n`.
pub open spec fn flow_run(m: FlowModel, packets: Seq<Segment>, n: FlowModel) -> bool
    decreases packets.len(),
{
    if packets.len() == 0 {
        n == m
    } else {
        exists|mid: FlowModel, rtt: Option<Duration>|
            flow_run(m, packets.drop_last(), mid) && #[trigger] flow_step(
                mid,
                packets.last(),
                n,
                rtt,
            )
    }
}

/// The payload bytes of some packets together.
pub open spec fn payload_total(packets: Seq<Segment>) -> nat
    decreases packets.len(),
{
    if packets.len() == 0 {
        0
    } else {
        payload_total(packets.drop_last()) + packets.last().payload_len as nat
    }
}

/// A flow counts every packet and every byte of payload, the SYN that opened it among them. The
/// counters wrap around.
pub proof fn counters_count_everything(
    key: FlowKey,
    initiator: SocketAddr,
    syn_time: Instant,
    syn_seq: u32,
    packets: Seq<Segment>,
    n: FlowModel,
)
    requires
        flow_run(fresh_flow(key, initiator, syn_time, syn_seq), packets, n),
    ensures
        n.key == key,
        n.packets == (1 + packets.len()) % 0x1_0000_0000_0000_0000,
        n.bytes == payload_total(packets) % 0x1_0000_0000_0000_0000,
    decreases packets.len(),
{
    let m = fresh_flow(key, initiator, syn_time, syn_seq);
    if packets.len() > 0 {
        let (mid, rtt) = choose|mid: FlowModel, rtt: Option<Duration>|
            flow_run(m, packets.drop_last(), mid) && #[trigger] flow_step(
                mid,
                packets.last(),
                n,
                rtt,
            );
        counters_count_everything(key, initiator, syn_time, syn_seq, packets.drop_last(), mid);
    }
}

/// A packet that opens no connection touches no flow but its own: it is the same table but for
/// that flow, and the same table altogether where the flow is not tracked.
pub proof fn packets_touch_their_own_flow_only(
    t: TrackerModel,
    p: TcpPacketInfo,
    u: TrackerModel,
    r: Option<(FlowKey, Duration)>,
    other: FlowKey,
)
    requires
        tracker_step(t, p, u, r),
        !p.flags.opens(),
    ensures
        u.flows.dom() == t.flows.dom(),
        other != FlowKey::between(p.src, p.dst) && t.flows.contains_key(other) ==> u.flows[other]
            == t.flows[other],
        !t.flows.contains_key(FlowKey::between(p.src, p.dst)) ==> u == t && r is None,
{
    assert(u.flows.dom() =~= t.flows.dom());
}

/// A round trip is told with the key of the packet's flow, for either direction, and is that
/// flow's latest sample.
pub proof fn round_trips_belong_to_their_flow(
    t: TrackerModel,
    p: TcpPacketInfo,
    u: TrackerModel,
    r: Option<(FlowKey, Duration)>,
)
    requires
        tracker_step(t, p, u, r),
    ensures
        r matches Some((k, d)) ==> k == FlowKey::between(p.src, p.dst) && k == FlowKey::between(
            p.dst,
            p.src,
        ) && u.flows.contains_key(k) && u.flows[k].samples.last() == d,
{
    key_ignores_direction(p.src, p.dst);
}

/// A SYN leaves its flow tracked, fresh and opened by its sender, and adds at most one flow to
/// the table. Sent again, with room in the table, it adds none.
pub proof fn syn_starts_one_flow(
    t: TrackerModel,
    p: TcpPacketInfo,
    u: TrackerModel,
    r: Option<(FlowKey, Duration)>,
)
    requires
        t.flows.dom().finite(),
        tracker_step(t, p, u, r),
        p.flags.opens(),
    ensures
        ({
            let key = FlowKey::between(p.src, p.dst);
            &&& u.flows.contains_key(key)
            &&& u.flows[key] == fresh_flow(key, p.src, p.timestamp, p.seq)
            &&& u.flows.len() <= t.flows.len() + 1
            &&& t.flows.contains_key(key) && t.flows.len() < t.max_flows ==> u.flows.dom()
                == t.flows.dom()
        }),
{
    let key = FlowKey::between(p.src, p.dst);
    let kept = lemma_kept(t, p, u, r);
    vstd::set_lib::lemma_len_subset(kept.dom(), t.flows.dom());
    if t.flows.contains_key(key) {
        assert(t.flows.dom().insert(key) =~= t.flows.dom());
        assert(t.flows.remove(key).len() < t.flows.len());
    }
}

/// What a SYN leaves of the table for its flow to be added to.
proof fn lemma_kept(
    t: TrackerModel,
    p: TcpPacketInfo,
    u: TrackerModel,
    r: Option<(FlowKey, Duration)>,
) -> (kept: Map<FlowKey, FlowModel>)
    requires
        t.flows.dom().finite(),
        tracker_step(t, p, u, r),
        p.flags.opens(),
    ensures
        ({
            let key = FlowKey::between(p.src, p.dst);
            let room = room_for_syn(t, p.timestamp);
            &&& room.dom().subset_of(t.flows.dom())
            &&& room.dom().finite()
            &&& kept.dom().subset_of(t.flows.dom())
            &&& kept.dom().finite()
            &&& leaves_place(room, key, limit_of(t), kept)
            &&& u.flows == kept.insert(key, fresh_flow(key, p.src, p.timestamp, p.seq))
        }),
{
    let key = FlowKey::between(p.src, p.dst);
    let room = room_for_syn(t, p.timestamp);
    let kept = choose|kept: Map<FlowKey, FlowModel>| #[trigger]
        leaves_place(room, key, limit_of(t), kept) && u.flows == kept.insert(
            key,
            fresh_flow(key, p.src, p.timestamp, p.seq),
        );
    assert(room.dom().subset_of(t.flows.dom()));
    vstd::set_lib::lemma_len_subset(room.dom(), t.flows.dom());
    assert forall|k: FlowKey| kept.dom().contains(k) implies t.flows.dom().contains(k) by {
        assert(kept.contains_key(k));
    }
    vstd::set_lib::lemma_len_subset(kept.dom(), t.flows.dom());
    kept
}

/// A table within its limit stays within it whatever packet comes: at most as many flows are
/// tracked at once as the limit says, and one where the limit is zero.
pub proof fn table_stays_within_limit(
    t: TrackerModel,
    p: TcpPacketInfo,
    u: TrackerModel,
    r: Option<(FlowKey, Duration)>,
)
    requires
        tracker_ok(t),
        within_limit(t),
        tracker_step(t, p, u, r),
    ensures
        within_limit(u),
        u.max_flows >= 1 ==> u.flows.len() <= u.max_flows,
{
    let key = FlowKey::between(p.src, p.dst);
    if p.flags.opens() {
        let kept = lemma_kept(t, p, u, r);
        let room = room_for_syn(t, p.timestamp);
        assert(kept.remove(key).len() < limit_of(t));
        assert(u.flows.dom() =~= kept.remove(key).dom().insert(key));
    } else {
        packets_touch_their_own_flow_only(t, p, u, r, key);
    }
}

/// A table within its limit stays within it whatever packets come.
pub proof fn table_stays_within_limit_forever(
    t: TrackerModel,
    packets: Seq<TcpPacketInfo>,
    u: TrackerModel,
)
    requires
        tracker_ok(t),
        within_limit(t),
        packets_taken(t, packets, u),
    ensures
        within_limit(u),
        u.max_flows >= 1 ==> u.flows.len() <= u.max_flows,
    decreases packets.len(),
{
    if packets.len() > 0 {
        let mid = choose|mid: TrackerModel|
            packets_taken(t, packets.drop_last(), mid) && #[trigger] packet_taken(
                mid,
                packets.last(),
                u,
            );
        table_stays_within_limit_forever(t, packets.drop_last(), mid);
        tracker_stays_ok_forever(t, packets.drop_last(), mid);
        let r = choose|r: Option<(FlowKey, Duration)>| #[trigger]
            tracker_step(mid, packets.last(), u, r);
        table_stays_within_limit(mid, packets.last(), u, r);
    }
}

/// A SYN that finds the table full makes room: every flow but its own that stays is active and
/// stays as it is, and an active one goes only where the active ones fill the table, and before
/// all that were active later.
pub proof fn full_table_makes_room(
    t: TrackerModel,
    p: TcpPacketInfo,
    u: TrackerModel,
    r: Option<(FlowKey, Duration)>,
    other: FlowKey,
    third: FlowKey,
)
    requires
        t.flows.dom().finite(),
        tracker_step(t, p, u, r),
        p.flags.opens(),
        t.flows.len() >= t.max_flows,
        other != FlowKey::between(p.src, p.dst),
        third != FlowKey::between(p.src, p.dst),
    ensures
        ({
            let key = FlowKey::between(p.src, p.dst);
            let active = active_only(t.flows, p.timestamp, t.flow_timeout);
            &&& u.flows.contains_key(other) ==> active.contains_key(other) && u.flows[other]
                == t.flows[other]
            &&& active.remove(key).len() < limit_of(t) && active.contains_key(other)
                ==> u.flows.contains_key(other)
            &&& active.contains_key(other) && !u.flows.contains_key(other) && u.flows.contains_key(
                third,
            ) ==> t.flows[other].last_activity.nanos <= t.flows[third].last_activity.nanos
        }),
{
    let kept = lemma_kept(t, p, u, r);
    let room = room_for_syn(t, p.timestamp);
    assert(room.contains_key(other) == active_only(
        t.flows,
        p.timestamp,
        t.flow_timeout,
    ).contains_key(other));
    assert(kept.contains_key(other) == u.flows.contains_key(other));
    assert(kept.contains_key(third) == u.flows.contains_key(third));
}

/// A SYN that finds room in the table drops no flow: every other flow stays as it is.
pub proof fn syn_with_room_drops_nothing(
    t: TrackerModel,
    p: TcpPacketInfo,
    u: TrackerModel,
    r: Option<(FlowKey, Duration)>,
    other: FlowKey,
)
    requires
        t.flows.dom().finite(),
        tracker_step(t, p, u, r),
        p.flags.opens(),
        t.flows.len() < t.max_flows,
        other != FlowKey::between(p.src, p.dst),
    ensures
        u.flows.contains_key(other) == t.flows.contains_key(other),
        u.flows.contains_key(other) ==> u.flows[other] == t.flows[other],
{
    let key = FlowKey::between(p.src, p.dst);
    let kept = lemma_kept(t, p, u, r);
    assert(t.flows.remove(key).dom().subset_of(t.flows.dom()));
    vstd::set_lib::lemma_len_subset(t.flows.remove(key).dom(), t.flows.dom());
}

/// Dropping inactive flows keeps every active one, and doing so twice at one time is doing it
/// once.
pub proof fn cleanup_keeps_active_flows(
    flows: Map<FlowKey, FlowModel>,
    now: Instant,
    timeout: Duration,
    k: FlowKey,
)
    ensures
        active_only(flows, now, timeout).contains_key(k) <==> flows.contains_key(k) && flow_active(
            flows[k],
            now,
            timeout,
        ),
        active_only(flows, now, timeout).contains_key(k) ==> active_only(flows, now, timeout)[k]
            == flows[k],
        active_only(active_only(flows, now, timeout), now, timeout) == active_only(
            flows,
            now,
            timeout,
        ),
{
    let once = active_only(flows, now, timeout);
    assert(active_only(once, now, timeout) =~= once);
}

/// A table in order stays in order whatever packet comes, and the limits do not change.
pub proof fn tracker_stays_ok(
    t: TrackerModel,
    p: TcpPacketInfo,
    u: TrackerModel,
    r: Option<(FlowKey, Duration)>,
)
    requires
        tracker_ok(t),
        tracker_step(t, p, u, r),
    ensures
        tracker_ok(u),
        u.flow_timeout == t.flow_timeout,
        u.max_flows == t.max_flows,
{
    let key = FlowKey::between(p.src, p.dst);
    key_ignores_direction(p.src, p.dst);
    if p.flags.opens() {
        let kept = lemma_kept(t, p, u, r);
        assert forall|k: FlowKey| #[trigger] u.flows.contains_key(k) implies u.flows[k].key == k
            && flow_ok(u.flows[k]) by {
            if k != key {
                assert(kept.contains_key(k));
                assert(t.flows.contains_key(k));
            }
        }
    }
    if !p.flags.opens() && t.flows.contains_key(key) {
        let rtt = match r {
            Some((_, d)) => Some(d),
            None => None,
        };
        flow_stays_ok(t.flows[key], p.segment(), u.flows[key], rtt);
    }
}

/// A table in order stays in order whatever packets come, and the limits do not change.
pub proof fn tracker_stays_ok_forever(
    t: TrackerModel,
    packets: Seq<TcpPacketInfo>,
    u: TrackerModel,
)
    requires
        tracker_ok(t),
        packets_taken(t, packets, u),
    ensures
        tracker_ok(u),
        u.flow_timeout == t.flow_timeout,
        u.max_flows == t.max_flows,
    decreases packets.len(),
{
    if packets.len() > 0 {
        let mid = choose|mid: TrackerModel|
            packets_taken(t, packets.drop_last(), mid) && #[trigger] packet_taken(
                mid,
                packets.last(),
                u,
            );
        tracker_stays_ok_forever(t, packets.drop_last(), mid);
        let r = choose|r: Option<(FlowKey, Duration)>| #[trigger]
            tracker_step(mid, packets.last(), u, r);
        tracker_stays_ok(mid, packets.last(), u, r);
    }
}

/// However many packets come, the table grows by no more flows than there were SYNs among them.
pub proof fn only_syns_add_flows(t: TrackerModel, packets: Seq<TcpPacketInfo>, u: TrackerModel)
    requires
        tracker_ok(t),
        packets_taken(t, packets, u),
    ensures
        u.flows.len() <= t.flows.len() + packets.filter(|p: TcpPacketInfo| p.flags.opens()).len(),
    decreases packets.len(),
{
    let opens = |p: TcpPacketInfo| p.flags.opens();
    if packets.len() > 0 {
        let mid = choose|mid: TrackerModel|
            packets_taken(t, packets.drop_last(), mid) && #[trigger] packet_taken(
                mid,
                packets.last(),
                u,
            );
        only_syns_add_flows(t, packets.drop_last(), mid);
        tracker_stays_ok_forever(t, packets.drop_last(), mid);
        let r = choose|r: Option<(FlowKey, Duration)>| #[trigger]
            tracker_step(mid, packets.last(), u, r);
        reveal(Seq::filter);
        if packets.last().flags.opens() {
            syn_starts_one_flow(mid, packets.last(), u, r);
        } else {
            packets_touch_their_own_flow_only(
                mid,
                packets.last(),
                u,
                r,
                FlowKey::between(packets.last().src, packets.last().dst),
            );
        }
    }
}

/// A handshake between two ends, seen packet by packet, is tracked whatever the table held: the
/// SYN-ACK yields the round trip since the SYN, and after the initiator's acknowledgement the
/// flow is established with it, and its statistics run from the initiator to the responder and
/// have no data yet.
pub proof fn handshake_is_tracked(
    before: TrackerModel,
    syn: TcpPacketInfo,
    opened: TrackerModel,
    first: Option<(FlowKey, Duration)>,
    syn_ack: TcpPacketInfo,
    answered: TrackerModel,
    second: Option<(FlowKey, Duration)>,
    ack: TcpPacketInfo,
    established: TrackerModel,
    third: Option<(FlowKey, Duration)>,
)
    requires
        syn.src != syn.dst,
        syn.flags.opens(),
        syn_ack.src == syn.dst && syn_ack.dst == syn.src,
        syn_ack.flags.answers_syn(),
        ack.src == syn.src && ack.dst == syn.dst,
        ack.flags.only_acks(),
        tracker_step(before, syn, opened, first),
        tracker_step(opened, syn_ack, answered, second),
        tracker_step(answered, ack, established, third),
    ensures
        ({
            let key = FlowKey::between(syn.src, syn.dst);
            let rtt = span_since(syn_ack.timestamp, syn.timestamp);
            let flow = established.flows[key];
            &&& first is None
            &&& second == Some((key, rtt))
            &&& third is None
            &&& established.flows.contains_key(key)
            &&& flow.state is Established
            &&& handshake_rtt_of(flow) == Some(rtt)
            &&& flow.samples == seq![rtt]
            &&& stats_of_flow(flow).src == syn.src
            &&& stats_of_flow(flow).dst == syn.dst
            &&& stats_of_flow(flow).handshake_rtt == Some(rtt)
            &&& stats_of_flow(flow).rtt is None
        }),
{
    key_ignores_direction(syn.src, syn.dst);
    addresses_are_totally_ordered(syn.src, syn.dst, syn.src);
}

/// The statistics of a flow run from the end that opened the connection to the other one,
/// whatever has become of the connection since.
pub proof fn stats_run_from_initiator_to_responder(
    key: FlowKey,
    initiator: SocketAddr,
    syn_time: Instant,
    syn_seq: u32,
    packets: Seq<Segment>,
    n: FlowModel,
)
    requires
        initiator == key.addr_a || initiator == key.addr_b,
        flow_run(fresh_flow(key, initiator, syn_time, syn_seq), packets, n),
    ensures
        flow_ok(n),
        stats_of_flow(n).src == initiator,
        stats_of_flow(n).dst == if initiator == key.addr_a {
            key.addr_b
        } else {
            key.addr_a
        },
    decreases packets.len(),
{
    let m = fresh_flow(key, initiator, syn_time, syn_seq);
    if packets.len() > 0 {
        let (mid, rtt) = choose|mid: FlowModel, rtt: Option<Duration>|
            flow_run(m, packets.drop_last(), mid) && #[trigger] flow_step(
                mid,
                packets.last(),
                n,
                rtt,
            );
        stats_run_from_initiator_to_responder(
            key,
            initiator,
            syn_time,
            syn_seq,
            packets.drop_last(),
            mid,
        );
        flow_stays_ok(mid, packets.last(), n, rtt);
        counters_count_everything(key, initiator, syn_time, syn_seq, packets, n);
    }
}

/// The statistics of a flow are of its data round trips alone: all its samples but the
/// handshake's, and each of them plausible.
pub proof fn stats_are_of_data(m: FlowModel)
    requires
        flow_ok(m),
    ensures
        stats_of_flow(m).rtt == stats_of_samples(data_samples(m)),
        forall|i: int| 0 <= i < data_samples(m).len() ==> plausible(#[trigger] data_samples(m)[i]),
        handshake_rtt_of(m) matches Some(d) ==> m.samples == seq![d] + data_samples(m),
{
    assert forall|i: int| 0 <= i < data_samples(m).len() implies plausible(
        #[trigger] data_samples(m)[i],
    ) by {
        assert(data_samples(m)[i] == m.samples[i + 1]);
    }
    if let Some(d) = handshake_rtt_of(m) {
        assert(m.samples =~= seq![d] + data_samples(m));
    }
}

/// How many of some samples are recorded as `v` microseconds.
pub open spec fn recorded_as(samples: Multiset<Duration>, v: u64) -> nat {
    samples.filter(|d: Duration| usable_micros(d) == Some(v)).len()
}

/// A value is recorded as often as there are samples for it.
proof fn lemma_usable_count(samples: Seq<Duration>, v: u64)
    ensures
        usable_values(samples).count(v) == recorded_as(samples.to_multiset(), v),
    decreases samples.len(),
{
    broadcast use vstd::multiset::group_multiset_axioms;
    broadcast use vstd::seq_lib::group_to_multiset_ensures;

    let fits = |d: Duration| usable_micros(d) == Some(v);
    if samples.len() == 0 {
        assert(samples.to_multiset() =~= Multiset::empty());
        assert(samples.to_multiset().filter(fits) =~= Multiset::empty());
    } else {
        let earlier = samples.drop_last();
        let last = samples.last();
        lemma_usable_count(earlier, v);
        assert(samples =~= earlier.push(last));
        assert(samples.to_multiset() =~= earlier.to_multiset().insert(last));
        if fits(last) {
            assert(samples.to_multiset().filter(fits) =~= earlier.to_multiset().filter(
                fits,
            ).insert(last));
        } else {
            assert(samples.to_multiset().filter(fits) =~= earlier.to_multiset().filter(fits));
        }
    }
}

/// The order in which samples were taken does not matter to their statistics.
pub proof fn sample_order_does_not_matter(one: Seq<Duration>, other: Seq<Duration>)
    requires
        one.to_multiset() == other.to_multiset(),
    ensures
        stats_of_samples(one) == stats_of_samples(other),
{
    assert forall|v: u64| usable_values(one).count(v) == usable_values(other).count(v) by {
        lemma_usable_count(one, v);
        lemma_usable_count(other, v);
    }
    assert(usable_values(one) =~= usable_values(other));
}

/// Samples that are all recorded as one value have that value for every figure but mean and
/// deviation, as exactly as the bins tell.
pub proof fn identical_samples_give_one_figure(values: Multiset<u64>, v: u64)
    requires
        values.contains(v),
        forall|w: u64| #[trigger] values.contains(w) ==> w == v,
        tops_a_bin(values, percentile_of(values, 50)),
        tops_a_bin(values, percentile_of(values, 95)),
        tops_a_bin(values, percentile_of(values, 99)),
    ensures
        ({
            let s = stats_of_values(values);
            &&& s.min == micros(bin_floor(v))
            &&& s.max == micros(bin_ceiling(v))
            &&& s.p50 == s.max
            &&& s.p95 == s.max
            &&& s.p99 == s.max
        }),
{
    assert(is_least(values, v));
    assert(is_greatest(values, v));
    assert(least(values) == v);
    assert(greatest(values) == v);
}

/// The flows with RTT data are among all active flows, and they are just those of them whose
/// statistics have samples.
pub proof fn flows_with_rtt_are_those_with_samples(
    m: MonitorModel,
    now: Instant,
    all: Seq<FlowStats>,
    with_rtt: Seq<FlowStats>,
    stats: FlowStats,
)
    requires
        forall|k: FlowKey| #[trigger]
            m.tracker.flows.contains_key(k) ==> m.tracker.flows[k].key == k
                && m.tracker.flows[k].samples.len() <= u64::MAX,
        lists_stats(all, active_only(m.tracker.flows, now, m.tracker.flow_timeout)),
        lists_stats(with_rtt, m.reported(now, 1)),
    ensures
        with_rtt.contains(stats) <==> all.contains(stats) && stats.sample_count > 0,
{
    let active = active_only(m.tracker.flows, now, m.tracker.flow_timeout);
    let some = m.reported(now, 1);
    if with_rtt.contains(stats) {
        let i = choose|i: int| 0 <= i < with_rtt.len() && with_rtt[i] == stats;
        assert(active.contains_key(stats.key));
        let j = choose|j: int| 0 <= j < all.len() && (#[trigger] all[j]).key == stats.key;
        assert(all[j] == stats);
    }
    if all.contains(stats) && stats.sample_count > 0 {
        let j = choose|j: int| 0 <= j < all.len() && all[j] == stats;
        assert(some.contains_key(stats.key));
        let i = choose|i: int| 0 <= i < with_rtt.len() && (#[trigger] with_rtt[i]).key == stats.key;
        assert(with_rtt[i] == stats);
    }
}

/// A list of statistics names each flow once.
pub proof fn statistics_name_each_flow_once(
    stats: Seq<FlowStats>,
    flows: Map<FlowKey, FlowModel>,
    i: int,
    j: int,
)
    requires
        lists_stats(stats, flows),
        0 <= i < j < stats.len(),
    ensures
        stats[i].key != stats[j].key,
{
    assert(stats_keys(stats)[i].precedes(stats_keys(stats)[j]));
    keys_are_totally_ordered(stats[i].key, stats[j].key, stats[i].key);
}

/// A flow is told as completed by one packet at most: once it is closed, no packet completes it
/// until a SYN starts it afresh, and that SYN does not either.
pub proof fn flows_complete_once(
    t: TrackerModel,
    p: TcpPacketInfo,
    u: TrackerModel,
    r: Option<(FlowKey, Duration)>,
    min: u64,
)
    requires
        tracker_step(t, p, u, r),
        ({
            let key = FlowKey::between(p.src, p.dst);
            p.flags.opens() || !t.flows.contains_key(key) || t.flows[key].state is Closed
        }),
    ensures
        completion(t, p, u, min) is None,
{
}

/// The packet that closes a flow tells of it, with the samples and the ends that it had, if it
/// has enough samples.
pub proof fn closing_packet_tells_its_flow(
    t: TrackerModel,
    p: TcpPacketInfo,
    u: TrackerModel,
    r: Option<(FlowKey, Duration)>,
    min: u64,
)
    requires
        tracker_ok(t),
        tracker_step(t, p, u, r),
        t.flows.contains_key(FlowKey::between(p.src, p.dst)),
        t.flows[FlowKey::between(p.src, p.dst)].state is Closing,
        t.flows[FlowKey::between(p.src, p.dst)].samples.len() >= min,
        p.flags.rst || (p.flags.fin && p.flags.ack),
        !p.flags.opens(),
    ensures
        ({
            let flow = t.flows[FlowKey::between(p.src, p.dst)];
            &&& completion(t, p, u, min) is Some
            &&& completion(t, p, u, min)->Some_0.key == flow.key
            &&& completion(t, p, u, min)->Some_0.src == stats_of_flow(flow).src
            &&& completion(t, p, u, min)->Some_0.dst == stats_of_flow(flow).dst
            &&& completion(t, p, u, min)->Some_0.rtt == stats_of_flow(flow).rtt
        }),
{
}

/// Telling of completed flows leaves the tracking as it is.
pub proof fn telling_does_not_touch_tracking(
    t: TrackerModel,
    packets: Seq<TcpPacketInfo>,
    u: TrackerModel,
    min: u64,
    told: Seq<FlowStats>,
)
    requires
        packets_told(t, packets, u, min, told),
    ensures
        packets_taken(t, packets, u),
    decreases packets.len(),
{
    if packets.len() > 0 {
        let (mid, so_far) = choose|mid: TrackerModel, so_far: Seq<FlowStats>|
            packets_told(t, packets.drop_last(), mid, min, so_far) && #[trigger] packet_told(
                mid,
                packets.last(),
                u,
                min,
                so_far,
                told,
            );
        telling_does_not_touch_tracking(t, packets.drop_last(), mid, min, so_far);
        assert(packet_taken(mid, packets.last(), u));
    }
}

/// A replay keeps its packets as far apart as they were captured, as far as times go.
pub proof fn replay_keeps_distances(base: Instant, one: Duration, other: Duration)
    requires
        one.nanos <= other.nanos,
        base.nanos + other.nanos <= u128::MAX,
    ensures
        span_since(replay_time(base, other), replay_time(base, one)).nanos == other.nanos
            - one.nanos,
{
}

/// `v` is the value of rank `percent`: of some values, that at which, counting up from the least,
/// the given percentage of them is reached.
pub open spec fn has_rank(values: Multiset<u64>, percent: u32, v: u64) -> bool {
    &&& values.contains(v)
    &&& 100 * count_at_most(values, v) >= percent * values.len()
    &&& 100 * count_below(values, v) < percent * values.len()
}

/// A multiset within another has no more elements.
proof fn lemma_filter_len(
    values: Multiset<u64>,
    narrow: spec_fn(u64) -> bool,
    wide: spec_fn(u64) -> bool,
)
    requires
        forall|w: u64| #[trigger] narrow(w) ==> wide(w),
    ensures
        values.filter(narrow).len() <= values.filter(wide).len(),
{
    broadcast use vstd::multiset::group_multiset_axioms;

    let inner = values.filter(narrow);
    let outer = values.filter(wide);
    let rest = outer.sub(inner);
    assert(inner.subset_of(outer));
    assert(outer =~= inner.add(rest));
}

/// A percentile is the highest value in the bin of the sample of its rank: it is not below that
/// sample, at most a 1024th above it, and the sample itself where that is below 2048.
pub proof fn percentiles_are_accurate(values: Multiset<u64>, percent: u32, r: u64, v: u64)
    requires
        forall|w: u64| #[trigger] values.contains(w) ==> w <= HISTOGRAM_TOP,
        tops_a_bin(values, r),
        splits_at(values, percent, r),
        has_rank(values, percent, v),
    ensures
        r == bin_ceiling(v),
        v <= r <= v + v / 1024,
        v < 2048 ==> r == v,
{
    let w = choose|w: u64| #[trigger] values.contains(w) && r == bin_ceiling(w);
    bins_are_ordered(w, w);
    bins_hold_their_values(w, r);
    if v > r {
        lemma_filter_len(values, |x: u64| x <= r, |x: u64| x < v);
        assert(false);
    }
    if v < bin_floor(r) {
        lemma_filter_len(values, |x: u64| x <= v, |x: u64| x < bin_floor(r));
        assert(false);
    }
    bins_hold_their_values(w, v);
    bins_keep_three_digits(v);
}

/// Of up to `SPLIT_LIMIT` samples, the percentiles are the recorded samples of their ranks, as
/// exactly as the bins tell.
pub proof fn sample_percentiles_are_accurate(samples: Seq<Duration>, percent: u32, v: u64)
    requires
        percentiles_split(samples),
        samples.len() <= SPLIT_LIMIT,
        is_asked_for(percent),
        has_rank(usable_values(samples), percent, v),
    ensures
        percentile_of(usable_values(samples), percent) == bin_ceiling(v),
        v <= bin_ceiling(v) <= v + v / 1024,
        v < 2048 ==> bin_ceiling(v) == v,
{
    broadcast use vstd::multiset::group_multiset_axioms;

    let values = usable_values(samples);
    lemma_usable_values(samples);
    assert(values.len() > 0);
    percentiles_are_accurate(values, percent, percentile_of(values, percent), v);
}

} // verus!

//! What packets do to the table of flows, told packet by packet.

use vstd::prelude::*;

use crate::flow::{flow_step, fresh_flow, FlowKey, FlowModel, Segment, StateModel, TrackedFlow};
use crate::packet::TcpPacketInfo;
use crate::time::{Duration, Instant};
use crate::tracker::{
    active_only, ascending, keys_of, limit_of, models, packet_taken, packets_taken, room_for_syn,
    round_trip, table_of, tracker_ok, tracker_step, within_limit, TrackerModel,
};

verus! {

/// A packet acts on its flow with all that it has: its source, flags, numbers, payload and time.
pub proof fn segments_have_all_of_their_packet(p: TcpPacketInfo)
    ensures
        p.segment().src == p.src,
        p.segment().flags == p.flags,
        p.segment().seq == p.seq,
        p.segment().ack == p.ack,
        p.segment().payload_len == p.payload_len,
        p.segment().timestamp == p.timestamp,
{
}

/// Every packet but a SYN, of whichever end, acts on its flow if that is tracked, and what it
/// yields there is told with the key of the flow.
pub proof fn packets_act_on_their_flow(
    t: TrackerModel,
    p: TcpPacketInfo,
    u: TrackerModel,
    r: Option<(FlowKey, Duration)>,
    key: FlowKey,
    rtt: Option<Duration>,
)
    requires
        tracker_step(t, p, u, r),
        !(p.flags.syn && !p.flags.ack),
        key.addr_a == p.src && key.addr_b == p.dst && !p.dst.precedes(p.src) || key.addr_a == p.dst
            && key.addr_b == p.src && !p.src.precedes(p.dst),
        t.flows.contains_key(key),
        match r {
            Some((_, d)) => rtt == Some(d),
            None => rtt is None,
        },
    ensures
        u.flows.contains_key(key),
        flow_step(
            t.flows[key],
            (Segment {
                src: p.src,
                flags: p.flags,
                seq: p.seq,
                ack: p.ack,
                payload_len: p.payload_len,
                timestamp: p.timestamp,
            }),
            u.flows[key],
            rtt,
        ),
        r matches Some((k, _)) ==> k == key,
        u.flows.remove(key) == t.flows.remove(key),
        u.flow_timeout == t.flow_timeout,
        u.max_flows == t.max_flows,
{
    crate::addr::addresses_are_totally_ordered(p.src, p.dst, p.src);
    crate::laws::key_ignores_direction(p.src, p.dst);
    assert(key == FlowKey::between(p.src, p.dst));
    assert(round_trip(r) == rtt);
    assert(u.flows.remove(key) =~= t.flows.remove(key));
}

/// A packet but a SYN between ends whose flow is not tracked does nothing at all.
pub proof fn untracked_packets_do_nothing(
    t: TrackerModel,
    p: TcpPacketInfo,
    u: TrackerModel,
    r: Option<(FlowKey, Duration)>,
)
    requires
        tracker_step(t, p, u, r),
        !(p.flags.syn && !p.flags.ack),
        !t.flows.contains_key(FlowKey { addr_a: p.src, addr_b: p.dst }),
        !t.flows.contains_key(FlowKey { addr_a: p.dst, addr_b: p.src }),
    ensures
        u == t,
        r is None,
{
}

/// A SYN, whatever else it has, starts its flow afresh, opened by its sender, and yields nothing.
pub proof fn syns_start_their_flow_afresh(
    t: TrackerModel,
    p: TcpPacketInfo,
    u: TrackerModel,
    r: Option<(FlowKey, Duration)>,
    key: FlowKey,
)
    requires
        tracker_step(t, p, u, r),
        p.flags.syn && !p.flags.ack,
        key.addr_a == p.src && key.addr_b == p.dst && !p.dst.precedes(p.src) || key.addr_a == p.dst
            && key.addr_b == p.src && !p.src.precedes(p.dst),
    ensures
        r is None,
        u.flow_timeout == t.flow_timeout,
        u.max_flows == t.max_flows,
        u.flows.contains_key(key),
        u.flows[key].key == key,
        u.flows[key].initiator == p.src,
        u.flows[key].state == (StateModel::SynSent {
            initiator: p.src,
            syn_time: p.timestamp,
            syn_seq: p.seq,
        }),
        u.flows[key].samples.len() == 0,
        u.flows[key].last_activity == p.timestamp,
        u.flows[key].packets == 1,
        u.flows[key].bytes == 0,
{
    crate::addr::addresses_are_totally_ordered(p.src, p.dst, p.src);
    assert(key == FlowKey::between(p.src, p.dst));
}

/// The flow was heard of less than the timeout ago, and is not closed.
pub open spec fn alive(m: FlowModel, now: Instant, timeout: Duration) -> bool {
    &&& !(m.state is Closed)
    &&& timeout.nanos > 0
    &&& now.nanos < m.last_activity.nanos + timeout.nanos
}

/// A SYN drops no other flow while the table has fewer than its limit. In a full table the
/// others that stay are alive, and all that are alive stay while they are fewer than the limit.
/// Where they are not, just as many flows stay as the limit says, the new one among them, and
/// none was heard of earlier than one that is gone. A limit of nothing is a limit of one.
pub proof fn syns_drop_what_they_must(
    t: TrackerModel,
    p: TcpPacketInfo,
    u: TrackerModel,
    r: Option<(FlowKey, Duration)>,
    key: FlowKey,
    k: FlowKey,
    gone: FlowKey,
    others: Set<FlowKey>,
    limit: nat,
)
    requires
        t.flows.dom().finite(),
        tracker_step(t, p, u, r),
        p.flags.syn && !p.flags.ack,
        key.addr_a == p.src && key.addr_b == p.dst && !p.dst.precedes(p.src) || key.addr_a == p.dst
            && key.addr_b == p.src && !p.src.precedes(p.dst),
        k != key,
        gone != key,
        forall|l: FlowKey| #[trigger]
            others.contains(l) <==> l != key && t.flows.contains_key(l) && alive(
                t.flows[l],
                p.timestamp,
                t.flow_timeout,
            ),
        t.max_flows > 0 ==> limit == t.max_flows,
        t.max_flows == 0 ==> limit == 1,
    ensures
        u.flows.contains_key(k) ==> t.flows.contains_key(k) && u.flows[k] == t.flows[k],
        t.flows.len() < t.max_flows && t.flows.contains_key(k) ==> u.flows.contains_key(k),
        t.flows.len() >= t.max_flows && u.flows.contains_key(k) ==> others.contains(k),
        t.flows.len() >= t.max_flows && others.len() < limit && others.contains(k)
            ==> u.flows.contains_key(k),
        t.flows.len() >= t.max_flows && others.len() >= limit ==> u.flows.len() == limit,
        others.contains(gone) && !u.flows.contains_key(gone) && u.flows.contains_key(k)
            ==> t.flows[gone].last_activity.nanos <= t.flows[k].last_activity.nanos,
{
    crate::addr::addresses_are_totally_ordered(p.src, p.dst, p.src);
    assert(key == FlowKey::between(p.src, p.dst));
    let room = room_for_syn(t, p.timestamp);
    let kept = choose|kept: Map<FlowKey, FlowModel>| #[trigger]
        crate::tracker::leaves_place(room, key, limit_of(t), kept) && u.flows == kept.insert(
            key,
            fresh_flow(key, p.src, p.timestamp, p.seq),
        );
    assert(kept.contains_key(k) == u.flows.contains_key(k));
    assert(kept.contains_key(gone) == u.flows.contains_key(gone));
    assert(limit == limit_of(t));
    assert(room.dom().subset_of(t.flows.dom()));
    vstd::set_lib::lemma_len_subset(room.dom(), t.flows.dom());
    if t.flows.len() < t.max_flows {
        vstd::set_lib::lemma_len_subset(t.flows.remove(key).dom(), t.flows.dom());
    } else {
        assert(room.remove(key).dom() =~= others);
        assert(room.contains_key(k) == others.contains(k));
        assert(room.contains_key(gone) == others.contains(gone));
        if others.len() >= limit {
            assert forall|l: FlowKey| kept.dom().contains(l) implies room.dom().contains(l) by {
                assert(kept.contains_key(l));
            }
            vstd::set_lib::lemma_len_subset(kept.dom(), room.dom());
            assert(u.flows.dom() =~= kept.remove(key).dom().insert(key));
        }
    }
}

/// A table is within its limit when it has no more flows than that, or one where it is nothing.
pub proof fn limits_are_as_given(t: TrackerModel)
    ensures
        t.max_flows > 0 ==> limit_of(t) == t.max_flows,
        t.max_flows == 0 ==> limit_of(t) == 1,
        within_limit(t) && t.max_flows > 0 ==> t.flows.len() <= t.max_flows,
        within_limit(t) && t.max_flows == 0 ==> t.flows.len() <= 1,
        t.flows.len() <= t.max_flows ==> within_limit(t),
{
}

/// Of a table the flows that are alive remain, as they are.
pub proof fn flows_alive_remain(
    flows: Map<FlowKey, FlowModel>,
    now: Instant,
    timeout: Duration,
    k: FlowKey,
)
    ensures
        active_only(flows, now, timeout).contains_key(k) <==> flows.contains_key(k) && alive(
            flows[k],
            now,
            timeout,
        ),
        active_only(flows, now, timeout).contains_key(k) ==> active_only(flows, now, timeout)[k]
            == flows[k],
{
}

/// In a table in order each flow stands under its own key.
pub proof fn flows_stand_under_their_keys(t: TrackerModel, k: FlowKey)
    requires
        tracker_ok(t),
    ensures
        t.flows.dom().finite(),
        t.flows.contains_key(k) ==> t.flows[k].key == k,
{
}

/// A list of flows in ascending order makes a table with each of them under its key, and with
/// nothing else.
pub proof fn lists_make_tables(flows: Seq<FlowModel>, i: int, k: FlowKey)
    requires
        ascending(keys_of(flows)),
    ensures
        0 <= i < flows.len() ==> table_of(flows).contains_key(flows[i].key) && table_of(
            flows,
        )[flows[i].key] == flows[i],
        table_of(flows).contains_key(k) ==> exists|j: int|
            0 <= j < flows.len() && (#[trigger] flows[j]).key == k,
        table_of(flows).len() == flows.len(),
{
    crate::tracker::lemma_table(flows);
}

/// Ascending keys come one before the other.
pub proof fn ascending_keys_are_in_order(keys: Seq<FlowKey>, i: int, j: int)
    requires
        ascending(keys),
        0 <= i < j < keys.len(),
    ensures
        keys[i].precedes(keys[j]),
{
}

/// Lists of flows and of their keys go flow by flow.
pub proof fn models_go_flow_by_flow(flows: Seq<&TrackedFlow>, i: int)
    ensures
        models(flows).len() == flows.len(),
        keys_of(models(flows)).len() == flows.len(),
        0 <= i < flows.len() ==> models(flows)[i] == flows[i]@ && keys_of(models(flows))[i]
            == flows[i].key,
{
}

/// Packets take a table from one state to another one by one: none leave it, one makes a step,
/// and those of two lists, one after the other, meet in between.
pub proof fn packets_are_taken_one_by_one(
    t: TrackerModel,
    one: Seq<TcpPacketInfo>,
    p: TcpPacketInfo,
    other: Seq<TcpPacketInfo>,
    u: TrackerModel,
)
    ensures
        packets_taken(t, Seq::empty(), u) <==> u == t,
        packets_taken(t, seq![p], u) <==> exists|r: Option<(FlowKey, Duration)>| #[trigger]
            tracker_step(t, p, u, r),
        packets_taken(t, one + other, u) <==> exists|mid: TrackerModel| #[trigger]
            packets_taken(t, one, mid) && packets_taken(mid, other, u),
    decreases other.len(),
{
    let single = seq![p];
    assert(single.drop_last() =~= Seq::empty());
    assert(packets_taken(t, single.drop_last(), t));
    if packets_taken(t, single, u) {
        let mid = choose|mid: TrackerModel|
            packets_taken(t, single.drop_last(), mid) && #[trigger] packet_taken(
                mid,
                single.last(),
                u,
            );
        assert(mid == t);
    }
    if packet_taken(t, p, u) {
        assert(packet_taken(t, single.last(), u));
        assert(packets_taken(t, single, u));
    }
    let whole = one + other;
    if other.len() == 0 {
        assert(whole =~= one);
        assert(other =~= Seq::empty());
        if packets_taken(t, whole, u) {
            assert(packets_taken(u, other, u));
        }
    } else {
        assert(whole.drop_last() =~= one + other.drop_last());
        assert(whole.last() == other.last());
        if packets_taken(t, whole, u) {
            let last = choose|last: TrackerModel|
                packets_taken(t, whole.drop_last(), last) && #[trigger] packet_taken(
                    last,
                    whole.last(),
                    u,
                );
            packets_are_taken_one_by_one(t, one, p, other.drop_last(), last);
            let mid = choose|mid: TrackerModel| #[trigger]
                packets_taken(t, one, mid) && packets_taken(mid, other.drop_last(), last);
            assert(packet_taken(last, other.last(), u));
            assert(packets_taken(mid, other, u));
        }
        if exists|mid: TrackerModel| #[trigger]
            packets_taken(t, one, mid) && packets_taken(mid, other, u) {
            let mid = choose|mid: TrackerModel| #[trigger]
                packets_taken(t, one, mid) && packets_taken(mid, other, u);
            let last = choose|last: TrackerModel|
                packets_taken(mid, other.drop_last(), last) && #[trigger] packet_taken(
                    last,
                    other.last(),
                    u,
                );
            packets_are_taken_one_by_one(t, one, p, other.drop_last(), last);
            assert(packets_taken(t, whole.drop_last(), last));
            assert(packet_taken(last, whole.last(), u));
        }
    }
}

} // verus!

//! What a monitor reports, and when.

use vstd::prelude::*;

use crate::capture::TcpPacketInfo;
use crate::error::Error;
use crate::flow::{FlowKey, FlowModel};
use crate::monitor::{
    batch_processed, completion, given, is_default_config, is_due, is_new_builder, lists_batch,
    lists_stats, next_step, packet_step, packet_told, packets_told, reports_sometime, sampled,
    source_asked, source_drawn, stats_keys, MonitorBuilder, MonitorConfig, MonitorModel,
    MonitorStep,
};
use crate::stats::{stats_of_flow, FlowStats};
use crate::time::{Duration, Instant};
use crate::tracker::{packet_taken, packets_taken, tracker_step, TrackerModel};
use crate::tracker_laws::alive;

verus! {

/// Without other wishes a monitor forgets flows after a minute, keeps ten thousand of them,
/// takes TCP packets, reports every ten seconds, and reports flows with a sample. A new builder
/// wishes for nothing else, and names nothing to capture from.
pub proof fn defaults_are_as_documented(c: MonitorConfig, b: MonitorBuilder)
    ensures
        is_default_config(c) <==> c.flow_timeout.nanos == 60_000_000_000 && c.max_flows == 10_000
            && c.filter@ == "tcp"@ && c.stats_interval.nanos == 10_000_000_000 && c.min_samples
            == 1,
        is_new_builder(b) <==> b.interface is None && b.pcap_path is None && is_default_config(
            b.config,
        ),
{
}

/// Of some flows those with enough samples are picked, as they are.
pub proof fn sampled_flows_have_their_samples(
    flows: Map<FlowKey, FlowModel>,
    min: u64,
    k: FlowKey,
)
    ensures
        sampled(flows, min).contains_key(k) <==> flows.contains_key(k) && flows[k].samples.len()
            >= min,
        sampled(flows, min).contains_key(k) ==> sampled(flows, min)[k] == flows[k],
{
}

/// A list of statistics has the statistics of each of its flows once, in the order of the keys,
/// and of nothing else.
pub proof fn lists_name_just_their_flows(
    stats: Seq<FlowStats>,
    flows: Map<FlowKey, FlowModel>,
    i: int,
    j: int,
    k: FlowKey,
)
    requires
        lists_stats(stats, flows),
    ensures
        0 <= i < stats.len() ==> flows.contains_key(stats[i].key) && stats[i] == stats_of_flow(
            flows[stats[i].key],
        ),
        0 <= i < j < stats.len() ==> stats[i].key.precedes(stats[j].key),
        flows.contains_key(k) ==> exists|l: int|
            0 <= l < stats.len() && (#[trigger] stats[l]).key == k,
        stats_keys(stats).len() == stats.len(),
        0 <= i < stats.len() ==> stats_keys(stats)[i] == stats[i].key,
{
    if 0 <= i < j < stats.len() {
        assert(stats_keys(stats)[i].precedes(stats_keys(stats)[j]));
    }
}

/// A report names just the flows that are alive and have enough samples, each once and with its
/// statistics, in the order of their keys.
pub proof fn reports_name_the_flows_asked_for(
    m: MonitorModel,
    now: Instant,
    min: u64,
    stats: Seq<FlowStats>,
    i: int,
    j: int,
    k: FlowKey,
)
    requires
        lists_stats(stats, m.reported(now, min)),
    ensures
        0 <= i < stats.len() ==> {
            let flow = m.tracker.flows[stats[i].key];
            &&& m.tracker.flows.contains_key(stats[i].key)
            &&& stats[i] == stats_of_flow(flow)
            &&& alive(flow, now, m.tracker.flow_timeout)
            &&& flow.samples.len() >= min
        },
        0 <= i < j < stats.len() ==> stats[i].key.precedes(stats[j].key),
        m.tracker.flows.contains_key(k) && alive(m.tracker.flows[k], now, m.tracker.flow_timeout)
            && m.tracker.flows[k].samples.len() >= min ==> exists|l: int|
            0 <= l < stats.len() && (#[trigger] stats[l]).key == k,
{
    lists_name_just_their_flows(stats, m.reported(now, min), i, j, k);
}

/// A report of some time is one of some instant.
pub proof fn reports_are_of_an_instant(m: MonitorModel, min: u64, stats: Seq<FlowStats>)
    ensures
        reports_sometime(m, min, stats) <==> exists|now: Instant|
            lists_stats(stats, #[trigger] m.reported(now, min)),
{
}

/// A report is due once the interval has passed since the last one, and always where there is
/// no interval.
pub proof fn reports_are_due_after_the_interval(
    config: MonitorConfig,
    last_report: Instant,
    now: Instant,
)
    ensures
        is_due(config, last_report, now) <==> config.stats_interval.nanos == 0 || now.nanos
            >= last_report.nanos + config.stats_interval.nanos,
{
}

/// A packet tells of a flow just where it closes that flow: it was tracked and not closed before,
/// is closed after, and has enough samples. It tells the statistics that the flow has then.
pub proof fn packets_tell_of_the_flow_they_close(
    t: TrackerModel,
    p: TcpPacketInfo,
    u: TrackerModel,
    min: u64,
)
    ensures
        ({
            let key = FlowKey::between(p.src, p.dst);
            let closes = t.flows.contains_key(key) && !(t.flows[key].state is Closed)
                && u.flows.contains_key(key) && u.flows[key].state is Closed;
            &&& completion(t, p, u, min) is Some <==> closes && u.flows[key].samples.len() >= min
            &&& completion(t, p, u, min) matches Some(s) ==> s == stats_of_flow(u.flows[key])
        }),
{
}

/// A packet is taken by the tracker, and adds to what is told what it tells, and nothing else.
pub proof fn told_packets_are_taken(
    t: TrackerModel,
    p: TcpPacketInfo,
    u: TrackerModel,
    min: u64,
    so_far: Seq<FlowStats>,
    told: Seq<FlowStats>,
)
    ensures
        packet_told(t, p, u, min, so_far, told) <==> (exists|r: Option<(FlowKey, Duration)>|
         #[trigger]
            tracker_step(t, p, u, r)) && (completion(t, p, u, min) matches Some(s) ==> told
            == so_far.push(s)) && (completion(t, p, u, min) is None ==> told == so_far),
{
}

/// A longer history of what was told adds to what comes after it.
proof fn lemma_told_after(
    t: TrackerModel,
    one: Seq<TcpPacketInfo>,
    mid: TrackerModel,
    first: Seq<FlowStats>,
    other: Seq<TcpPacketInfo>,
    u: TrackerModel,
    second: Seq<FlowStats>,
    min: u64,
)
    requires
        packets_told(t, one, mid, min, first),
        packets_told(mid, other, u, min, second),
    ensures
        packets_told(t, one + other, u, min, first + second),
    decreases other.len(),
{
    let whole = one + other;
    let told = first + second;
    if other.len() == 0 {
        assert(whole =~= one);
        assert(told =~= first);
    } else {
        let (last, so_far) = choose|last: TrackerModel, so_far: Seq<FlowStats>|
            packets_told(mid, other.drop_last(), last, min, so_far) && #[trigger] packet_told(
                last,
                other.last(),
                u,
                min,
                so_far,
                second,
            );
        lemma_told_after(t, one, mid, first, other.drop_last(), last, so_far, min);
        assert(whole.drop_last() =~= one + other.drop_last());
        assert(whole.last() == other.last());
        if let Some(s) = completion(last, other.last(), u, min) {
            assert(told =~= (first + so_far).push(s));
        }
        assert(packet_told(last, whole.last(), u, min, first + so_far, told));
    }
}

/// What was told of packets in two lists parts into what was told of each.
proof fn lemma_told_parts(
    t: TrackerModel,
    one: Seq<TcpPacketInfo>,
    other: Seq<TcpPacketInfo>,
    u: TrackerModel,
    told: Seq<FlowStats>,
    min: u64,
) -> (parts: (TrackerModel, Seq<FlowStats>, Seq<FlowStats>))
    requires
        packets_told(t, one + other, u, min, told),
    ensures
        packets_told(t, one, parts.0, min, parts.1),
        packets_told(parts.0, other, u, min, parts.2),
        told == parts.1 + parts.2,
    decreases other.len(),
{
    let whole = one + other;
    if other.len() == 0 {
        assert(whole =~= one);
        assert(told + Seq::<FlowStats>::empty() =~= told);
        (u, told, Seq::empty())
    } else {
        let (last, so_far) = choose|last: TrackerModel, so_far: Seq<FlowStats>|
            packets_told(t, whole.drop_last(), last, min, so_far) && #[trigger] packet_told(
                last,
                whole.last(),
                u,
                min,
                so_far,
                told,
            );
        assert(whole.drop_last() =~= one + other.drop_last());
        assert(whole.last() == other.last());
        let (mid, first, rest) = lemma_told_parts(t, one, other.drop_last(), last, so_far, min);
        let second = match completion(last, other.last(), u, min) {
            Some(s) => rest.push(s),
            None => rest,
        };
        assert(told =~= first + second);
        assert(packet_told(last, other.last(), u, min, rest, second));
        (mid, first, second)
    }
}

/// Packets are told of one by one: none tell nothing, one tells of what it closes, and those of
/// two lists, one after the other, tell what each list tells.
pub proof fn packets_are_told_one_by_one(
    t: TrackerModel,
    one: Seq<TcpPacketInfo>,
    p: TcpPacketInfo,
    other: Seq<TcpPacketInfo>,
    u: TrackerModel,
    min: u64,
    told: Seq<FlowStats>,
)
    ensures
        packets_told(t, Seq::empty(), u, min, told) <==> u == t && told.len() == 0,
        packets_told(t, seq![p], u, min, told) <==> packet_told(t, p, u, min, Seq::empty(), told),
        packets_told(t, one + other, u, min, told) <==> exists|
            mid: TrackerModel,
            first: Seq<FlowStats>,
            second: Seq<FlowStats>,
        |
            #![trigger packets_told(t, one, mid, min, first), packets_told(mid, other, u, min, second)]
            packets_told(t, one, mid, min, first) && packets_told(mid, other, u, min, second)
                && told == first + second,
{
    let nothing = Seq::<FlowStats>::empty();
    if told.len() == 0 {
        assert(told =~= nothing);
    }
    let single = seq![p];
    assert(single.drop_last() =~= Seq::empty());
    assert(single.last() == p);
    assert(packets_told(t, single.drop_last(), t, min, nothing));
    if packets_told(t, single, u, min, told) {
        let (mid, so_far) = choose|mid: TrackerModel, so_far: Seq<FlowStats>|
            packets_told(t, single.drop_last(), mid, min, so_far) && #[trigger] packet_told(
                mid,
                single.last(),
                u,
                min,
                so_far,
                told,
            );
        assert(mid == t && so_far == nothing);
    }
    if packet_told(t, p, u, min, nothing, told) {
        assert(packet_told(t, single.last(), u, min, nothing, told));
    }
    if packets_told(t, one + other, u, min, told) {
        let parts = lemma_told_parts(t, one, other, u, told, min);
        assert(packets_told(t, one, parts.0, min, parts.1));
    }
    if exists|mid: TrackerModel, first: Seq<FlowStats>, second: Seq<FlowStats>|
        #![trigger packets_told(t, one, mid, min, first), packets_told(mid, other, u, min, second)]
        packets_told(t, one, mid, min, first) && packets_told(mid, other, u, min, second) && told
            == first + second {
        let (mid, first, second) = choose|
            mid: TrackerModel,
            first: Seq<FlowStats>,
            second: Seq<FlowStats>,
        |
            #![trigger packets_told(t, one, mid, min, first), packets_told(mid, other, u, min, second)]
            packets_told(t, one, mid, min, first) && packets_told(mid, other, u, min, second)
                && told == first + second;
        lemma_told_after(t, one, mid, first, other, u, second, min);
    }
}

/// A source is asked packet by packet, in turn: what it had answered stays, then come the packets
/// that were taken, each as it was given, and then, if they were fewer than asked for, the one
/// answer that ended it. That answer is the failure, if there is one, and else that nothing is
/// left.
pub proof fn sources_are_asked_in_turn(
    before: Seq<Option<Result<TcpPacketInfo, Error>>>,
    packets: Seq<TcpPacketInfo>,
    max: nat,
    failure: Option<Error>,
    after: Seq<Option<Result<TcpPacketInfo, Error>>>,
    i: int,
)
    requires
        source_asked(before, packets, max, failure, after),
    ensures
        packets.len() <= max,
        failure is Some ==> packets.len() < max,
        after.len() == before.len() + packets.len() + if packets.len() < max {
            1int
        } else {
            0
        },
        0 <= i < before.len() ==> after[i] == before[i],
        0 <= i < packets.len() ==> after[before.len() + i] == Some(
            Ok::<TcpPacketInfo, Error>(packets[i]),
        ),
        packets.len() < max ==> match failure {
            Some(e) => after.last() == Some(Err::<TcpPacketInfo, Error>(e)),
            None => after.last() is None,
        },
        given(packets).len() == packets.len(),
        0 <= i < packets.len() ==> given(packets)[i] == Some(
            Ok::<TcpPacketInfo, Error>(packets[i]),
        ),
{
}

/// What a source gave, packet by packet, is what was taken and told of.
pub proof fn drawn_packets_are_taken_and_told(
    m: MonitorModel,
    max: nat,
    min: u64,
    n: MonitorModel,
    told: Seq<FlowStats>,
    failure: Option<Error>,
)
    ensures
        source_drawn(m, max, min, n, told, failure) <==> exists|packets: Seq<TcpPacketInfo>|
         #[trigger]
            packets_told(m.tracker, packets, n.tracker, min, told) && source_asked(
                m.answers,
                packets,
                max,
                failure,
                n.answers,
            ),
        source_drawn(m, max, min, n, told, failure) ==> exists|packets: Seq<TcpPacketInfo>|
         #[trigger]
            packets_taken(m.tracker, packets, n.tracker) && packets.len() <= max && told.len()
                <= packets.len() && m.answers + given(packets) == n.answers.take(
                (m.answers.len() + packets.len()) as int,
            ),
{
    if source_drawn(m, max, min, n, told, failure) {
        let packets = choose|packets: Seq<TcpPacketInfo>| #[trigger]
            packets_told(m.tracker, packets, n.tracker, min, told) && source_asked(
                m.answers,
                packets,
                max,
                failure,
                n.answers,
            );
        crate::laws::telling_does_not_touch_tracking(m.tracker, packets, n.tracker, min, told);
        packets_tell_of_one_flow_at_most(m.tracker, packets, n.tracker, min, told);
        assert(m.answers + given(packets) =~= n.answers.take(
            (m.answers.len() + packets.len()) as int,
        ));
        assert(packets_taken(m.tracker, packets, n.tracker));
    }
}

/// Packets tell of at most one flow each.
pub proof fn packets_tell_of_one_flow_at_most(
    t: TrackerModel,
    packets: Seq<TcpPacketInfo>,
    u: TrackerModel,
    min: u64,
    told: Seq<FlowStats>,
)
    requires
        packets_told(t, packets, u, min, told),
    ensures
        told.len() <= packets.len(),
    decreases packets.len(),
{
    if packets.len() > 0 {
        let (mid, so_far) = choose|mid: TrackerModel, so_far: Seq<FlowStats>|
            packets_told(t, packets.drop_last(), mid, min, so_far) && #[trigger] packet_told(
                mid,
                packets.last(),
                u,
                min,
                so_far,
                told,
            );
        packets_tell_of_one_flow_at_most(t, packets.drop_last(), mid, min, so_far);
    }
}

/// A batch gives the flows that it completed, whatever samples these have, and then all flows
/// that are alive at some time, or the failure of the source.
pub proof fn batches_give_completed_and_then_living_flows(
    m: MonitorModel,
    max: nat,
    n: MonitorModel,
    r: Result<Vec<FlowStats>, Error>,
)
    requires
        batch_processed(m, max, n, r),
    ensures
        match r {
            Ok(stats) => exists|now: Instant, completed: Seq<FlowStats>, active: Seq<FlowStats>|
                #![trigger lists_stats(active, n.reported(now, 0)), completed + active]
                stats@ == completed + active && lists_stats(active, n.reported(now, 0))
                    && source_drawn(m, max, 0, n, completed, None),
            Err(e) => n.answers.last() == Some(Err::<TcpPacketInfo, Error>(e)),
        },
{
    if let Ok(stats) = r {
        let (completed, active) = choose|completed: Seq<FlowStats>, active: Seq<FlowStats>|
            source_drawn(m, max, 0, n, completed, None) && #[trigger] lists_batch(
                n,
                completed,
                active,
                stats@,
            );
        let now = choose|now: Instant| lists_stats(active, #[trigger] n.reported(now, 0));
        assert(stats@ == completed + active && lists_stats(active, n.reported(now, 0)));
    }
}

/// After a packet a monitor goes on or reports, and tells in either case of the flow that the
/// packet completed.
pub proof fn packets_make_steps(
    m: MonitorModel,
    p: TcpPacketInfo,
    last_report: Instant,
    n: MonitorModel,
    step: MonitorStep,
)
    requires
        packet_step(m, p, last_report, n, step),
    ensures
        exists|r: Option<(FlowKey, Duration)>| #[trigger] tracker_step(m.tracker, p, n.tracker, r),
        !(step is Finished),
        step matches MonitorStep::Continue { completed } ==> completed == completion(
            m.tracker,
            p,
            n.tracker,
            m.config.min_samples,
        ) && m.config.stats_interval.nanos > 0,
        step matches MonitorStep::Report { completed, stats, .. } ==> completed == completion(
            m.tracker,
            p,
            n.tracker,
            m.config.min_samples,
        ) && exists|now: Instant|
            lists_stats(stats@, #[trigger] n.reported(now, m.config.min_samples)),
{
    assert(packet_taken(m.tracker, p, n.tracker));
}

/// A monitor asks its source once a step. It takes a packet, passes a failure on as it is and
/// finishes with a report where there is nothing left; the flows change with a packet alone.
pub proof fn steps_follow_the_answers(
    m: MonitorModel,
    last_report: Instant,
    n: MonitorModel,
    r: Result<MonitorStep, Error>,
)
    requires
        next_step(m, last_report, n, r),
    ensures
        n.config == m.config,
        n.answers.len() == m.answers.len() + 1,
        n.answers.drop_last() =~= m.answers,
        r matches Err(e) ==> n.answers.last() == Some(Err::<TcpPacketInfo, Error>(e)),
        n.answers.last() matches Some(Err(_)) ==> r is Err,
        r is Ok && r->Ok_0 is Finished <==> n.answers.last() is None,
        n.answers.last() matches Some(Ok(p)) ==> r is Ok && packet_step(
            m,
            p,
            last_report,
            n,
            r->Ok_0,
        ),
        !(n.answers.last() matches Some(Ok(_))) ==> n.tracker == m.tracker,
        r matches Ok(MonitorStep::Finished { stats }) ==> exists|now: Instant|
            lists_stats(stats@, #[trigger] n.reported(now, m.config.min_samples)),
{
    if let Some(Ok(p)) = n.answers.last() {
        assert(packet_step(m, p, last_report, n, r->Ok_0));
    }
}

} // verus!

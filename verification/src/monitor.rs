//! Passive RTT monitor - main API

use vstd::prelude::*;

use crate::capture::{PacketSource, TcpPacketInfo};
use crate::error::Error;
use crate::flow::{FlowKey, FlowModel, FlowState, FlowTracker, TrackedFlow};
use crate::source::AskedSource;
use crate::stats::{stats_of_flow, FlowStats};
use crate::time::{span_since, Clock, Duration, Instant};
use crate::tracker::{
    active_only, ascending, keys_of, lemma_table, models, packet_taken, table_of,
    limit_of, tracker_ok, tracker_step, within_limit, TrackerModel,
};

verus! {

/// Configuration for the passive monitor
#[derive(Debug, Clone)]
pub struct MonitorConfig {
    /// How long to keep tracking idle flows
    pub flow_timeout: Duration,
    /// Maximum number of concurrent flows to track
    pub max_flows: usize,
    /// BPF filter expression (default: "tcp")
    pub filter: String,
    /// How often to report flow statistics
    pub stats_interval: Duration,
    /// Minimum samples before reporting a flow
    pub min_samples: u64,
}

/// The configuration that holds unless another is asked for.
pub open spec fn is_default_config(c: MonitorConfig) -> bool {
    &&& c.flow_timeout.nanos == 60_000_000_000
    &&& c.max_flows == 10_000
    &&& c.filter@ == "tcp"@
    &&& c.stats_interval.nanos == 10_000_000_000
    &&& c.min_samples == 1
}

impl Default for MonitorConfig {
    fn default() -> (config: Self)
        ensures
            is_default_config(config),
            config.flow_timeout.nanos == 60_000_000_000,
            config.max_flows == 10_000,
            config.filter@ == "tcp"@,
            config.stats_interval.nanos == 10_000_000_000,
            config.min_samples == 1,
    {
        MonitorConfig {
            flow_timeout: Duration::from_secs(60),
            max_flows: 10000,
            filter: "tcp".to_owned(),
            stats_interval: Duration::from_secs(10),
            min_samples: 1,
        }
    }
}

impl MonitorConfig {
    /// Create config with custom flow timeout
    pub fn with_timeout(self, timeout: Duration) -> (config: Self)
        ensures
            config == (MonitorConfig { flow_timeout: timeout, ..self }),
    {
        MonitorConfig { flow_timeout: timeout, ..self }
    }

    /// Create config with custom filter
    pub fn with_filter(self, filter: &str) -> (config: Self)
        ensures
            config.filter@ == filter@,
            config == (MonitorConfig { filter: config.filter, ..self }),
    {
        MonitorConfig { filter: filter.to_owned(), ..self }
    }

    /// Create config with custom stats interval
    pub fn with_stats_interval(self, interval: Duration) -> (config: Self)
        ensures
            config == (MonitorConfig { stats_interval: interval, ..self }),
    {
        MonitorConfig { stats_interval: interval, ..self }
    }
}

/// Passive TCP RTT monitor
///
/// It takes its packets from a source and keeps the flows that they belong to.
pub struct PassiveMonitor<S: PacketSource> {
    config: MonitorConfig,
    tracker: FlowTracker,
    capture: AskedSource<S>,
    clock: Clock,
}

/// What a [`PassiveMonitor`] stands for.
pub struct MonitorModel {
    pub config: MonitorConfig,
    pub tracker: TrackerModel,
    /// What the packet source has answered so far.
    pub answers: Seq<Option<Result<TcpPacketInfo, Error>>>,
}

/// The flows with at least `min` samples.
pub open spec fn sampled(flows: Map<FlowKey, FlowModel>, min: u64) -> Map<FlowKey, FlowModel> {
    Map::new(
        |k: FlowKey| flows.contains_key(k) && flows[k].samples.len() >= min,
        |k: FlowKey| flows[k],
    )
}

/// The keys of a list of statistics.
pub open spec fn stats_keys(stats: Seq<FlowStats>) -> Seq<FlowKey> {
    stats.map_values(|s: FlowStats| s.key)
}

/// `stats` lists the statistics of just these flows, in the order of their keys.
pub open spec fn lists_stats(stats: Seq<FlowStats>, flows: Map<FlowKey, FlowModel>) -> bool {
    &&& ascending(stats_keys(stats))
    &&& forall|i: int|
        #![trigger stats[i]]
        0 <= i < stats.len() ==> flows.contains_key(stats[i].key) && stats[i] == stats_of_flow(
            flows[stats[i].key],
        )
    &&& forall|k: FlowKey| #[trigger]
        flows.contains_key(k) ==> exists|i: int|
            0 <= i < stats.len() && (#[trigger] stats[i]).key == k
}

impl MonitorModel {
    /// The flows that are active at a given time and have at least `min` samples.
    pub open spec fn reported(self, now: Instant, min: u64) -> Map<FlowKey, FlowModel> {
        sampled(active_only(self.tracker.flows, now, self.tracker.flow_timeout), min)
    }
}

/// `stats` lists the flows of a monitor that are active at some time and have at least `min`
/// samples.
pub open spec fn reports_sometime(m: MonitorModel, min: u64, stats: Seq<FlowStats>) -> bool {
    exists|now: Instant| lists_stats(stats, #[trigger] m.reported(now, min))
}

/// It is time for another report once the interval has passed since the last.
pub open spec fn is_due(config: MonitorConfig, last_report: Instant, now: Instant) -> bool {
    span_since(now, last_report).nanos >= config.stats_interval.nanos
}

/// The statistics that are told when a packet takes the tracker from `t` to `u`: of its flow, if
/// the packet closed it and there are at least `min` samples.
pub open spec fn completion(
    t: TrackerModel,
    p: TcpPacketInfo,
    u: TrackerModel,
    min: u64,
) -> Option<FlowStats> {
    let key = FlowKey::between(p.src, p.dst);
    if t.flows.contains_key(key) && !(t.flows[key].state is Closed) && u.flows.contains_key(key)
        && u.flows[key].state is Closed && u.flows[key].samples.len() >= min {
        Some(stats_of_flow(u.flows[key]))
    } else {
        None
    }
}

/// A packet takes the tracker from `t` to `u`, and the statistics told grow from `so_far` to
/// `told` by those of the flow that it completes, if it does.
pub open spec fn packet_told(
    t: TrackerModel,
    p: TcpPacketInfo,
    u: TrackerModel,
    min: u64,
    so_far: Seq<FlowStats>,
    told: Seq<FlowStats>,
) -> bool {
    &&& packet_taken(t, p, u)
    &&& told == match completion(t, p, u, min) {
        Some(stats) => so_far.push(stats),
        None => so_far,
    }
}

/// The packets, one after the other, take the tracker from `t` to `u`, and `told` lists the
/// statistics of the flows that they complete.
pub open spec fn packets_told(
    t: TrackerModel,
    packets: Seq<TcpPacketInfo>,
    u: TrackerModel,
    min: u64,
    told: Seq<FlowStats>,
) -> bool
    decreases packets.len(),
{
    if packets.len() == 0 {
        u == t && told == Seq::<FlowStats>::empty()
    } else {
        exists|mid: TrackerModel, so_far: Seq<FlowStats>|
            packets_told(t, packets.drop_last(), mid, min, so_far) && #[trigger] packet_told(
                mid,
                packets.last(),
                u,
                min,
                so_far,
                told,
            )
    }
}

/// The answers of a source that gives these packets.
pub open spec fn given(packets: Seq<TcpPacketInfo>) -> Seq<
    Option<Result<TcpPacketInfo, Error>>,
> {
    packets.map_values(|p: TcpPacketInfo| Some(Ok::<TcpPacketInfo, Error>(p)))
}

/// A source was asked until it had given `max` packets, had none left, or failed: its answers
/// grew by the given packets and, unless these were enough, by the one that ended it.
pub open spec fn source_asked(
    before: Seq<Option<Result<TcpPacketInfo, Error>>>,
    packets: Seq<TcpPacketInfo>,
    max: nat,
    failure: Option<Error>,
    after: Seq<Option<Result<TcpPacketInfo, Error>>>,
) -> bool {
    let asked = before + given(packets);
    match failure {
        Some(e) => packets.len() < max && after == asked.push(Some(Err(e))),
        None => {
            ||| packets.len() == max && after == asked
            ||| packets.len() < max && after == asked.push(None)
        },
    }
}

/// Up to `max` packets of its source take a monitor from `m` to `n`; `told` lists the flows that
/// they complete, with at least `min` samples, and `failure` is the error that ended it, if one
/// did.
pub open spec fn source_drawn(
    m: MonitorModel,
    max: nat,
    min: u64,
    n: MonitorModel,
    told: Seq<FlowStats>,
    failure: Option<Error>,
) -> bool {
    exists|packets: Seq<TcpPacketInfo>| #[trigger]
        packets_told(m.tracker, packets, n.tracker, min, told) && source_asked(
            m.answers,
            packets,
            max,
            failure,
            n.answers,
        )
}

/// The flows of a batch: `completed` and then `active`, which lists the active ones.
pub open spec fn lists_batch(
    n: MonitorModel,
    completed: Seq<FlowStats>,
    active: Seq<FlowStats>,
    stats: Seq<FlowStats>,
) -> bool {
    reports_sometime(n, 0, active) && stats == completed + active
}

/// A batch of up to `max` packets takes a monitor from `m` to `n` and gives `r`: the flows that
/// it completed and the active ones, or the error of the source.
pub open spec fn batch_processed(
    m: MonitorModel,
    max: nat,
    n: MonitorModel,
    r: Result<Vec<FlowStats>, Error>,
) -> bool {
    match r {
        Ok(stats) => exists|completed: Seq<FlowStats>, active: Seq<FlowStats>|
            source_drawn(m, max, 0, n, completed, None) && #[trigger] lists_batch(
                n,
                completed,
                active,
                stats@,
            ),
        Err(e) => exists|completed: Seq<FlowStats>| #[trigger]
            source_drawn(m, max, 0, n, completed, Some(e)),
    }
}

/// What came of one more packet.
#[derive(Debug)]
pub enum MonitorStep {
    /// There may be more packets.
    Continue {
        /// The statistics of the flow that the packet completed, if it did.
        completed: Option<FlowStats>,
    },
    /// A report is due; there may be more packets.
    Report {
        /// The statistics of the flow that the packet completed, if it did.
        completed: Option<FlowStats>,
        stats: Vec<FlowStats>,
        last_report: Instant,
    },
    /// There are no more packets, and this is the last report.
    Finished { stats: Vec<FlowStats> },
}

/// A packet takes a monitor from `m` to `n` and gives `step`: with the flow that it completes,
/// and with a report where one is due.
pub open spec fn packet_step(
    m: MonitorModel,
    p: TcpPacketInfo,
    last_report: Instant,
    n: MonitorModel,
    step: MonitorStep,
) -> bool {
    let told = completion(m.tracker, p, n.tracker, m.config.min_samples);
    &&& packet_taken(m.tracker, p, n.tracker)
    &&& match step {
        MonitorStep::Continue { completed } => {
            &&& completed == told
            &&& exists|now: Instant| !#[trigger] is_due(m.config, last_report, now)
        },
        MonitorStep::Report { completed, stats, .. } => {
            &&& completed == told
            &&& exists|now: Instant| #[trigger] is_due(m.config, last_report, now)
            &&& reports_sometime(n, m.config.min_samples, stats@)
        },
        MonitorStep::Finished { .. } => false,
    }
}

/// A monitor asks its source once, which takes it from `m` to `n` and gives `r`.
pub open spec fn next_step(
    m: MonitorModel,
    last_report: Instant,
    n: MonitorModel,
    r: Result<MonitorStep, Error>,
) -> bool {
    &&& n.config == m.config
    &&& n.answers == m.answers.push(n.answers.last())
    &&& match n.answers.last() {
        Some(Ok(p)) => r is Ok && packet_step(m, p, last_report, n, r->Ok_0),
        Some(Err(e)) => r == Err::<MonitorStep, Error>(e) && n.tracker == m.tracker,
        None => {
            &&& n.tracker == m.tracker
            &&& r is Ok && r->Ok_0 is Finished
            &&& reports_sometime(n, m.config.min_samples, r->Ok_0->Finished_stats@)
        },
    }
}

impl<S: PacketSource> View for PassiveMonitor<S> {
    type V = MonitorModel;

    closed spec fn view(&self) -> MonitorModel {
        MonitorModel {
            config: self.config,
            tracker: self.tracker@,
            answers: self.capture.answers(),
        }
    }
}

impl<S: PacketSource> PassiveMonitor<S> {
    /// The flows are in order, under the limits of the configuration.
    pub closed spec fn wf(&self) -> bool {
        &&& self.tracker.wf()
        &&& self.tracker@.flow_timeout == self.config.flow_timeout
        &&& self.tracker@.max_flows == self.config.max_flows
    }

    /// The clock that tells the monitor the time.
    pub closed spec fn clock(&self) -> Clock {
        self.clock
    }

    /// The table of a monitor in order is in order, and keeps to the limits of the configuration.
    pub proof fn lemma_ok(&self)
        requires
            self.wf(),
        ensures
            tracker_ok(self@.tracker),
            within_limit(self@.tracker),
            self@.tracker.flow_timeout == self@.config.flow_timeout,
            self@.tracker.max_flows == self@.config.max_flows,
    {
        self.tracker.lemma_ok();
    }

    /// Makes a monitor of the packets of a source, whose times are those of the clock.
    pub fn from_source(capture: S, config: MonitorConfig, clock: Clock) -> (monitor: Self)
        ensures
            monitor.wf(),
            monitor@.config == config,
            monitor@.tracker == (TrackerModel {
                flows: Map::empty(),
                flow_timeout: config.flow_timeout,
                max_flows: config.max_flows,
            }),
            monitor@.answers == Seq::<Option<Result<TcpPacketInfo, Error>>>::empty(),
            monitor.clock() == clock,
    {
        let tracker = FlowTracker::new(config.flow_timeout, config.max_flows);
        PassiveMonitor { config, tracker, capture: AskedSource::new(capture), clock }
    }

    /// Get current flow count
    pub fn flow_count(&self) -> (n: usize)
        requires
            self.wf(),
        ensures
            n == self@.tracker.flows.len(),
            n <= limit_of(self@.tracker),
            self@.config.max_flows >= 1 ==> n <= self@.config.max_flows,
    {
        self.tracker.flow_count()
    }

    /// The statistics of the flows that are active and have at least `min` samples.
    fn stats_at(&self, now: Instant, min: u64) -> (stats: Vec<FlowStats>)
        requires
            self.wf(),
        ensures
            lists_stats(stats@, self@.reported(now, min)),
    {
        let active = self.tracker.active_flows(now);
        let ghost flows = models(active@);
        let mut stats: Vec<FlowStats> = Vec::new();
        let mut i: usize = 0;
        proof {
            lemma_table(flows);
        }
        while i < active.len()
            invariant
                i <= active@.len(),
                flows == models(active@),
                ascending(keys_of(flows)),
                lists_stats(stats@, sampled(table_of(flows.take(i as int)), min)),
            decreases active@.len() - i,
        {
            let flow: &TrackedFlow = active[i];
            let ghost before = stats@;
            if flow.rtt_samples.len() as u64 >= min {
                stats.push(FlowStats::from_flow(flow));
            }
            proof {
                lemma_next_stats(flows, i as int, before, stats@, min);
            }
            i = i + 1;
        }
        assert(flows.take(flows.len() as int) =~= flows);
        stats
    }

    /// The statistics that are due at a given time: of the active flows with enough samples.
    pub fn report_stats_at(&self, now: Instant) -> (stats: Vec<FlowStats>)
        requires
            self.wf(),
        ensures
            lists_stats(stats@, self@.reported(now, self@.config.min_samples)),
    {
        self.stats_at(now, self.config.min_samples)
    }

    /// The statistics that are due now.
    pub fn report_stats(&self) -> (stats: Vec<FlowStats>)
        requires
            self.wf(),
        ensures
            reports_sometime(self@, self@.config.min_samples, stats@),
            exists|now: Instant| #[trigger]
                self.clock().showed(now) && lists_stats(
                    stats@,
                    self@.reported(now, self@.config.min_samples),
                ),
    {
        let now = self.clock.now();
        assert(self.clock().showed(now));
        self.report_stats_at(now)
    }

    /// The statistics of all flows that are active at a given time.
    pub fn all_flow_stats_at(&self, now: Instant) -> (stats: Vec<FlowStats>)
        requires
            self.wf(),
        ensures
            lists_stats(stats@, active_only(self@.tracker.flows, now, self@.tracker.flow_timeout)),
    {
        proof {
            let flows = active_only(self@.tracker.flows, now, self@.tracker.flow_timeout);
            assert(self@.reported(now, 0) =~= flows);
        }
        self.stats_at(now, 0)
    }

    /// Get all current flow statistics
    pub fn all_flow_stats(&self) -> (stats: Vec<FlowStats>)
        requires
            self.wf(),
        ensures
            reports_sometime(self@, 0, stats@),
            exists|now: Instant| #[trigger]
                self.clock().showed(now) && lists_stats(
                    stats@,
                    active_only(self@.tracker.flows, now, self@.config.flow_timeout),
                ) && lists_stats(stats@, self@.reported(now, 0)),
    {
        let now = self.clock.now();
        proof {
            let flows = active_only(self@.tracker.flows, now, self@.tracker.flow_timeout);
            assert(self@.reported(now, 0) =~= flows);
            assert(self.clock().showed(now));
        }
        self.all_flow_stats_at(now)
    }

    /// The statistics of the flows that are active at a given time and have RTT data.
    pub fn flows_with_rtt_at(&self, now: Instant) -> (stats: Vec<FlowStats>)
        requires
            self.wf(),
        ensures
            lists_stats(stats@, self@.reported(now, 1)),
    {
        self.stats_at(now, 1)
    }

    /// Get statistics for flows with RTT data
    pub fn flows_with_rtt(&self) -> (stats: Vec<FlowStats>)
        requires
            self.wf(),
        ensures
            reports_sometime(self@, 1, stats@),
            exists|now: Instant| #[trigger]
                self.clock().showed(now) && lists_stats(stats@, self@.reported(now, 1)),
    {
        let now = self.clock.now();
        assert(self.clock().showed(now));
        self.flows_with_rtt_at(now)
    }

    /// Tests whether it is time for another report.
    pub fn report_due(&self, last_report: Instant, now: Instant) -> (due: bool)
        ensures
            due == is_due(self@.config, last_report, now),
            due == (self@.config.stats_interval.nanos == 0 || now.nanos >= last_report.nanos
                + self@.config.stats_interval.nanos),
    {
        now.saturating_duration_since(last_report).nanos >= self.config.stats_interval.nanos
    }

    /// Process one packet, and the report that is due after it
    ///
    /// `last_report` is the time of the last report. Without a packet the monitor is finished,
    /// and has its last report.
    pub fn process_next(&mut self, last_report: Instant) -> (r: Result<MonitorStep, Error>)
        requires
            old(self).wf(),
        ensures
            final(self).wf(),
            next_step(old(self)@, last_report, final(self)@, r),
            final(self).clock() == old(self).clock(),
            r matches Ok(MonitorStep::Continue { .. }) ==> exists|now: Instant| #[trigger]
                final(self).clock().showed(now) && old(self)@.config.stats_interval.nanos > 0
                    && now.nanos < last_report.nanos + old(self)@.config.stats_interval.nanos,
            r matches Ok(MonitorStep::Report { stats, last_report: reported, .. }) ==> {
                &&& exists|now: Instant| #[trigger]
                    final(self).clock().showed(now) && (old(self)@.config.stats_interval.nanos == 0
                        || now.nanos >= last_report.nanos + old(self)@.config.stats_interval.nanos)
                &&& exists|now: Instant| #[trigger]
                    final(self).clock().showed(now) && lists_stats(
                        stats@,
                        final(self)@.reported(now, old(self)@.config.min_samples),
                    )
                &&& final(self).clock().showed(reported)
            },
            r matches Ok(MonitorStep::Finished { stats }) ==> exists|now: Instant| #[trigger]
                final(self).clock().showed(now) && lists_stats(
                    stats@,
                    final(self)@.reported(now, old(self)@.config.min_samples),
                ),
    {
        let answer = self.capture.ask();
        let now = self.clock.now();
        match self.act_on_answer(answer, last_report, now) {
            Ok(NextAction::Continue { completed }) => {
                assert(!is_due(old(self)@.config, last_report, now));
                Ok(MonitorStep::Continue { completed })
            },
            // Periodic stats reporting
            Ok(NextAction::Report { completed }) => {
                assert(is_due(old(self)@.config, last_report, now));
                let stats = self.report_stats();
                Ok(MonitorStep::Report { completed, stats, last_report: self.clock.now() })
            },
            // Final report
            Ok(NextAction::Finish) => Ok(MonitorStep::Finished { stats: self.report_stats() }),
            Err(e) => Err(e),
        }
    }

    /// Tracks a packet, and returns the statistics of its flow if the packet completed it and it
    /// has at least `min_samples` samples.
    pub fn take_packet(&mut self, packet: TcpPacketInfo, min_samples: u64) -> (completed: Option<
        FlowStats,
    >)
        requires
            old(self).wf(),
        ensures
            final(self).wf(),
            final(self)@.config == old(self)@.config,
            final(self)@.answers == old(self)@.answers,
            packet_taken(old(self)@.tracker, packet, final(self)@.tracker),
            completed == completion(
                old(self)@.tracker,
                packet,
                final(self)@.tracker,
                min_samples,
            ),
            final(self).clock() == old(self).clock(),
            exists|r: Option<(FlowKey, Duration)>| #[trigger]
                tracker_step(old(self)@.tracker, packet, final(self)@.tracker, r),
            completed is Some <==> {
                let key = FlowKey::between(packet.src, packet.dst);
                &&& old(self)@.tracker.flows.contains_key(key)
                &&& !(old(self)@.tracker.flows[key].state is Closed)
                &&& final(self)@.tracker.flows.contains_key(key)
                &&& final(self)@.tracker.flows[key].state is Closed
                &&& final(self)@.tracker.flows[key].samples.len() >= min_samples
            },
            completed matches Some(stats) ==> stats == stats_of_flow(
                final(self)@.tracker.flows[FlowKey::between(packet.src, packet.dst)],
            ),
    {
        let key = FlowKey::new(packet.src, packet.dst);
        let was_open = match self.tracker.get_flow(&key) {
            Some(flow) => !matches!(flow.state, FlowState::Closed),
            None => false,
        };
        let ghost before = self.tracker@;
        let sample = self.tracker.process_packet(
            packet.src,
            packet.dst,
            packet.flags,
            packet.seq,
            packet.ack,
            packet.payload_len,
            packet.timestamp,
        );
        assert(tracker_step(before, packet, self.tracker@, sample));
        if was_open {
            if let Some(flow) = self.tracker.get_flow(&key) {
                if matches!(flow.state, FlowState::Closed) && flow.rtt_samples.len() as u64
                    >= min_samples {
                    return Some(FlowStats::from_flow(flow));
                }
            }
        }
        None
    }

    /// Acts on an answer of the packet source and decides what is next: after a packet, whether
    /// a report is due at `now`; without one, the end. An error of the source is passed on.
    pub fn act_on_answer(
        &mut self,
        answer: Option<Result<TcpPacketInfo, Error>>,
        last_report: Instant,
        now: Instant,
    ) -> (r: Result<NextAction, Error>)
        requires
            old(self).wf(),
        ensures
            final(self).wf(),
            final(self)@.config == old(self)@.config,
            final(self)@.answers == old(self)@.answers,
            match answer {
                Some(Ok(packet)) => {
                    let completed = completion(
                        old(self)@.tracker,
                        packet,
                        final(self)@.tracker,
                        old(self)@.config.min_samples,
                    );
                    &&& packet_taken(old(self)@.tracker, packet, final(self)@.tracker)
                    &&& r == Ok::<NextAction, Error>(
                        if is_due(old(self)@.config, last_report, now) {
                            NextAction::Report { completed }
                        } else {
                            NextAction::Continue { completed }
                        },
                    )
                },
                Some(Err(e)) => {
                    &&& r == Err::<NextAction, Error>(e)
                    &&& final(self)@ == old(self)@
                },
                None => {
                    &&& r == Ok::<NextAction, Error>(NextAction::Finish)
                    &&& final(self)@ == old(self)@
                },
            },
            final(self).clock() == old(self).clock(),
            answer matches Some(Ok(_)) ==> r is Ok && (r->Ok_0 is Report <==> old(
                self,
            )@.config.stats_interval.nanos == 0 || now.nanos >= last_report.nanos + old(
                self,
            )@.config.stats_interval.nanos) && !(r->Ok_0 is Finish),
    {
        match answer {
            Some(Ok(packet)) => {
                let completed = self.take_packet(packet, self.config.min_samples);
                if self.report_due(last_report, now) {
                    Ok(NextAction::Report { completed })
                } else {
                    Ok(NextAction::Continue { completed })
                }
            },
            Some(Err(e)) => Err(e),
            None => Ok(NextAction::Finish),
        }
    }

    /// Takes up to `max_packets` packets from the source, fewer where it has no more or fails.
    /// Returns the statistics of the flows that they completed, with at least `min_samples`
    /// samples, and the error of the source.
    fn take_packets(&mut self, max_packets: usize, min_samples: u64) -> (r: (
        Vec<FlowStats>,
        Option<Error>,
    ))
        requires
            old(self).wf(),
        ensures
            final(self).wf(),
            final(self)@.config == old(self)@.config,
            source_drawn(old(self)@, max_packets as nat, min_samples, final(self)@, r.0@, r.1),
            final(self).clock() == old(self).clock(),
    {
        let ghost start = self@.tracker;
        let ghost asked = self@.answers;
        let ghost mut packets: Seq<TcpPacketInfo> = Seq::empty();
        let mut told: Vec<FlowStats> = Vec::new();
        let mut processed: usize = 0;
        assert(asked + given(packets) =~= asked);
        while processed < max_packets
            invariant
                processed <= max_packets,
                packets.len() == processed,
                self@.answers == asked + given(packets),
                self.wf(),
                self@.config == old(self)@.config,
                self.clock() == old(self).clock(),
                start == old(self)@.tracker,
                asked == old(self)@.answers,
                packets_told(start, packets, self@.tracker, min_samples, told@),
            decreases max_packets - processed,
        {
            let ghost mid = self@.tracker;
            let ghost so_far = told@;
            let answer = self.capture.ask();
            match answer {
                Some(Ok(packet)) => {
                    if let Some(stats) = self.take_packet(packet, min_samples) {
                        told.push(stats);
                    }
                    proof {
                        let longer = packets.push(packet);
                        assert(longer.drop_last() =~= packets);
                        assert(longer.last() == packet);
                        assert(packet_told(
                            mid,
                            longer.last(),
                            self@.tracker,
                            min_samples,
                            so_far,
                            told@,
                        ));
                        assert(asked + given(longer) =~= (asked + given(packets)).push(answer));
                        packets = longer;
                    }
                },
                Some(Err(e)) => {
                    assert(packets_told(start, packets, self@.tracker, min_samples, told@));
                    assert(source_asked(asked, packets, max_packets as nat, Some(e), self@.answers));
                    return (told, Some(e));
                },
                None => {
                    assert(packets_told(start, packets, self@.tracker, min_samples, told@));
                    assert(source_asked(asked, packets, max_packets as nat, None, self@.answers));
                    return (told, None);
                },
            }
            processed = processed + 1;
        }
        assert(source_asked(asked, packets, max_packets as nat, None, self@.answers));
        (told, None)
    }

    /// Process a batch of packets and return the flows seen so far
    ///
    /// Up to `max_packets` packets are taken from the source, fewer where it has no more. The
    /// flows that the batch completed come first, in the order of their completion, and then the
    /// active ones. An error of the source ends the batch; the packets before it have been
    /// tracked.
    pub fn process_batch(&mut self, max_packets: usize) -> (r: Result<Vec<FlowStats>, Error>)
        requires
            old(self).wf(),
        ensures
            final(self).wf(),
            final(self)@.config == old(self)@.config,
            batch_processed(old(self)@, max_packets as nat, final(self)@, r),
            final(self).clock() == old(self).clock(),
            r matches Ok(stats) ==> exists|
                now: Instant,
                completed: Seq<FlowStats>,
                active: Seq<FlowStats>,
            |
                #![trigger final(self).clock().showed(now), completed + active]
                {
                    &&& final(self).clock().showed(now)
                    &&& source_drawn(
                        old(self)@,
                        max_packets as nat,
                        0,
                        final(self)@,
                        completed,
                        None,
                    )
                    &&& lists_stats(
                        active,
                        active_only(
                            final(self)@.tracker.flows,
                            now,
                            final(self)@.config.flow_timeout,
                        ),
                    )
                    &&& stats@ == completed + active
                },
            r matches Err(e) ==> final(self)@.answers.last() == Some(
                Err::<TcpPacketInfo, Error>(e),
            ),
    {
        let (told, failure) = self.take_packets(max_packets, 0);
        if let Some(e) = failure {
            return Err(e);
        }
        let active = self.all_flow_stats();
        let ghost completed = told@;
        assert(source_drawn(old(self)@, max_packets as nat, 0, self@, completed, None));
        let mut stats = told;
        let mut i: usize = 0;
        while i < active.len()
            invariant
                i <= active@.len(),
                stats@ == completed + active@.take(i as int),
            decreases active@.len() - i,
        {
            stats.push(active[i]);
            assert(active@.take(i + 1) =~= active@.take(i as int).push(active@[i as int]));
            i = i + 1;
        }
        assert(active@.take(active@.len() as int) =~= active@);
        let r: Result<Vec<FlowStats>, Error> = Ok(stats);
        assert(lists_batch(self@, completed, active@, r->Ok_0@));
        r
    }

    /// Process packets until the source has no more, or fails
    ///
    /// Returns the statistics of the flows that the packets completed, as far as they have enough
    /// samples, and the error of the source.
    pub fn process_all(&mut self) -> (r: (Vec<FlowStats>, Option<Error>))
        requires
            old(self).wf(),
        ensures
            final(self).wf(),
            final(self)@.config == old(self)@.config,
            source_drawn(
                old(self)@,
                usize::MAX as nat,
                old(self)@.config.min_samples,
                final(self)@,
                r.0@,
                r.1,
            ),
            final(self).clock() == old(self).clock(),
            r.1 matches Some(e) ==> final(self)@.answers.last() == Some(
                Err::<TcpPacketInfo, Error>(e),
            ),
    {
        self.take_packets(usize::MAX, self.config.min_samples)
    }
}

/// Looking at one more flow extends the list of statistics.
proof fn lemma_next_stats(
    flows: Seq<FlowModel>,
    n: int,
    before: Seq<FlowStats>,
    after: Seq<FlowStats>,
    min: u64,
)
    requires
        ascending(keys_of(flows)),
        0 <= n < flows.len(),
        lists_stats(before, sampled(table_of(flows.take(n)), min)),
        after == if flows[n].samples.len() >= min {
            before.push(stats_of_flow(flows[n]))
        } else {
            before
        },
    ensures
        lists_stats(after, sampled(table_of(flows.take(n + 1)), min)),
{
    let old_part = flows.take(n);
    let new_part = flows.take(n + 1);
    assert(ascending(keys_of(old_part))) by {
        assert(keys_of(old_part) =~= keys_of(flows).take(n));
    }
    assert(ascending(keys_of(new_part))) by {
        assert(keys_of(new_part) =~= keys_of(flows).take(n + 1));
    }
    lemma_table(old_part);
    lemma_table(new_part);
    assert(new_part[n] == flows[n]);
    assert forall|k: FlowKey| table_of(old_part).contains_key(k) implies table_of(
        new_part,
    ).contains_key(k) && table_of(new_part)[k] == table_of(old_part)[k] && k.precedes(
        flows[n].key,
    ) by {
        let i = choose|i: int| 0 <= i < old_part.len() && (#[trigger] old_part[i]).key == k;
        assert(new_part[i] == old_part[i]);
        assert(keys_of(flows)[i].precedes(keys_of(flows)[n]));
    }
    let was = sampled(table_of(old_part), min);
    let is = sampled(table_of(new_part), min);
    assert forall|k: FlowKey| #[trigger] is.contains_key(k) implies exists|i: int|
        0 <= i < after.len() && (#[trigger] after[i]).key == k by {
        let i = choose|i: int| 0 <= i < new_part.len() && (#[trigger] new_part[i]).key == k;
        if i < n {
            assert(old_part[i] == new_part[i]);
            assert(was.contains_key(k));
            let j = choose|j: int| 0 <= j < before.len() && (#[trigger] before[j]).key == k;
            assert(after[j] == before[j]);
        } else {
            assert(after[before.len() as int].key == k);
        }
    }
    assert forall|i: int| #![trigger after[i]] 0 <= i < after.len() implies is.contains_key(
        after[i].key,
    ) && after[i] == stats_of_flow(is[after[i].key]) by {
        if i < before.len() {
            assert(after[i] == before[i]);
            assert(was.contains_key(before[i].key));
        }
    }
    assert forall|i: int, j: int| 0 <= i < j < stats_keys(after).len() implies (
    #[trigger] stats_keys(after)[i]).precedes(#[trigger] stats_keys(after)[j]) by {
        assert(after[i] == before[i]);
        if j < before.len() {
            assert(after[j] == before[j]);
            assert(stats_keys(before)[i].precedes(stats_keys(before)[j]));
        } else {
            assert(was.contains_key(before[i].key));
        }
    }
}

/// What a monitor does after an answer of its packet source.
#[derive(Debug, Clone, Copy, PartialEq, Eq, Structural)]
pub enum NextAction {
    /// Tell of the completed flow, if there is one, and ask for another packet.
    Continue { completed: Option<FlowStats> },
    /// Tell of the completed flow, if there is one, report, and ask for another packet.
    Report { completed: Option<FlowStats> },
    /// Make the last report.
    Finish,
}

/// Where a monitor takes its packets from.
#[derive(Debug)]
pub enum CaptureTarget {
    /// A pcap file, by its path.
    PcapFile(String),
    /// A network interface, by its name.
    Interface(String),
}

/// A monitor that is to be opened.
#[derive(Debug)]
pub struct MonitorPlan {
    pub target: CaptureTarget,
    pub config: MonitorConfig,
}

/// Builder for PassiveMonitor
#[derive(Debug)]
pub struct MonitorBuilder {
    pub interface: Option<String>,
    pub pcap_path: Option<String>,
    pub config: MonitorConfig,
}

/// Nothing was set yet.
pub open spec fn is_new_builder(b: MonitorBuilder) -> bool {
    b.interface is None && b.pcap_path is None && is_default_config(b.config)
}

impl MonitorBuilder {
    /// Create a new builder
    pub fn new() -> (builder: Self)
        ensures
            is_new_builder(builder),
            builder.interface is None,
            builder.pcap_path is None,
            builder.config.flow_timeout.nanos == 60_000_000_000,
            builder.config.max_flows == 10_000,
            builder.config.filter@ == "tcp"@,
            builder.config.stats_interval.nanos == 10_000_000_000,
            builder.config.min_samples == 1,
    {
        MonitorBuilder { interface: None, pcap_path: None, config: MonitorConfig::default() }
    }

    /// Set the network interface
    pub fn interface(self, interface: &str) -> (builder: Self)
        ensures
            builder.interface matches Some(name) && name@ == interface@,
            builder == (MonitorBuilder { interface: builder.interface, ..self }),
    {
        MonitorBuilder { interface: Some(interface.to_owned()), ..self }
    }

    /// Set the pcap file path
    pub fn pcap_file(self, path: &str) -> (builder: Self)
        ensures
            builder.pcap_path matches Some(name) && name@ == path@,
            builder == (MonitorBuilder { pcap_path: builder.pcap_path, ..self }),
    {
        MonitorBuilder { pcap_path: Some(path.to_owned()), ..self }
    }

    /// Set flow timeout
    pub fn flow_timeout(self, timeout: Duration) -> (builder: Self)
        ensures
            builder == (MonitorBuilder {
                config: MonitorConfig { flow_timeout: timeout, ..self.config },
                ..self
            }),
    {
        MonitorBuilder { config: self.config.with_timeout(timeout), ..self }
    }

    /// Set max flows
    pub fn max_flows(self, max: usize) -> (builder: Self)
        ensures
            builder == (MonitorBuilder {
                config: MonitorConfig { max_flows: max, ..self.config },
                ..self
            }),
    {
        MonitorBuilder { config: MonitorConfig { max_flows: max, ..self.config }, ..self }
    }

    /// Set BPF filter
    pub fn filter(self, filter: &str) -> (builder: Self)
        ensures
            builder.config.filter@ == filter@,
            builder == (MonitorBuilder {
                config: MonitorConfig { filter: builder.config.filter, ..self.config },
                ..self
            }),
    {
        MonitorBuilder { config: self.config.with_filter(filter), ..self }
    }

    /// Set stats reporting interval
    pub fn stats_interval(self, interval: Duration) -> (builder: Self)
        ensures
            builder == (MonitorBuilder {
                config: MonitorConfig { stats_interval: interval, ..self.config },
                ..self
            }),
    {
        MonitorBuilder { config: self.config.with_stats_interval(interval), ..self }
    }

    /// Build the plan of the monitor
    ///
    /// A pcap file goes before an interface; with neither there is nothing to open.
    pub fn build(self) -> (plan: Result<MonitorPlan, Error>)
        ensures
            match (self.pcap_path, self.interface) {
                (Some(path), _) => plan == Ok::<MonitorPlan, Error>(
                    MonitorPlan { target: CaptureTarget::PcapFile(path), config: self.config },
                ),
                (None, Some(name)) => plan == Ok::<MonitorPlan, Error>(
                    MonitorPlan { target: CaptureTarget::Interface(name), config: self.config },
                ),
                (None, None) => plan matches Err(Error::CaptureOpen(msg)) && msg@
                    == "No interface or pcap file specified"@,
            },
    {
        if let Some(path) = self.pcap_path {
            Ok(MonitorPlan { target: CaptureTarget::PcapFile(path), config: self.config })
        } else if let Some(name) = self.interface {
            Ok(MonitorPlan { target: CaptureTarget::Interface(name), config: self.config })
        } else {
            Err(Error::CaptureOpen("No interface or pcap file specified".to_owned()))
        }
    }
}

impl Default for MonitorBuilder {
    fn default() -> (builder: Self)
        ensures
            is_new_builder(builder),
            builder.interface is None,
            builder.pcap_path is None,
            builder.config.flow_timeout.nanos == 60_000_000_000,
            builder.config.max_flows == 10_000,
            builder.config.filter@ == "tcp"@,
            builder.config.stats_interval.nanos == 10_000_000_000,
            builder.config.min_samples == 1,
    {
        Self::new()
    }
}

} // verus!

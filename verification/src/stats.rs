//! RTT statistics computation using HDR histograms

use vstd::multiset::Multiset;
use vstd::prelude::*;
use vstd::slice::slice_subrange;

use crate::addr::SocketAddr;
use crate::flow::{data_samples, handshake_rtt_of, FlowKey, FlowModel, FlowState, TrackedFlow};
use crate::histogram::{
    bin_ceiling, bin_floor, bins_are_ordered, deviation, deviation_of, highest, is_deviation_of,
    is_empty, is_greatest, is_least, is_mean_of, lies_within, lowest, mean, mean_of,
    middles_add_up_like_values, new_histogram, percentile_of, record, recorded, recorded_count,
    splits_at, sum_of_values, tops_a_bin, value_at_percentile, HISTOGRAM_DIGITS, HISTOGRAM_HIGH,
    HISTOGRAM_LOW, HISTOGRAM_TOP, MEAN_LIMIT, SPLIT_LIMIT,
};
use crate::time::{span_micros, Duration, NANOS_PER_MICRO};

verus! {

/// RTT statistics for a flow
#[derive(Debug, Clone, Copy, PartialEq, Eq, Structural)]
pub struct RttStats {
    /// Minimum RTT observed
    pub min: Duration,
    /// Maximum RTT observed
    pub max: Duration,
    /// Mean RTT
    pub mean: Duration,
    /// Median RTT (p50)
    pub p50: Duration,
    /// 95th percentile RTT
    pub p95: Duration,
    /// 99th percentile RTT
    pub p99: Duration,
    /// Number of samples
    pub sample_count: u64,
    /// Standard deviation
    pub std_dev: Duration,
}

/// A span of so many microseconds.
pub open spec fn micros(n: u64) -> Duration {
    Duration { nanos: (n * NANOS_PER_MICRO) as u128 }
}

/// A sample's microseconds, where they can be recorded: at least one, and no more than the
/// histogram has bins for.
pub open spec fn usable_micros(sample: Duration) -> Option<u64> {
    let n = span_micros(sample);
    if 0 < n <= HISTOGRAM_TOP {
        Some(n)
    } else {
        None
    }
}

/// The recorded microseconds of a list of samples.
pub open spec fn usable_values(samples: Seq<Duration>) -> Multiset<u64>
    decreases samples.len(),
{
    if samples.len() == 0 {
        Multiset::empty()
    } else {
        let earlier = usable_values(samples.drop_last());
        match usable_micros(samples.last()) {
            Some(n) => earlier.insert(n),
            None => earlier,
        }
    }
}

/// The recorded microseconds of a list of samples, in the order of the samples.
pub open spec fn recorded_list(samples: Seq<Duration>) -> Seq<u64>
    decreases samples.len(),
{
    if samples.len() == 0 {
        Seq::empty()
    } else {
        let earlier = recorded_list(samples.drop_last());
        match usable_micros(samples.last()) {
            Some(n) => earlier.push(n),
            None => earlier,
        }
    }
}

/// The list of what is recorded holds just that.
pub proof fn lemma_recorded_list(samples: Seq<Duration>)
    ensures
        recorded_list(samples).to_multiset() == usable_values(samples),
        recorded_list(samples).len() == usable_values(samples).len(),
        forall|i: int|
            0 <= i < recorded_list(samples).len() ==> 0 < #[trigger] recorded_list(samples)[i]
                <= HISTOGRAM_TOP,
    decreases samples.len(),
{
    broadcast use vstd::multiset::group_multiset_axioms;
    broadcast use vstd::seq_lib::group_to_multiset_ensures;

    if samples.len() == 0 {
        assert(recorded_list(samples).to_multiset() =~= Multiset::empty());
    } else {
        lemma_recorded_list(samples.drop_last());
        assert(recorded_list(samples).to_multiset() =~= usable_values(samples));
    }
}

/// The least of some values.
pub open spec fn least(values: Multiset<u64>) -> u64 {
    choose|v: u64| is_least(values, v)
}

/// The greatest of some values.
pub open spec fn greatest(values: Multiset<u64>) -> u64 {
    choose|v: u64| is_greatest(values, v)
}

/// The statistics of some recorded microseconds.
pub open spec fn stats_of_values(values: Multiset<u64>) -> RttStats {
    RttStats {
        min: micros(bin_floor(least(values))),
        max: micros(bin_ceiling(greatest(values))),
        mean: micros(mean_of(values)),
        p50: micros(percentile_of(values, 50)),
        p95: micros(percentile_of(values, 95)),
        p99: micros(percentile_of(values, 99)),
        sample_count: values.len() as u64,
        std_dev: micros(deviation_of(values)),
    }
}

/// The statistics of a list of samples; there are none when nothing can be recorded.
pub open spec fn stats_of_samples(samples: Seq<Duration>) -> Option<RttStats> {
    let values = usable_values(samples);
    if values.len() == 0 {
        None
    } else {
        Some(stats_of_values(values))
    }
}

/// The minimum, the percentiles and the maximum follow one another in order.
pub open spec fn well_ordered(s: RttStats) -> bool {
    s.min.nanos <= s.p50.nanos <= s.p95.nanos <= s.p99.nanos <= s.max.nanos
}

/// The percentiles of a list of samples are what their name says. Each is the highest value in
/// the bin of a recorded sample, and, up to `SPLIT_LIMIT` samples, splits them at its percentage.
pub open spec fn percentiles_split(samples: Seq<Duration>) -> bool {
    let values = usable_values(samples);
    values.len() > 0 ==> {
        &&& tops_a_bin(values, percentile_of(values, 50))
        &&& tops_a_bin(values, percentile_of(values, 95))
        &&& tops_a_bin(values, percentile_of(values, 99))
        &&& samples.len() <= SPLIT_LIMIT ==> {
            &&& splits_at(values, 50, percentile_of(values, 50))
            &&& splits_at(values, 95, percentile_of(values, 95))
            &&& splits_at(values, 99, percentile_of(values, 99))
        }
    }
}

/// The mean lies between the minimum and the maximum.
pub open spec fn mean_within(s: RttStats) -> bool {
    s.min.nanos <= s.mean.nanos <= s.max.nanos
}

/// A sample's whole microseconds, in 64 bits.
pub fn sample_micros(sample: Duration) -> (n: u64)
    ensures
        n == span_micros(sample),
        sample.nanos < 18_446_744_073_709_551_616_000 ==> 1_000 * n <= sample.nanos < 1_000 * n
            + 1_000,
{
    let whole: u128 = sample.as_micros();
    assert(whole as u64 == whole % 0x1_0000_0000_0000_0000) by (bit_vector);
    whole as u64
}

/// Everything recorded of a list of samples lies within the bins, and there is no more of it
/// than there are samples.
pub proof fn lemma_usable_values(samples: Seq<Duration>)
    ensures
        forall|v: u64| #[trigger]
            usable_values(samples).contains(v) ==> 0 < v <= HISTOGRAM_TOP,
        usable_values(samples).len() <= samples.len(),
    decreases samples.len(),
{
    broadcast use vstd::multiset::group_multiset_axioms;

    if samples.len() > 0 {
        lemma_usable_values(samples.drop_last());
        let earlier = usable_values(samples.drop_last());
        assert forall|v: u64| #[trigger] usable_values(samples).contains(v) implies 0 < v
            <= HISTOGRAM_TOP by {
            if !earlier.contains(v) {
                assert(usable_micros(samples.last()) == Some(v));
            }
        }
    }
}

/// A mean shares out the sum of the values but for a 2048th, the fraction and a thirty-second.
proof fn lemma_mean_shares(list: Seq<u64>, r: u64)
    requires
        forall|i: int| 0 <= i < list.len() ==> #[trigger] list[i] <= HISTOGRAM_TOP,
        is_mean_of(list, r),
    ensures
        ({
            let shared = list.len() * (1_000 * r);
            let total = 1_000 * sum_of_values(list);
            &&& 65_536 * shared <= 65_568 * total + 2_048 * (1_000 * list.len())
            &&& 65_504 * total <= 65_536 * shared + 67_584 * (1_000 * list.len())
        }),
{
    middles_add_up_like_values(list);
    let n = list.len();
    assert(n * (1_000 * r) == 1_000 * (n * r)) by (nonlinear_arith);
}

impl RttStats {
    /// Statistics from the figures of a histogram of microseconds.
    pub fn from_micros(
        min: u64,
        max: u64,
        mean: u64,
        p50: u64,
        p95: u64,
        p99: u64,
        sample_count: u64,
        std_dev: u64,
    ) -> (stats: Self)
        ensures
            stats == (RttStats {
                min: micros(min),
                max: micros(max),
                mean: micros(mean),
                p50: micros(p50),
                p95: micros(p95),
                p99: micros(p99),
                sample_count,
                std_dev: micros(std_dev),
            }),
            stats.min.nanos == 1_000 * min,
            stats.max.nanos == 1_000 * max,
            stats.mean.nanos == 1_000 * mean,
            stats.p50.nanos == 1_000 * p50,
            stats.p95.nanos == 1_000 * p95,
            stats.p99.nanos == 1_000 * p99,
            stats.sample_count == sample_count,
            stats.std_dev.nanos == 1_000 * std_dev,
    {
        RttStats {
            min: Duration::from_micros(min),
            max: Duration::from_micros(max),
            mean: Duration::from_micros(mean),
            p50: Duration::from_micros(p50),
            p95: Duration::from_micros(p95),
            p99: Duration::from_micros(p99),
            sample_count,
            std_dev: Duration::from_micros(std_dev),
        }
    }

    /// Compute statistics from RTT samples
    ///
    /// Samples under one microsecond, and those beyond what the histogram has bins for, do not
    /// count.
    pub fn from_samples(samples: &[Duration]) -> (stats: Option<Self>)
        ensures
            stats == stats_of_samples(samples@),
            stats matches Some(s) ==> well_ordered(s),
            stats matches Some(s) ==> s.sample_count == usable_values(samples@).len(),
            stats matches Some(s) ==> 1 <= s.sample_count <= samples@.len(),
            stats is Some && samples@.len() <= MEAN_LIMIT ==> mean_within(stats->Some_0),
            percentiles_split(samples@),
            stats is Some <==> recorded_list(samples@).len() > 0,
            stats matches Some(s) ==> s.sample_count == recorded_list(samples@).len(),
            stats matches Some(s) ==> s.min.nanos <= s.p50.nanos <= s.p95.nanos <= s.p99.nanos
                <= s.max.nanos,
            stats matches Some(s) ==> exists|v: u64| #[trigger]
                is_least(usable_values(samples@), v) && s.min.nanos == 1_000 * bin_floor(v),
            stats matches Some(s) ==> exists|v: u64| #[trigger]
                is_greatest(usable_values(samples@), v) && s.max.nanos == 1_000 * bin_ceiling(v),
            stats matches Some(s) ==> {
                let values = usable_values(samples@);
                &&& s.mean.nanos == 1_000 * mean_of(values)
                &&& s.std_dev.nanos == 1_000 * deviation_of(values)
                &&& s.p50.nanos == 1_000 * percentile_of(values, 50)
                &&& s.p95.nanos == 1_000 * percentile_of(values, 95)
                &&& s.p99.nanos == 1_000 * percentile_of(values, 99)
            },
            stats is Some && samples@.len() <= 35_184_372_088_832 ==> {
                let values = usable_values(samples@);
                &&& splits_at(values, 50, (stats->Some_0.p50.nanos / 1_000) as u64)
                &&& splits_at(values, 95, (stats->Some_0.p95.nanos / 1_000) as u64)
                &&& splits_at(values, 99, (stats->Some_0.p99.nanos / 1_000) as u64)
            },
            stats is Some && samples@.len() <= 549_755_813_888 ==> {
                let s = stats->Some_0;
                let shared = s.sample_count * s.mean.nanos;
                let total = 1_000 * sum_of_values(recorded_list(samples@));
                let each = 1_000 * s.sample_count;
                &&& s.min.nanos <= s.mean.nanos <= s.max.nanos
                &&& 65_536 * shared <= 65_568 * total + 2_048 * each
                &&& 65_504 * total <= 65_536 * shared + 67_584 * each
            },
            stats is Some && samples@.len() <= 549_755_813_888 ==> is_mean_of(
                recorded_list(samples@),
                (stats->Some_0.mean.nanos / 1_000) as u64,
            ),
            stats is Some && samples@.len() <= 549_755_813_888 ==> is_deviation_of(
                recorded_list(samples@),
                (stats->Some_0.std_dev.nanos / 1_000) as u64,
            ),
    {
        // Create histogram (microsecond precision, up to 1 hour)
        let mut hist = new_histogram(HISTOGRAM_LOW, HISTOGRAM_HIGH, HISTOGRAM_DIGITS).unwrap();
        let mut i: usize = 0;
        while i < samples.len()
            invariant
                i <= samples@.len(),
                recorded(hist) == usable_values(samples@.take(i as int)),
            decreases samples@.len() - i,
        {
            proof {
                lemma_usable_values(samples@.take(i as int));
                assert(samples@.take(i + 1).drop_last() =~= samples@.take(i as int));
            }
            let n: u64 = sample_micros(samples[i]);
            if n > 0 {
                let _ = record(&mut hist, n);
            }
            i = i + 1;
        }
        assert(samples@.take(samples@.len() as int) =~= samples@);
        proof {
            lemma_recorded_list(samples@);
        }
        if is_empty(&hist) {
            return None;
        }
        let min: u64 = lowest(&hist);
        let max: u64 = highest(&hist);
        let middle: u64 = mean(&hist);
        let spread: u64 = deviation(&hist);
        let p50: u64 = value_at_percentile(&hist, 50);
        let p95: u64 = value_at_percentile(&hist, 95);
        let p99: u64 = value_at_percentile(&hist, 99);
        proof {
            let values = usable_values(samples@);
            lemma_usable_values(samples@);
            let low = choose|v: u64| #[trigger] is_least(values, v) && min == bin_floor(v);
            let high = choose|v: u64| #[trigger] is_greatest(values, v) && max == bin_ceiling(v);
            assert(least(values) == low);
            assert(greatest(values) == high);
            let mid = choose|v: u64| #[trigger] values.contains(v) && p50 == bin_ceiling(v);
            let top = choose|v: u64| #[trigger] values.contains(v) && p99 == bin_ceiling(v);
            bins_are_ordered(low, mid);
            bins_are_ordered(mid, mid);
            bins_are_ordered(top, high);
            if samples@.len() <= MEAN_LIMIT {
                assert(lies_within(values, middle));
                let (lo, hi) = choose|lo: u64, hi: u64| #[trigger]
                    is_least(values, lo) && #[trigger] is_greatest(values, hi) && bin_floor(lo)
                        <= middle <= bin_ceiling(hi);
                assert(lo == low && hi == high);
                lemma_mean_shares(recorded_list(samples@), middle);
            }
        }
        Some(
            RttStats::from_micros(
                min,
                max,
                middle,
                p50,
                p95,
                p99,
                recorded_count(&hist),
                spread,
            ),
        )
    }
}

/// Complete flow statistics including endpoints and RTT
#[derive(Debug, Clone, Copy, PartialEq, Eq, Structural)]
pub struct FlowStats {
    /// Source address (initiator)
    pub src: SocketAddr,
    /// Destination address (responder)
    pub dst: SocketAddr,
    /// Flow key
    pub key: FlowKey,
    /// Handshake RTT (SYN -> SYN-ACK)
    pub handshake_rtt: Option<Duration>,
    /// RTT statistics from data transfer
    pub rtt: Option<RttStats>,
    /// Number of RTT samples
    pub sample_count: u64,
    /// Packets observed
    pub packets: u64,
    /// Bytes observed
    pub bytes: u64,
    /// Convenience: p50 RTT, empty when there are no statistics
    pub rtt_p50: Duration,
    /// Convenience: p99 RTT, empty when there are no statistics
    pub rtt_p99: Duration,
}

/// Which figures of a flow are worth showing.
#[derive(Debug, Clone, Copy, PartialEq, Eq, Structural)]
pub enum Headline {
    /// Percentiles, with the number of samples.
    Percentiles { p50: Duration, p95: Duration, p99: Duration, samples: u64 },
    /// The handshake alone.
    HandshakeOnly { handshake: Duration },
    /// Nothing was measured.
    NoData,
}

/// The endpoints of a flow, the initiator first.
pub open spec fn endpoints(m: FlowModel) -> (SocketAddr, SocketAddr) {
    (m.initiator, other_end(m.key, m.initiator))
}

/// The end of a flow that is not `end`.
pub open spec fn other_end(key: FlowKey, end: SocketAddr) -> SocketAddr {
    if end == key.addr_a {
        key.addr_b
    } else {
        key.addr_a
    }
}

/// The statistics of a flow.
pub open spec fn stats_of_flow(m: FlowModel) -> FlowStats {
    let rtt = stats_of_samples(data_samples(m));
    FlowStats {
        src: endpoints(m).0,
        dst: endpoints(m).1,
        key: m.key,
        handshake_rtt: handshake_rtt_of(m),
        rtt,
        sample_count: m.samples.len() as u64,
        packets: m.packets,
        bytes: m.bytes,
        rtt_p50: p50_or_zero(rtt),
        rtt_p99: p99_or_zero(rtt),
    }
}

/// The median, or nothing.
pub open spec fn p50_or_zero(rtt: Option<RttStats>) -> Duration {
    match rtt {
        Some(r) => r.p50,
        None => Duration { nanos: 0 },
    }
}

/// The 99th percentile, or nothing.
pub open spec fn p99_or_zero(rtt: Option<RttStats>) -> Duration {
    match rtt {
        Some(r) => r.p99,
        None => Duration { nanos: 0 },
    }
}

/// The median and the 99th percentile, or nothing.
fn median_and_p99(rtt: &Option<RttStats>) -> (r: (Duration, Duration))
    ensures
        r == (p50_or_zero(*rtt), p99_or_zero(*rtt)),
        match *rtt {
            Some(s) => r == (s.p50, s.p99),
            None => r.0.nanos == 0 && r.1.nanos == 0,
        },
{
    match rtt {
        Some(stats) => (stats.p50, stats.p99),
        None => (Duration::zero(), Duration::zero()),
    }
}

/// The figures worth showing.
pub open spec fn headline_of(s: FlowStats) -> Headline {
    match (s.rtt, s.handshake_rtt) {
        (Some(r), _) => Headline::Percentiles {
            p50: r.p50,
            p95: r.p95,
            p99: r.p99,
            samples: s.sample_count,
        },
        (None, Some(handshake)) => Headline::HandshakeOnly { handshake },
        (None, None) => Headline::NoData,
    }
}

impl FlowStats {
    /// Create flow stats from a tracked flow
    pub fn from_flow(flow: &TrackedFlow) -> (stats: Self)
        ensures
            stats == stats_of_flow(flow@),
            stats.key == flow.key,
            stats.src == flow.initiator,
            stats.dst == if flow.initiator == flow.key.addr_a {
                flow.key.addr_b
            } else {
                flow.key.addr_a
            },
            stats.packets == flow.packets_seen,
            stats.bytes == flow.bytes_seen,
            stats.sample_count == flow.rtt_samples@.len(),
            match flow.state {
                FlowState::Established { handshake_rtt, .. } => stats.handshake_rtt == Some(
                    handshake_rtt,
                ),
                _ => stats.handshake_rtt is None,
            },
            flow.rtt_samples@.len() > 0 ==> stats.rtt == stats_of_samples(
                flow.rtt_samples@.subrange(1, flow.rtt_samples@.len() as int),
            ),
            flow.rtt_samples@.len() <= 1 ==> stats.rtt is None,
            match stats.rtt {
                Some(r) => stats.rtt_p50 == r.p50 && stats.rtt_p99 == r.p99 && stats.rtt_p50.nanos
                    <= stats.rtt_p99.nanos,
                None => stats.rtt_p50.nanos == 0 && stats.rtt_p99.nanos == 0,
            },
            stats.sample_count == flow@.samples.len(),
            stats.rtt matches Some(r) ==> well_ordered(r),
            stats.rtt is Some && flow@.samples.len() <= MEAN_LIMIT ==> mean_within(
                stats.rtt->Some_0,
            ),
            percentiles_split(data_samples(flow@)),
    {
        // The first sample is that of the handshake
        let samples = flow.rtt_samples.as_slice();
        let data = if samples.len() > 0 {
            slice_subrange(samples, 1, samples.len())
        } else {
            samples
        };
        let rtt = RttStats::from_samples(data);
        let (rtt_p50, rtt_p99) = median_and_p99(&rtt);
        let src = flow.initiator;
        let dst = if src == flow.key.addr_a {
            flow.key.addr_b
        } else {
            flow.key.addr_a
        };
        FlowStats {
            src,
            dst,
            key: flow.key,
            handshake_rtt: flow.handshake_rtt(),
            rtt,
            sample_count: flow.rtt_samples.len() as u64,
            packets: flow.packets_seen,
            bytes: flow.bytes_seen,
            rtt_p50,
            rtt_p99,
        }
    }

    /// Check if we have meaningful RTT data
    pub fn has_rtt_data(&self) -> (b: bool)
        ensures
            b == (self.sample_count > 0),
    {
        self.sample_count > 0
    }

    /// Chooses the figures worth showing: the percentiles where there are any, else the
    /// handshake.
    pub fn headline(&self) -> (h: Headline)
        ensures
            h == headline_of(*self),
            match self.rtt {
                Some(r) => h == (Headline::Percentiles {
                    p50: r.p50,
                    p95: r.p95,
                    p99: r.p99,
                    samples: self.sample_count,
                }),
                None => match self.handshake_rtt {
                    Some(handshake) => h == (Headline::HandshakeOnly { handshake }),
                    None => h is NoData,
                },
            },
    {
        if let Some(rtt) = self.rtt {
            Headline::Percentiles {
                p50: rtt.p50,
                p95: rtt.p95,
                p99: rtt.p99,
                samples: self.sample_count,
            }
        } else if let Some(handshake) = self.handshake_rtt {
            Headline::HandshakeOnly { handshake }
        } else {
            Headline::NoData
        }
    }
}

/// Aggregated statistics across multiple flows
#[derive(Debug, Clone, Copy, PartialEq, Eq, Structural)]
pub struct AggregateStats {
    /// Total flows observed
    pub flow_count: u64,
    /// Flows with RTT data
    pub flows_with_rtt: u64,
    /// Total RTT samples
    pub total_samples: u64,
    /// Global p50 across all flows
    pub global_p50: Duration,
    /// Global p99 across all flows
    pub global_p99: Duration,
}

/// The samples that stand for a list of flows: the median of each, once for every sample that
/// it has.
pub open spec fn pooled_samples(flows: Seq<FlowStats>) -> Seq<Duration>
    decreases flows.len(),
{
    if flows.len() == 0 {
        Seq::empty()
    } else {
        let last = flows.last();
        pooled_samples(flows.drop_last()) + match last.rtt {
            Some(r) => Seq::new(last.sample_count as nat, |i: int| r.p50),
            None => Seq::empty(),
        }
    }
}

/// How many of the flows have samples.
pub open spec fn count_with_rtt(flows: Seq<FlowStats>) -> nat
    decreases flows.len(),
{
    if flows.len() == 0 {
        0
    } else if flows.last().sample_count > 0 {
        count_with_rtt(flows.drop_last()) + 1
    } else {
        count_with_rtt(flows.drop_last())
    }
}

/// How many samples the flows have together.
pub open spec fn sample_total(flows: Seq<FlowStats>) -> nat
    decreases flows.len(),
{
    if flows.len() == 0 {
        0
    } else {
        sample_total(flows.drop_last()) + flows.last().sample_count as nat
    }
}

impl AggregateStats {
    /// Compute aggregate statistics from multiple flow stats
    ///
    /// The total number of samples wraps around.
    pub fn from_flows(flows: &[FlowStats]) -> (stats: Self)
        ensures
            stats.flow_count == flows@.len(),
            stats.flows_with_rtt == count_with_rtt(flows@),
            stats.flows_with_rtt <= stats.flow_count,
            stats.total_samples == sample_total(flows@) % 0x1_0000_0000_0000_0000,
            stats.global_p50 == p50_or_zero(stats_of_samples(pooled_samples(flows@))),
            stats.global_p99 == p99_or_zero(stats_of_samples(pooled_samples(flows@))),
            stats.global_p50.nanos <= stats.global_p99.nanos,
            percentiles_split(pooled_samples(flows@)),
            match stats_of_samples(pooled_samples(flows@)) {
                Some(r) => stats.global_p50 == r.p50 && stats.global_p99 == r.p99,
                None => stats.global_p50.nanos == 0 && stats.global_p99.nanos == 0,
            },
    {
        let mut all_samples: Vec<Duration> = Vec::new();
        let mut flows_with_rtt: u64 = 0;
        let mut total_samples: u64 = 0;
        let mut i: usize = 0;
        while i < flows.len()
            invariant
                i <= flows@.len(),
                all_samples@ == pooled_samples(flows@.take(i as int)),
                flows_with_rtt == count_with_rtt(flows@.take(i as int)),
                flows_with_rtt <= i,
                total_samples == sample_total(flows@.take(i as int)) % 0x1_0000_0000_0000_0000,
            decreases flows@.len() - i,
        {
            let flow = &flows[i];
            assert(flows@.take(i + 1).drop_last() =~= flows@.take(i as int));
            if let Some(rtt) = flow.rtt {
                // The raw samples are not at hand, so the p50 is representative
                let ghost before = all_samples@;
                let mut n: u64 = 0;
                while n < flow.sample_count
                    invariant
                        n <= flow.sample_count,
                        all_samples@ == before + Seq::new(n as nat, |k: int| rtt.p50),
                    decreases flow.sample_count - n,
                {
                    all_samples.push(rtt.p50);
                    n = n + 1;
                }
            }
            if flow.has_rtt_data() {
                flows_with_rtt = flows_with_rtt + 1;
            }
            total_samples = total_samples.wrapping_add(flow.sample_count);
            i = i + 1;
        }
        assert(flows@.take(flows@.len() as int) =~= flows@);
        let global = RttStats::from_samples(all_samples.as_slice());
        let (global_p50, global_p99) = median_and_p99(&global);
        AggregateStats {
            flow_count: flows.len() as u64,
            flows_with_rtt,
            total_samples,
            global_p50,
            global_p99,
        }
    }
}

} // verus!

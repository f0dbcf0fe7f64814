//! What statistics tell of samples and of flows.

use vstd::multiset::Multiset;
use vstd::prelude::*;

use crate::flow::FlowModel;
use crate::histogram::{
    bin_middle, bin_width, bins_keep_three_digits, is_mean_of, middles_add_up_like_values, sum,
    sum_of_middles, sum_of_values, sums_add_up,
};
use crate::stats::{
    count_with_rtt, headline_of, lemma_recorded_list, micros, p50_or_zero, p99_or_zero,
    pooled_samples, recorded_list, sample_total, stats_of_flow, stats_of_samples, usable_micros,
    usable_values, FlowStats, Headline, RttStats,
};
use crate::time::{micros_fill_their_span, micros_wrap_around, Duration};

verus! {

/// A span of so many microseconds is a thousand times as many nanoseconds.
pub proof fn microseconds_are_a_thousand_nanoseconds(n: u64)
    ensures
        micros(n).nanos == 1_000 * n,
{
}

/// A sample counts from one microsecond on, up to the last value that has a bin, and it counts
/// for its whole microseconds.
pub proof fn samples_count_for_their_microseconds(d: Duration)
    requires
        d.nanos < 18_446_744_073_709_551_616_000,
    ensures
        usable_micros(d) is Some <==> 1_000 <= d.nanos < 4_294_967_296_000,
        usable_micros(d) matches Some(n) ==> 1_000 * n <= d.nanos < 1_000 * n + 1_000,
{
    micros_fill_their_span(d);
}

/// A sample that is longer than 64 bits of microseconds counts for what is beyond these.
pub proof fn long_samples_count_for_their_low_bits(d: Duration, longer: Duration)
    requires
        longer.nanos == d.nanos + 18_446_744_073_709_551_616_000,
    ensures
        usable_micros(longer) == usable_micros(d),
{
    micros_wrap_around(d, longer);
}

/// What is recorded of two lists of samples, one after the other, is what is recorded of each;
/// of one sample it is that sample, if it counts.
pub proof fn recording_goes_sample_by_sample(a: Seq<Duration>, b: Seq<Duration>, d: Duration)
    ensures
        recorded_list(a + b) == recorded_list(a) + recorded_list(b),
        recorded_list(Seq::<Duration>::empty()).len() == 0,
        usable_micros(d) is None ==> recorded_list(seq![d]).len() == 0,
        usable_micros(d) matches Some(n) ==> recorded_list(seq![d]) == seq![n],
    decreases b.len(),
{
    reveal_with_fuel(recorded_list, 2);
    assert(seq![d].drop_last() =~= Seq::<Duration>::empty());
    assert(seq![d].last() == d);
    if b.len() == 0 {
        assert(a + b =~= a);
        assert(recorded_list(a) + recorded_list(b) =~= recorded_list(a));
    } else {
        recording_goes_sample_by_sample(a, b.drop_last(), d);
        assert((a + b).drop_last() =~= a + b.drop_last());
        assert((a + b).last() == b.last());
        assert(recorded_list(a + b) =~= recorded_list(a) + recorded_list(b));
    }
    if let Some(n) = usable_micros(d) {
        assert(recorded_list(seq![d]) =~= seq![n]);
    }
}

/// The recorded values are those that are listed.
pub proof fn recorded_values_are_those_listed(samples: Seq<Duration>, v: u64)
    ensures
        usable_values(samples) == recorded_list(samples).to_multiset(),
        usable_values(samples).contains(v) <==> recorded_list(samples).contains(v),
{
    broadcast use vstd::seq_lib::group_to_multiset_ensures;

    lemma_recorded_list(samples);
}

/// What samples add up to does not depend on how they are divided.
pub proof fn recorded_sums_add_up(a: Seq<Duration>, b: Seq<Duration>, d: Duration)
    ensures
        sum_of_values(recorded_list(a + b)) == sum_of_values(recorded_list(a)) + sum_of_values(
            recorded_list(b),
        ),
        usable_micros(d) matches Some(n) ==> sum_of_values(recorded_list(seq![d])) == n,
{
    recording_goes_sample_by_sample(a, b, d);
    let one = recorded_list(a);
    let other = recorded_list(b);
    let number = |v: u64| v as nat;
    assert((one + other).map_values(number) =~= one.map_values(number) + other.map_values(number));
    sums_add_up(one.map_values(number), other.map_values(number), 0);
    if let Some(n) = usable_micros(d) {
        assert(seq![n].map_values(number) =~= seq![n as nat]);
        sums_add_up(Seq::empty(), Seq::empty(), n as nat);
    }
}

/// There are statistics of samples just where one of them counts.
pub proof fn statistics_need_a_sample_that_counts(samples: Seq<Duration>)
    ensures
        stats_of_samples(samples) is Some <==> recorded_list(samples).len() > 0,
        stats_of_samples(samples) matches Some(s) ==> recorded_list(samples).len() <= u64::MAX
            ==> s.sample_count == recorded_list(samples).len(),
{
    lemma_recorded_list(samples);
}

/// What is a mean of the recorded values, times their number, gives back their sum: within a
/// 2048th of it, for the width of the bins, and the fraction of a microsecond and a thirty-second
/// for each of them.
pub proof fn means_share_out_the_sum(samples: Seq<Duration>, mean: Duration)
    requires
        mean.nanos <= 1_000 * u64::MAX,
        is_mean_of(recorded_list(samples), (mean.nanos / 1_000) as u64),
        mean.nanos % 1_000 == 0,
    ensures
        ({
            let n = recorded_list(samples).len();
            let total = 1_000 * sum_of_values(recorded_list(samples));
            &&& 2_048 * (n * mean.nanos) <= 2_049 * total + 64 * (1_000 * n)
            &&& 2_047 * total <= 2_048 * (n * mean.nanos) + 2_112 * (1_000 * n)
        }),
{
    let list = recorded_list(samples);
    lemma_recorded_list(samples);
    middles_add_up_like_values(list);
    let r = (mean.nanos / 1_000) as u64;
    let n = list.len();
    assert(n * mean.nanos == 1_000 * (n * r)) by (nonlinear_arith)
        requires
            mean.nanos == 1_000 * r,
    ;
}

/// Samples that are all recorded as one value below 2048 have that value for a mean, or, by
/// rounding, the one below.
pub proof fn means_of_one_value_are_that_value(samples: Seq<Duration>, v: u64, mean: u64)
    requires
        v < 2_048,
        recorded_list(samples).len() > 0,
        forall|i: int|
            0 <= i < recorded_list(samples).len() ==> #[trigger] recorded_list(samples)[i] == v,
        is_mean_of(recorded_list(samples), mean),
    ensures
        mean <= v <= mean + 1,
{
    let list = recorded_list(samples);
    lemma_sum_of_one_value(list, v);
    let n = list.len();
    assert(mean <= v) by (nonlinear_arith)
        requires
            n > 0,
            32 * (n * mean) <= 32 * (n * v) + n,
    ;
    assert(v <= mean + 1) by (nonlinear_arith)
        requires
            n > 0,
            32 * (n * v) <= 32 * (n * mean) + 33 * n,
    ;
}

/// The middles of the bins of one value below 2048, listed again and again, add up to as many
/// times that value.
proof fn lemma_sum_of_one_value(list: Seq<u64>, v: u64)
    requires
        v < 2_048,
        forall|i: int| 0 <= i < list.len() ==> #[trigger] list[i] == v,
    ensures
        sum_of_middles(list) == list.len() * v,
    decreases list.len(),
{
    let middles = list.map_values(|w: u64| bin_middle(w));
    if list.len() > 0 {
        let shorter = list.drop_last();
        assert forall|i: int| 0 <= i < shorter.len() implies #[trigger] shorter[i] == v by {
            assert(shorter[i] == list[i]);
        }
        lemma_sum_of_one_value(shorter, v);
        assert(middles.drop_last() =~= shorter.map_values(|w: u64| bin_middle(w)));
        bins_keep_three_digits(v);
        assert(bin_width(v as nat) == 1);
        assert(middles.last() == v);
        let n = shorter.len();
        assert(list.len() * v == n * v + v) by (nonlinear_arith)
            requires
                list.len() == n + 1,
        ;
    } else {
        assert(list.len() * v == 0) by (nonlinear_arith)
            requires
                list.len() == 0,
        ;
    }
}

/// The statistics of a flow, field by field: its key, its ends with the initiator first, the
/// handshake of an established connection, the figures of all samples but the first, and the
/// numbers of samples, packets and bytes.
pub proof fn flow_statistics_field_by_field(m: FlowModel)
    ensures
        ({
            let s = stats_of_flow(m);
            &&& s.key == m.key
            &&& s.src == m.initiator
            &&& m.initiator == m.key.addr_a ==> s.dst == m.key.addr_b
            &&& m.initiator != m.key.addr_a ==> s.dst == m.key.addr_a
            &&& s.packets == m.packets
            &&& s.bytes == m.bytes
            &&& m.samples.len() <= u64::MAX ==> s.sample_count == m.samples.len()
            &&& m.state is Established ==> s.handshake_rtt == Some(
                m.state->Established_handshake_rtt,
            )
            &&& !(m.state is Established) ==> s.handshake_rtt is None
            &&& m.samples.len() > 0 ==> s.rtt == stats_of_samples(
                m.samples.subrange(1, m.samples.len() as int),
            )
            &&& m.samples.len() <= 1 ==> s.rtt is None
            &&& s.rtt matches Some(r) ==> s.rtt_p50 == r.p50 && s.rtt_p99 == r.p99
            &&& s.rtt is None ==> s.rtt_p50.nanos == 0 && s.rtt_p99.nanos == 0
        }),
{
    if m.samples.len() == 0 {
        assert(usable_values(m.samples).len() == 0);
    } else if m.samples.len() == 1 {
        assert(m.samples.subrange(1, 1) =~= Seq::<Duration>::empty());
        assert(usable_values(Seq::<Duration>::empty()).len() == 0);
    }
}

/// The convenience figures are the percentiles of the same name, and nothing without statistics.
pub proof fn convenience_figures_are_the_percentiles(rtt: Option<RttStats>)
    ensures
        rtt matches Some(r) ==> p50_or_zero(rtt) == r.p50 && p99_or_zero(rtt) == r.p99,
        rtt is None ==> p50_or_zero(rtt).nanos == 0 && p99_or_zero(rtt).nanos == 0,
{
}

/// The headline of a flow shows the percentiles where there are any, else the handshake where it
/// is known, else that there is nothing.
pub proof fn headline_shows_the_best_there_is(s: FlowStats)
    ensures
        s.rtt is Some <==> headline_of(s) is Percentiles,
        s.rtt is None && s.handshake_rtt is Some <==> headline_of(s) is HandshakeOnly,
        s.rtt is None && s.handshake_rtt is None <==> headline_of(s) is NoData,
        headline_of(s) matches Headline::Percentiles { p50, p95, p99, samples } ==> p50
            == s.rtt->Some_0.p50 && p95 == s.rtt->Some_0.p95 && p99 == s.rtt->Some_0.p99 && samples
            == s.sample_count,
        headline_of(s) matches Headline::HandshakeOnly { handshake } ==> s.handshake_rtt == Some(
            handshake,
        ),
{
}

/// How many samples the flows with statistics and a median of `d` have together.
pub open spec fn samples_at(flows: Seq<FlowStats>, d: Duration) -> nat {
    sum(
        flows.map_values(
            |f: FlowStats|
                if f.rtt is Some && f.rtt->Some_0.p50 == d {
                    f.sample_count as nat
                } else {
                    0
                },
        ),
    )
}

/// How many samples the flows with statistics have together.
pub open spec fn samples_with_statistics(flows: Seq<FlowStats>) -> nat {
    sum(
        flows.map_values(
            |f: FlowStats|
                if f.rtt is Some {
                    f.sample_count as nat
                } else {
                    0
                },
        ),
    )
}

/// A repeated sample is there as often as it is repeated, and no other is.
proof fn lemma_repeated(n: nat, d: Duration, e: Duration)
    ensures
        Seq::new(n, |i: int| d).to_multiset().count(e) == if e == d {
            n
        } else {
            0
        },
    decreases n,
{
    broadcast use vstd::multiset::group_multiset_axioms;
    broadcast use vstd::seq_lib::group_to_multiset_ensures;

    let all = Seq::new(n, |i: int| d);
    if n == 0 {
        assert(all.to_multiset() =~= Multiset::empty());
    } else {
        lemma_repeated((n - 1) as nat, d, e);
        assert(all =~= Seq::new((n - 1) as nat, |i: int| d).push(d));
    }
}

/// The pool of a list of flows holds every duration as often as the flows whose median it is
/// have samples, so that a flow weighs as much as it has samples.
pub proof fn flows_weigh_by_their_samples(flows: Seq<FlowStats>, d: Duration)
    ensures
        pooled_samples(flows).to_multiset().count(d) == samples_at(flows, d),
        pooled_samples(flows).len() == samples_with_statistics(flows),
    decreases flows.len(),
{
    broadcast use vstd::multiset::group_multiset_axioms;
    broadcast use vstd::seq_lib::group_to_multiset_ensures;

    let at = |f: FlowStats|
        if f.rtt is Some && f.rtt->Some_0.p50 == d {
            f.sample_count as nat
        } else {
            0
        };
    let any = |f: FlowStats|
        if f.rtt is Some {
            f.sample_count as nat
        } else {
            0
        };
    if flows.len() == 0 {
        assert(pooled_samples(flows).to_multiset() =~= Multiset::empty());
    } else {
        let shorter = flows.drop_last();
        flows_weigh_by_their_samples(shorter, d);
        assert(flows.map_values(at).drop_last() =~= shorter.map_values(at));
        assert(flows.map_values(any).drop_last() =~= shorter.map_values(any));
        let pool = pooled_samples(shorter);
        let last = flows.last();
        let more = match last.rtt {
            Some(r) => Seq::new(last.sample_count as nat, |i: int| r.p50),
            None => Seq::empty(),
        };
        vstd::seq_lib::lemma_multiset_commutative(pool, more);
        assert(pooled_samples(flows) == pool + more);
        match last.rtt {
            Some(r) => {
                lemma_repeated(last.sample_count as nat, r.p50, d);
            },
            None => {
                assert(more.to_multiset() =~= Multiset::empty());
            },
        }
    }
}

/// Aggregates of two lists of flows, one after the other, are those of each together: the pools
/// one after the other, and the numbers added up. One flow counts if it has samples, with all of
/// them.
pub proof fn aggregates_go_flow_by_flow(a: Seq<FlowStats>, b: Seq<FlowStats>, f: FlowStats)
    ensures
        pooled_samples(a + b) == pooled_samples(a) + pooled_samples(b),
        count_with_rtt(a + b) == count_with_rtt(a) + count_with_rtt(b),
        sample_total(a + b) == sample_total(a) + sample_total(b),
        pooled_samples(Seq::<FlowStats>::empty()).len() == 0,
        count_with_rtt(Seq::<FlowStats>::empty()) == 0,
        sample_total(Seq::<FlowStats>::empty()) == 0,
        f.sample_count > 0 ==> count_with_rtt(seq![f]) == 1,
        f.sample_count == 0 ==> count_with_rtt(seq![f]) == 0,
        sample_total(seq![f]) == f.sample_count,
    decreases b.len(),
{
    reveal_with_fuel(count_with_rtt, 2);
    reveal_with_fuel(sample_total, 2);
    assert(seq![f].drop_last() =~= Seq::<FlowStats>::empty());
    assert(seq![f].last() == f);
    if b.len() == 0 {
        assert(a + b =~= a);
        assert(pooled_samples(a) + pooled_samples(b) =~= pooled_samples(a));
    } else {
        aggregates_go_flow_by_flow(a, b.drop_last(), f);
        assert((a + b).drop_last() =~= a + b.drop_last());
        assert((a + b).last() == b.last());
        assert(pooled_samples(a + b) =~= pooled_samples(a) + pooled_samples(b));
    }
}

} // verus!

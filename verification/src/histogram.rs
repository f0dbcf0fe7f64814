//! Histograms of microseconds, from the `hdrhistogram` crate.

use hdrhistogram::{CreationError, Histogram, RecordError};
use vstd::arithmetic::div_mod::{lemma_mod_bound, lemma_mod_breakdown, lemma_mod_decreases};
use vstd::arithmetic::power2::{lemma2_to64, lemma_pow2_pos, lemma_pow2_unfold, pow2};
use vstd::multiset::Multiset;
use vstd::prelude::*;

verus! {

/// Lowest value that a histogram tells apart from zero.
pub const HISTOGRAM_LOW: u64 = 1;

/// Highest value that a histogram is made for: one hour in microseconds.
pub const HISTOGRAM_HIGH: u64 = 3_600_000_000;

/// Significant decimal digits that a histogram keeps.
pub const HISTOGRAM_DIGITS: u8 = 3;

/// Highest value that a histogram made for those bounds has a bin for. Bins come in powers of
/// two, so it lies above `HISTOGRAM_HIGH`.
pub const HISTOGRAM_TOP: u64 = 4_294_967_295;

/// Up to this many values, the rounding of a count times a fraction does not show in percentiles.
pub const SPLIT_LIMIT: u64 = 35_184_372_088_832;

/// Up to this many values, the rounding of sums does not take a mean out of its range.
pub const MEAN_LIMIT: u64 = 549_755_813_888;

/// A histogram made for values from `HISTOGRAM_LOW` to `HISTOGRAM_HIGH` with
/// `HISTOGRAM_DIGITS` significant digits. It does not grow.
#[verifier::external_body]
pub struct RttHistogram {
    inner: Histogram<u64>,
}

/// Why a histogram cannot be made.
#[verifier::external_type_specification]
#[verifier::external_body]
pub struct ExCreationError(CreationError);

/// Why a value cannot be recorded.
#[verifier::external_type_specification]
#[verifier::external_body]
pub struct ExRecordError(RecordError);

/// The values that a histogram has recorded.
pub uninterp spec fn recorded(h: RttHistogram) -> Multiset<u64>;

/// What `Histogram::value_at_percentile` returns for the given recorded values.
pub uninterp spec fn percentile_of(values: Multiset<u64>, percent: u32) -> u64;

/// What `Histogram::mean` returns for the given recorded values, without its fraction.
pub uninterp spec fn mean_of(values: Multiset<u64>) -> u64;

/// What `Histogram::stdev` returns for the given recorded values, without its fraction.
pub uninterp spec fn deviation_of(values: Multiset<u64>) -> u64;

/// How many values share a bin with `value`. Values below 2048 have a bin each, and from there
/// on the bins double in width with each power of two.
pub open spec fn bin_width(value: nat) -> nat
    decreases value,
{
    if value < 2048 {
        1
    } else {
        2 * bin_width(value / 2)
    }
}

/// The lowest value in the bin of `value`.
pub open spec fn bin_floor(value: u64) -> u64 {
    (value - value as nat % bin_width(value as nat)) as u64
}

/// The highest value in the bin of `value`.
pub open spec fn bin_ceiling(value: u64) -> u64 {
    (bin_floor(value) + bin_width(value as nat) - 1) as u64
}

/// `v` is a least one of `values`.
pub open spec fn is_least(values: Multiset<u64>, v: u64) -> bool {
    values.contains(v) && forall|w: u64| #[trigger] values.contains(w) ==> v <= w
}

/// `v` is a greatest one of `values`.
pub open spec fn is_greatest(values: Multiset<u64>, v: u64) -> bool {
    values.contains(v) && forall|w: u64| #[trigger] values.contains(w) ==> w <= v
}

/// `r` is the lowest value in the bin of the least one of `values`.
pub open spec fn is_lower_end(values: Multiset<u64>, r: u64) -> bool {
    exists|v: u64| #[trigger] is_least(values, v) && r == bin_floor(v)
}

/// `r` is the highest value in the bin of the greatest one of `values`.
pub open spec fn is_upper_end(values: Multiset<u64>, r: u64) -> bool {
    exists|v: u64| #[trigger] is_greatest(values, v) && r == bin_ceiling(v)
}

/// `r` is the highest value in the bin of one of `values`.
pub open spec fn tops_a_bin(values: Multiset<u64>, r: u64) -> bool {
    exists|v: u64| #[trigger] values.contains(v) && r == bin_ceiling(v)
}

/// The percentages that are asked for.
pub open spec fn is_asked_for(percent: u32) -> bool {
    percent == 50 || percent == 95 || percent == 99
}

/// `r` is no more than the value at any percentage from `percent` on that is asked for.
pub open spec fn is_below_later(values: Multiset<u64>, percent: u32, r: u64) -> bool {
    forall|later: u32|
        percent <= later && is_asked_for(later) ==> r <= #[trigger] percentile_of(values, later)
}

/// `r` lies between the ends of the bins of the least and the greatest one of `values`.
pub open spec fn lies_within(values: Multiset<u64>, r: u64) -> bool {
    exists|low: u64, high: u64| #[trigger]
        is_least(values, low) && #[trigger] is_greatest(values, high) && bin_floor(low) <= r
            <= bin_ceiling(high)
}

/// The value in the middle of the bin of `value`, the upper one of two.
pub open spec fn bin_middle(value: u64) -> nat {
    bin_floor(value) as nat + bin_width(value as nat) / 2
}

/// Some numbers added up.
pub open spec fn sum(numbers: Seq<nat>) -> nat
    decreases numbers.len(),
{
    if numbers.len() == 0 {
        0
    } else {
        sum(numbers.drop_last()) + numbers.last()
    }
}

/// Some values added up.
pub open spec fn sum_of_values(list: Seq<u64>) -> nat {
    sum(list.map_values(|v: u64| v as nat))
}

/// The middles of the bins of some values added up.
pub open spec fn sum_of_middles(list: Seq<u64>) -> nat {
    sum(list.map_values(|v: u64| bin_middle(v)))
}

/// The squares of the middles of the bins of some values added up.
pub open spec fn sum_of_squares(list: Seq<u64>) -> nat {
    sum(list.map_values(|v: u64| bin_middle(v) * bin_middle(v)))
}

/// `r` is the mean of the middles of the bins of the listed values, without its fraction, but for
/// a thirty-second.
pub open spec fn is_mean_of(list: Seq<u64>, r: u64) -> bool {
    &&& 32 * (list.len() * r) <= 32 * sum_of_middles(list) + list.len()
    &&& 32 * sum_of_middles(list) <= 32 * (list.len() * r) + 33 * list.len()
}

/// `r` is the standard deviation of the middles of the bins of the listed values, without its
/// fraction, but for a thirty-second. (The variance times the squared number of values is the
/// number of values times the sum of squares, less the square of the sum.)
pub open spec fn is_deviation_of(list: Seq<u64>, r: u64) -> bool {
    let n = list.len();
    let spread = n * sum_of_squares(list) - sum_of_middles(list) * sum_of_middles(list);
    &&& r > 0 ==> (32 * r - 1) * (32 * r - 1) * (n * n) <= 1024 * spread
    &&& 1024 * spread <= (32 * r + 33) * (32 * r + 33) * (n * n)
}

/// `r` is the mean of `values`, however they are listed.
pub open spec fn is_mean(values: Multiset<u64>, r: u64) -> bool {
    forall|list: Seq<u64>| #[trigger] list.to_multiset() == values ==> is_mean_of(list, r)
}

/// `r` is the standard deviation of `values`, however they are listed.
pub open spec fn is_deviation(values: Multiset<u64>, r: u64) -> bool {
    forall|list: Seq<u64>| #[trigger] list.to_multiset() == values ==> is_deviation_of(list, r)
}

/// At least `percent` of `values` are at most `r`, and less than `percent` of them lie below the
/// bin of `r`.
pub open spec fn splits_at(values: Multiset<u64>, percent: u32, r: u64) -> bool {
    &&& 100 * count_at_most(values, r) >= percent * values.len()
    &&& 100 * count_below(values, bin_floor(r)) < percent * values.len()
}

/// How many of `values` are at most `v`.
pub open spec fn count_at_most(values: Multiset<u64>, v: u64) -> nat {
    values.filter(|w: u64| w <= v).len()
}

/// How many of `values` are below `v`.
pub open spec fn count_below(values: Multiset<u64>, v: u64) -> nat {
    values.filter(|w: u64| w < v).len()
}

/// `Histogram::new_with_bounds`: for these bounds it succeeds, and nothing is recorded yet.
#[verifier::external_body]
pub(crate) fn new_histogram(low: u64, high: u64, digits: u8) -> (r: Result<
    RttHistogram,
    CreationError,
>)
    requires
        low == HISTOGRAM_LOW,
        high == HISTOGRAM_HIGH,
        digits == HISTOGRAM_DIGITS,
    ensures
        r is Ok,
        recorded(r->Ok_0) == Multiset::<u64>::empty(),
{
    match Histogram::new_with_bounds(low, high, digits) {
        Ok(inner) => Ok(RttHistogram { inner }),
        Err(e) => Err(e),
    }
}

/// `Histogram::record`: a value that has a bin is added to the recorded ones; any other is
/// refused and changes nothing.
#[verifier::external_body]
pub(crate) fn record(h: &mut RttHistogram, value: u64) -> (r: Result<(), RecordError>)
    requires
        recorded(*old(h)).len() < u64::MAX,
    ensures
        r is Ok <==> value <= HISTOGRAM_TOP,
        recorded(*final(h)) == if value <= HISTOGRAM_TOP {
            recorded(*old(h)).insert(value)
        } else {
            recorded(*old(h))
        },
{
    h.inner.record(value)
}

/// `Histogram::len`: how many values were recorded.
#[verifier::external_body]
pub(crate) fn recorded_count(h: &RttHistogram) -> (n: u64)
    ensures
        n == recorded(*h).len(),
{
    h.inner.len()
}

/// `Histogram::is_empty`: whether nothing was recorded.
#[verifier::external_body]
pub(crate) fn is_empty(h: &RttHistogram) -> (b: bool)
    ensures
        b == (recorded(*h).len() == 0),
{
    h.inner.is_empty()
}

/// `Histogram::min`: the lowest value in the bin of the least recorded one.
#[verifier::external_body]
pub(crate) fn lowest(h: &RttHistogram) -> (r: u64)
    requires
        recorded(*h).len() > 0,
    ensures
        is_lower_end(recorded(*h), r),
{
    h.inner.min()
}

/// `Histogram::max`: the highest value in the bin of the greatest recorded one.
#[verifier::external_body]
pub(crate) fn highest(h: &RttHistogram) -> (r: u64)
    requires
        recorded(*h).len() > 0,
    ensures
        is_upper_end(recorded(*h), r),
{
    h.inner.max()
}

/// `Histogram::value_at_percentile`, for the percentages that are asked for: the highest value
/// in the bin of a recorded one, not less than at a lower percentage. Up to `SPLIT_LIMIT` recorded
/// values its rounding does not show: at least the given percentage of them are at most the
/// result, and less than that percentage lie below the bin of the result. (The number of values
/// times the fraction is a multiple of a hundredth, and is computed with a smaller error; the
/// three fractions are not rounded up.)
#[verifier::external_body]
pub(crate) fn value_at_percentile(h: &RttHistogram, percent: u32) -> (r: u64)
    requires
        recorded(*h).len() > 0,
        is_asked_for(percent),
    ensures
        r == percentile_of(recorded(*h), percent),
        tops_a_bin(recorded(*h), r),
        is_below_later(recorded(*h), percent, r),
        recorded(*h).len() <= SPLIT_LIMIT ==> splits_at(recorded(*h), percent, r),
{
    h.inner.value_at_percentile(percent.into())
}

/// `Histogram::mean`, without its fraction. Up to `MEAN_LIMIT` recorded values it lies between the
/// lowest value in the bin of the least one and the highest in the bin of the greatest. (It adds
/// up the middles of the bins, each by its share. A bin's middle lies above its lowest value
/// where the bin is wider than one value, and elsewhere each further bin lifts the sum by more
/// than its rounding loses.) It is the mean of the middles of the bins, but for a thirty-second:
/// there are fewer than 2^15 bins, so that the rounding of all terms and sums together stays below
/// 2^-38 of the mean, which is below 2^32. How the sum is rounded within that is not stated.
#[verifier::external_body]
pub(crate) fn mean(h: &RttHistogram) -> (r: u64)
    ensures
        r == mean_of(recorded(*h)),
        0 < recorded(*h).len() <= MEAN_LIMIT ==> lies_within(recorded(*h), r),
        0 < recorded(*h).len() <= MEAN_LIMIT ==> is_mean(recorded(*h), r),
{
    h.inner.mean() as u64
}

/// `Histogram::stdev`, without its fraction. Up to `MEAN_LIMIT` recorded values it is the standard
/// deviation of the middles of the bins, but for a thirty-second: it is taken around the rounded
/// mean, which lifts it by no more than that mean is off, and the rounding of all terms and sums
/// stays below 2^-38 of it. How the sum is rounded within that is not stated.
#[verifier::external_body]
pub(crate) fn deviation(h: &RttHistogram) -> (r: u64)
    ensures
        r == deviation_of(recorded(*h)),
        0 < recorded(*h).len() <= MEAN_LIMIT ==> is_deviation(recorded(*h), r),
{
    h.inner.stdev() as u64
}

/// Histograms tell microseconds apart from one on, are made for an hour of them, and keep three
/// digits; the last bin ends with the 32 bits that an hour needs.
pub proof fn histograms_are_made_for_an_hour(micros_in_an_hour: u64)
    requires
        micros_in_an_hour == 60 * 60 * 1_000_000,
    ensures
        HISTOGRAM_LOW == 1,
        HISTOGRAM_HIGH == micros_in_an_hour,
        HISTOGRAM_DIGITS == 3,
        HISTOGRAM_HIGH <= HISTOGRAM_TOP,
        HISTOGRAM_TOP < 2 * HISTOGRAM_HIGH,
        HISTOGRAM_TOP as int + 1 == 65_536 * 65_536,
{
}

/// A bin holds at least one value.
proof fn lemma_bin_width_positive(v: nat)
    ensures
        bin_width(v) >= 1,
    decreases v,
{
    if v >= 2048 {
        lemma_bin_width_positive(v / 2);
    }
}

/// The top of a value's bin, as a natural number.
spec fn bin_top(v: nat) -> int {
    v - v % bin_width(v) + bin_width(v) - 1
}

/// Halving a value halves its bin.
proof fn lemma_bin_top_halves(v: nat)
    requires
        v >= 2048,
    ensures
        bin_top(v) == 2 * bin_top(v / 2) + 1,
{
    lemma_bin_width_positive(v / 2);
    lemma_mod_breakdown(v as int, 2, bin_width(v / 2) as int);
}

/// The top of a value's bin is not below the value.
proof fn lemma_bin_top_above(v: nat)
    ensures
        v <= bin_top(v),
        0 <= v % bin_width(v) <= v,
{
    lemma_bin_width_positive(v);
    lemma_mod_bound(v as int, bin_width(v) as int);
    lemma_mod_decreases(v, bin_width(v));
}

/// The top of a value's bin does not fall as the value grows.
proof fn lemma_bin_top_monotone(v: nat, u: nat)
    requires
        v <= u,
    ensures
        bin_top(v) <= bin_top(u),
    decreases u,
{
    lemma_bin_top_above(u);
    if v >= 2048 {
        lemma_bin_top_halves(v);
        lemma_bin_top_halves(u);
        lemma_bin_top_monotone(v / 2, u / 2);
    }
}

/// The top of a bin stays below the next power of two.
proof fn lemma_bin_top_bounded(v: nat, k: nat)
    requires
        v < 2048 * pow2(k),
    ensures
        bin_top(v) < 2048 * pow2(k),
    decreases v,
{
    lemma_pow2_pos(k);
    if v >= 2048 {
        if k == 0 {
            lemma2_to64();
        } else {
            lemma_pow2_unfold(k);
            lemma_bin_top_halves(v);
            lemma_bin_top_bounded(v / 2, (k - 1) as nat);
        }
    }
}

/// A value lies in its bin, the top of its bin does not fall as the value grows, and the bins
/// end where the histogram does.
pub proof fn bins_are_ordered(v: u64, u: u64)
    requires
        v <= u <= HISTOGRAM_TOP,
    ensures
        bin_floor(v) <= v <= bin_ceiling(v),
        bin_ceiling(v) <= bin_ceiling(u) <= HISTOGRAM_TOP,
{
    lemma_bin_top_above(v as nat);
    lemma_bin_top_above(u as nat);
    lemma_bin_top_monotone(v as nat, u as nat);
    assert(2048 * pow2(21) == 0x1_0000_0000) by {
        lemma2_to64();
    }
    lemma_bin_top_bounded(v as nat, 21);
    lemma_bin_top_bounded(u as nat, 21);
}

/// Above 2048, a bin is no wider than a 1024th of the values in it.
proof fn lemma_bin_width_fine(v: nat)
    ensures
        v >= 2048 ==> 1024 * bin_width(v) <= v,
    decreases v,
{
    if v >= 4096 {
        lemma_bin_width_fine(v / 2);
    } else if v >= 2048 {
        assert(bin_width(v / 2) == 1);
    }
}

/// A value's bin lies close around it: its ends are within a 1024th of the value, so that three
/// significant digits are kept, and up to 2047 they are the value itself.
pub proof fn bins_keep_three_digits(v: u64)
    requires
        v <= HISTOGRAM_TOP,
    ensures
        v - v / 1024 <= bin_floor(v) <= v <= bin_ceiling(v) <= v + v / 1024,
        v < 2048 ==> bin_floor(v) == v && bin_ceiling(v) == v,
{
    bins_are_ordered(v, v);
    lemma_bin_width_fine(v as nat);
    lemma_bin_width_positive(v as nat);
    lemma_mod_bound(v as int, bin_width(v as nat) as int);
}

/// The bottom of a value's bin, as a natural number.
spec fn bin_low(v: nat) -> int {
    v - v % bin_width(v)
}

/// Halving a value halves the bottom of its bin.
proof fn lemma_bin_low_halves(v: nat)
    requires
        v >= 2048,
    ensures
        bin_low(v) == 2 * bin_low(v / 2),
        bin_low(v) >= 2048,
    decreases v,
{
    lemma_bin_width_positive(v / 2);
    lemma_mod_breakdown(v as int, 2, bin_width(v / 2) as int);
    if v / 2 >= 2048 {
        lemma_bin_low_halves(v / 2);
    }
}

/// Values between the ends of a bin have that bin.
proof fn lemma_same_bin(w: nat, v: nat)
    requires
        bin_low(w) <= v <= bin_top(w),
    ensures
        bin_low(v) == bin_low(w),
        bin_top(v) == bin_top(w),
    decreases w,
{
    if w >= 2048 {
        lemma_bin_low_halves(w);
        lemma_bin_top_halves(w);
        lemma_bin_low_halves(v);
        lemma_bin_top_halves(v);
        lemma_same_bin(w / 2, v / 2);
    }
}

/// A value between the ends of a bin has that bin, and so has the bin's highest value.
pub proof fn bins_hold_their_values(w: u64, v: u64)
    requires
        w <= HISTOGRAM_TOP,
        bin_floor(w) <= v <= bin_ceiling(w),
    ensures
        bin_floor(v) == bin_floor(w),
        bin_ceiling(v) == bin_ceiling(w),
{
    bins_are_ordered(w, w);
    lemma_bin_top_above(w as nat);
    lemma_bin_top_above(v as nat);
    lemma_same_bin(w as nat, v as nat);
}

/// The middle of a value's bin is within a 2048th of the value.
pub proof fn bin_middles_are_close(v: u64)
    requires
        v <= HISTOGRAM_TOP,
    ensures
        2048 * bin_middle(v) <= 2049 * v,
        2047 * v <= 2048 * bin_middle(v),
        bin_floor(v) <= bin_middle(v) <= bin_ceiling(v),
{
    bins_are_ordered(v, v);
    lemma_bin_width_fine(v as nat);
    lemma_bin_width_positive(v as nat);
    lemma_mod_bound(v as int, bin_width(v as nat) as int);
}

/// Sums of lists that are put together add up, and the sum of one number is that number.
pub proof fn sums_add_up(a: Seq<nat>, b: Seq<nat>, x: nat)
    ensures
        sum(a + b) == sum(a) + sum(b),
        sum(seq![x]) == x,
        sum(Seq::<nat>::empty()) == 0,
    decreases b.len(),
{
    reveal_with_fuel(sum, 2);
    assert(seq![x].drop_last() =~= Seq::<nat>::empty());
    if b.len() == 0 {
        assert(a + b =~= a);
    } else {
        sums_add_up(a, b.drop_last(), x);
        assert((a + b).drop_last() =~= a + b.drop_last());
    }
}

/// The middles of bins add up to the values but for a 2048th.
pub proof fn middles_add_up_like_values(list: Seq<u64>)
    requires
        forall|i: int| 0 <= i < list.len() ==> #[trigger] list[i] <= HISTOGRAM_TOP,
    ensures
        2048 * sum_of_middles(list) <= 2049 * sum_of_values(list),
        2047 * sum_of_values(list) <= 2048 * sum_of_middles(list),
    decreases list.len(),
{
    let middles = list.map_values(|v: u64| bin_middle(v));
    let values = list.map_values(|v: u64| v as nat);
    if list.len() > 0 {
        let shorter = list.drop_last();
        assert forall|i: int| 0 <= i < shorter.len() implies #[trigger] shorter[i]
            <= HISTOGRAM_TOP by {
            assert(shorter[i] == list[i]);
        }
        middles_add_up_like_values(shorter);
        assert(middles.drop_last() =~= shorter.map_values(|v: u64| bin_middle(v)));
        assert(values.drop_last() =~= shorter.map_values(|v: u64| v as nat));
        bin_middles_are_close(list.last());
    }
}

} // verus!

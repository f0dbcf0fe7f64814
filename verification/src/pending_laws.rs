//! What becomes of segments on record.

use vstd::prelude::*;

use crate::addr::SocketAddr;
use crate::pending::{
    ack_matched, acknowledged, answered, segment_tracked, unacknowledged, PendingSegment,
};
use crate::time::{span_since, Duration, Instant};

verus! {

/// The segment that ends at `k` is on record from another end, and the acknowledgement number
/// reaches it.
pub open spec fn reached(
    pending: Map<u32, PendingSegment>,
    ack: u32,
    src: SocketAddr,
    k: u32,
) -> bool {
    &&& pending.contains_key(k)
    &&& pending[k].sender != src
    &&& ack >= k || (ack < 1_000 && k > 4_294_966_295)
}

/// The time comes after the segment by more than ten microseconds and less than thirty seconds.
pub open spec fn timely(segment: PendingSegment, now: Instant) -> bool {
    segment.send_time.nanos + 10_000 < now.nanos < segment.send_time.nanos + 30_000_000_000
}

/// An acknowledgement yields a round trip just where it reaches a segment in time, and the round
/// trip leads back to the latest such segment. Then all that it reaches leave, and else none.
pub proof fn acknowledgements_settle_what_they_reach(
    before: Map<u32, PendingSegment>,
    ack: u32,
    src: SocketAddr,
    now: Instant,
    after: Map<u32, PendingSegment>,
    rtt: Option<Duration>,
    k: u32,
)
    requires
        ack_matched(before, ack, src, now, after, rtt),
    ensures
        reached(before, ack, src, k) && timely(before[k], now) ==> rtt is Some
            && before[k].send_time.nanos + rtt->Some_0.nanos <= now.nanos,
        rtt matches Some(d) ==> exists|l: u32| #[trigger]
            reached(before, ack, src, l) && timely(before[l], now) && before[l].send_time.nanos
                + d.nanos == now.nanos,
        after.contains_key(k) <==> before.contains_key(k) && !(rtt is Some && reached(
            before,
            ack,
            src,
            k,
        )),
        after.contains_key(k) ==> after[k] == before[k],
{
    assert(acknowledged(before, ack, src, k) == reached(before, ack, src, k));
    if reached(before, ack, src, k) && timely(before[k], now) {
        assert(answered(before, ack, src, now, k));
    }
    if let Some(d) = rtt {
        let l = choose|l: u32| #[trigger]
            answered(before, ack, src, now, l) && d == span_since(now, before[l].send_time);
        assert(reached(before, ack, src, l) && timely(before[l], now));
        assert(after == unacknowledged(before, ack, src));
    }
}

/// A segment goes on record under its end, unless its sender's segment with that end is there
/// already, and nothing else changes, until there are more than a thousand. Then five hundred
/// leave, none of which was first seen later than one that stays.
pub proof fn segments_stay_until_there_are_too_many(
    before: Map<u32, PendingSegment>,
    segment: PendingSegment,
    after: Map<u32, PendingSegment>,
    k: u32,
    gone: u32,
)
    requires
        before.dom().finite(),
        segment_tracked(before, segment, after),
    ensures
        ({
            let end = segment.seq_end;
            let again = before.contains_key(end) && before[end].sender == segment.sender;
            let held = if again {
                before
            } else {
                before.insert(end, segment)
            };
            &&& held.dom().len() <= 1_000 ==> after.contains_key(k) == (k == end
                || before.contains_key(k))
            &&& held.dom().len() > 1_000 ==> after.dom().len() + 500 == held.dom().len()
            &&& after.contains_key(k) ==> k == end || before.contains_key(k)
            &&& after.contains_key(k) && (k != end || again) ==> after[k] == before[k]
            &&& after.contains_key(end) && !again ==> after[end] == segment
            &&& held.contains_key(gone) && !after.contains_key(gone) && after.contains_key(k)
                ==> held[gone].send_time.nanos <= held[k].send_time.nanos
        }),
{
}

} // verus!

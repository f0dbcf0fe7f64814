//! Data segments that wait for their acknowledgement.

use std::collections::HashMap;

use vstd::prelude::*;

use crate::addr::SocketAddr;
use crate::time::{span_since, Duration, Instant};

verus! {

broadcast use vstd::std_specs::hash::group_hash_axioms;

/// A flow never keeps more unacknowledged segments than this.
pub const PENDING_LIMIT: usize = 1000;

/// How many of the oldest segments are dropped once the limit is passed.
pub const PENDING_DROP: usize = 500;

/// Acknowledgement numbers below this count as freshly wrapped around, and segment ends above
/// `u32::MAX` less this as about to wrap.
pub const WRAP_WINDOW: u32 = 1000;

/// A data round trip takes longer than this many nanoseconds.
pub const MIN_DATA_RTT_NANOS: u128 = 10_000;

/// A data round trip takes less than this many nanoseconds.
pub const MAX_DATA_RTT_NANOS: u128 = 30_000_000_000;

/// A data segment waiting for ACK
#[derive(Debug, Clone, Copy, PartialEq, Eq, Structural)]
pub struct PendingSegment {
    /// Who sent the segment.
    pub sender: SocketAddr,
    /// When the segment was first seen.
    pub send_time: Instant,
    /// Sequence number just past the segment.
    pub seq_end: u32,
    /// Number of payload bytes.
    pub payload_len: u16,
}

/// An acknowledgement number covers a segment that ends at or below it, or that ends just
/// before the sequence space wraps when the acknowledgement is just past the wrap.
pub open spec fn covers(ack: u32, seq_end: u32) -> bool {
    ack >= seq_end || (ack < WRAP_WINDOW && seq_end > u32::MAX - WRAP_WINDOW)
}

/// Round trips of data that are believed: more than 10 microseconds, less than 30 seconds.
pub open spec fn plausible(rtt: Duration) -> bool {
    MIN_DATA_RTT_NANOS < rtt.nanos < MAX_DATA_RTT_NANOS
}

/// The segment ending at `k` is acknowledged by a packet of `src` with acknowledgement number
/// `ack`. Nobody acknowledges their own data.
pub open spec fn acknowledged(
    pending: Map<u32, PendingSegment>,
    ack: u32,
    src: SocketAddr,
    k: u32,
) -> bool {
    pending.contains_key(k) && pending[k].sender != src && covers(ack, k)
}

/// The segment ending at `k` is acknowledged at `now`, a plausible time after it was first seen.
pub open spec fn answered(
    pending: Map<u32, PendingSegment>,
    ack: u32,
    src: SocketAddr,
    now: Instant,
    k: u32,
) -> bool {
    acknowledged(pending, ack, src, k) && plausible(span_since(now, pending[k].send_time))
}

/// The segments that remain when the acknowledged ones have left.
pub open spec fn unacknowledged(
    pending: Map<u32, PendingSegment>,
    ack: u32,
    src: SocketAddr,
) -> Map<u32, PendingSegment> {
    Map::new(
        |k: u32| pending.contains_key(k) && !acknowledged(pending, ack, src, k),
        |k: u32| pending[k],
    )
}

/// `after` is `before` without `PENDING_DROP` segments, none of which was sent later than one
/// that stays.
pub open spec fn oldest_dropped(
    before: Map<u32, PendingSegment>,
    after: Map<u32, PendingSegment>,
) -> bool {
    &&& forall|k: u32| #[trigger]
        after.contains_key(k) ==> before.contains_key(k) && after[k] == before[k]
    &&& after.dom().finite()
    &&& after.dom().len() + PENDING_DROP == before.dom().len()
    &&& forall|gone: u32, kept: u32|
        #![trigger before.contains_key(gone), after.contains_key(kept)]
        before.contains_key(gone) && !after.contains_key(gone) && after.contains_key(kept)
            ==> before[gone].send_time.nanos <= before[kept].send_time.nanos
}

/// The segments on record once `segment` has been seen: one that ends where an earlier one of
/// the same sender did is a retransmission, and the earlier one stands.
pub open spec fn with_segment(
    before: Map<u32, PendingSegment>,
    segment: PendingSegment,
) -> Map<u32, PendingSegment> {
    if before.contains_key(segment.seq_end) && before[segment.seq_end].sender == segment.sender {
        before
    } else {
        before.insert(segment.seq_end, segment)
    }
}

/// Recording `segment` turns `before` into `after`.
pub open spec fn segment_tracked(
    before: Map<u32, PendingSegment>,
    segment: PendingSegment,
    after: Map<u32, PendingSegment>,
) -> bool {
    let held = with_segment(before, segment);
    if held.dom().len() > PENDING_LIMIT {
        oldest_dropped(held, after)
    } else {
        after == held
    }
}

/// `d` is the time since the latest of the answered segments was first seen.
pub open spec fn is_round_trip(
    pending: Map<u32, PendingSegment>,
    ack: u32,
    src: SocketAddr,
    now: Instant,
    d: Duration,
) -> bool {
    &&& exists|k: u32| #[trigger]
        answered(pending, ack, src, now, k) && d == span_since(now, pending[k].send_time)
    &&& forall|k: u32| #[trigger]
        answered(pending, ack, src, now, k) ==> d.nanos <= span_since(
            now,
            pending[k].send_time,
        ).nanos
}

/// An acknowledgement `ack` of `src` at `now` turns `before` into `after` and yields `rtt`. Where
/// it answers a segment, it yields the round trip and all acknowledged segments leave; else
/// nothing happens.
pub open spec fn ack_matched(
    before: Map<u32, PendingSegment>,
    ack: u32,
    src: SocketAddr,
    now: Instant,
    after: Map<u32, PendingSegment>,
    rtt: Option<Duration>,
) -> bool {
    match rtt {
        Some(d) => is_round_trip(before, ack, src, now, d) && after == unacknowledged(
            before,
            ack,
            src,
        ),
        None => after == before && forall|k: u32| !#[trigger] answered(before, ack, src, now, k),
    }
}

/// Every segment is filed under its own end, carries data, and there are not too many.
pub open spec fn pending_ok(pending: Map<u32, PendingSegment>) -> bool {
    &&& pending.dom().finite()
    &&& pending.dom().len() <= PENDING_LIMIT
    &&& forall|k: u32| #[trigger]
        pending.contains_key(k) ==> pending[k].seq_end == k && pending[k].payload_len > 0
}

/// Tests whether an acknowledgement number covers a segment.
pub fn is_covered(ack: u32, seq_end: u32) -> (b: bool)
    ensures
        b == covers(ack, seq_end),
        b == (ack >= seq_end || (ack < 1_000 && seq_end > 4_294_966_295)),
{
    ack >= seq_end || (ack < WRAP_WINDOW && seq_end > u32::MAX - WRAP_WINDOW)
}

/// Tests whether a data round trip is believed.
pub fn is_plausible(rtt: Duration) -> (b: bool)
    ensures
        b == plausible(rtt),
        b == (10_000 < rtt.nanos < 30_000_000_000),
{
    rtt.nanos < MAX_DATA_RTT_NANOS && rtt.nanos > MIN_DATA_RTT_NANOS
}

/// Finds a segment that nothing on record was sent before.
fn find_oldest(pending: &HashMap<u32, PendingSegment>) -> (oldest: u32)
    requires
        pending@.dom().len() > 0,
    ensures
        pending@.contains_key(oldest),
        forall|k: u32| #[trigger]
            pending@.contains_key(k) ==> pending@[oldest].send_time.nanos
                <= pending@[k].send_time.nanos,
{
    let mut best: Option<(u32, Instant)> = None;
    for entry in it: pending.iter()
        invariant
            best is None ==> it.index() == 0,
            best matches Some((k, t)) ==> pending@.contains_key(k) && pending@[k].send_time == t,
            best matches Some((k, t)) ==> forall|j: int|
                #![trigger it.seq()[j]]
                0 <= j < it.index() ==> t.nanos <= (it.seq()[j].1).send_time.nanos,
    {
        let (k, segment) = entry;
        match best {
            Some((_, t)) => {
                if segment.send_time.nanos < t.nanos {
                    best = Some((*k, segment.send_time));
                }
            },
            None => {
                best = Some((*k, segment.send_time));
            },
        }
    }
    match best {
        Some((k, _)) => k,
        None => 0,
    }
}

/// Drops the oldest segments.
fn drop_oldest(pending: &mut HashMap<u32, PendingSegment>)
    requires
        old(pending)@.dom().len() > PENDING_LIMIT,
    ensures
        oldest_dropped(old(pending)@, final(pending)@),
{
    let ghost before = pending@;
    let mut dropped: usize = 0;
    while dropped < PENDING_DROP
        invariant
            dropped <= PENDING_DROP,
            before.dom().len() > PENDING_LIMIT,
            forall|k: u32| #[trigger]
                pending@.contains_key(k) ==> before.contains_key(k) && pending@[k] == before[k],
            pending@.dom().len() + dropped == before.dom().len(),
            forall|gone: u32, kept: u32|
                #![trigger before.contains_key(gone), pending@.contains_key(kept)]
                before.contains_key(gone) && !pending@.contains_key(gone)
                    && pending@.contains_key(kept) ==> before[gone].send_time.nanos
                    <= before[kept].send_time.nanos,
        decreases PENDING_DROP - dropped,
    {
        let ghost held = pending@;
        let oldest: u32 = find_oldest(pending);
        pending.remove(&oldest);
        assert forall|gone: u32, kept: u32|
            before.contains_key(gone) && !pending@.contains_key(gone) && pending@.contains_key(
                kept,
            ) implies before[gone].send_time.nanos <= before[kept].send_time.nanos by {
            assert(held.contains_key(kept) && held[kept] == before[kept]);
            if gone == oldest {
                assert(held[oldest] == before[oldest]);
            } else {
                assert(!held.contains_key(gone));
            }
        }
        dropped = dropped + 1;
    }
}

/// Puts a data segment on record, keeping the first sighting of a retransmitted one, and drops
/// the oldest segments once there are too many.
pub fn track_segment(pending: &mut HashMap<u32, PendingSegment>, segment: PendingSegment)
    ensures
        segment_tracked(old(pending)@, segment, final(pending)@),
{
    let is_again = match pending.get(&segment.seq_end) {
        Some(earlier) => earlier.sender == segment.sender,
        None => false,
    };
    if !is_again {
        pending.insert(segment.seq_end, segment);
    }
    if pending.len() > PENDING_LIMIT {
        drop_oldest(pending);
    }
}

/// Finds the round trip that an acknowledgement gives, and the segments that it acknowledges.
fn find_acknowledged(
    pending: &HashMap<u32, PendingSegment>,
    ack: u32,
    src: SocketAddr,
    now: Instant,
) -> (found: (Option<Duration>, Vec<u32>))
    ensures
        match found.0 {
            Some(d) => is_round_trip(pending@, ack, src, now, d),
            None => forall|k: u32| !#[trigger] answered(pending@, ack, src, now, k),
        },
        forall|k: u32| found.1@.contains(k) <==> acknowledged(pending@, ack, src, k),
{
    let mut rtt: Option<Duration> = None;
    let mut gone: Vec<u32> = Vec::new();
    let ghost mut best: u32 = 0;
    for entry in it: pending.iter()
        invariant
            rtt matches Some(d) ==> answered(pending@, ack, src, now, best) && d == span_since(
                now,
                pending@[best].send_time,
            ),
            forall|j: int|
                #![trigger it.seq()[j]]
                0 <= j < it.index() && answered(pending@, ack, src, now, *it.seq()[j].0) ==> rtt
                    is Some && rtt->Some_0.nanos <= span_since(
                    now,
                    pending@[*it.seq()[j].0].send_time,
                ).nanos,
            forall|k: u32| #[trigger]
                gone@.contains(k) ==> acknowledged(pending@, ack, src, k),
            forall|j: int|
                #![trigger it.seq()[j]]
                0 <= j < it.index() && acknowledged(pending@, ack, src, *it.seq()[j].0)
                    ==> gone@.contains(*it.seq()[j].0),
    {
        let (k, segment) = entry;
        if segment.sender != src && is_covered(ack, *k) {
            let ghost before = gone@;
            gone.push(*k);
            assert(gone@[before.len() as int] == *k);
            assert forall|l: u32| before.contains(l) implies gone@.contains(l) by {
                let i = choose|i: int| 0 <= i < before.len() && before[i] == l;
                assert(gone@[i] == l);
            }
            assert forall|l: u32| #[trigger] gone@.contains(l) implies acknowledged(
                pending@,
                ack,
                src,
                l,
            ) by {
                if l != *k {
                    let i = choose|i: int| 0 <= i < gone@.len() && gone@[i] == l;
                    assert(before[i] == l);
                    assert(before.contains(l));
                }
            }
            let span = now.saturating_duration_since(segment.send_time);
            if is_plausible(span) {
                let is_less = match rtt {
                    Some(d) => span.nanos < d.nanos,
                    None => true,
                };
                if is_less {
                    rtt = Some(span);
                    proof {
                        best = *k;
                    }
                }
            }
        }
    }
    (rtt, gone)
}

/// Returns the round trip that an acknowledgement gives, and takes the acknowledged segments off
/// the record if there is one.
pub fn match_ack(
    pending: &mut HashMap<u32, PendingSegment>,
    ack: u32,
    src: SocketAddr,
    now: Instant,
) -> (rtt: Option<Duration>)
    ensures
        ack_matched(old(pending)@, ack, src, now, final(pending)@, rtt),
{
    let ghost before = pending@;
    let (rtt, gone) = find_acknowledged(pending, ack, src, now);
    if rtt.is_some() {
        let mut i: usize = 0;
        while i < gone.len()
            invariant
                i <= gone@.len(),
                forall|k: u32| #[trigger]
                    pending@.contains_key(k) <==> before.contains_key(k) && !gone@.take(
                        i as int,
                    ).contains(k),
                forall|k: u32| #[trigger]
                    pending@.contains_key(k) ==> pending@[k] == before[k],
            decreases gone@.len() - i,
        {
            pending.remove(&gone[i]);
            proof {
                let earlier = gone@.take(i as int);
                let later = gone@.take(i + 1);
                assert(later =~= earlier.push(gone@[i as int]));
                assert forall|k: u32| later.contains(k) <==> earlier.contains(k) || k == gone@[
                    i as int
                ] by {
                    if earlier.contains(k) {
                        let j = choose|j: int| 0 <= j < earlier.len() && earlier[j] == k;
                        assert(later[j] == k);
                    }
                    assert(later[i as int] == gone@[i as int]);
                }
            }
            i = i + 1;
        }
        assert(gone@.take(gone@.len() as int) =~= gone@);
        assert(pending@ =~= unacknowledged(before, ack, src));
    }
    rtt
}

} // verus!

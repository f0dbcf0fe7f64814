//! The table of tracked flows.

use vstd::prelude::*;

use crate::addr::{addresses_are_totally_ordered, SocketAddr};
use crate::flow::{
    flow_active, flow_ok, flow_stays_ok, flow_step, fresh_flow, FlowKey, FlowModel, Segment,
    TcpFlags, TrackedFlow,
};
use crate::packet::TcpPacketInfo;
use crate::time::{Duration, Instant};

verus! {

/// Flow tracker managing multiple TCP flows
///
/// The flows are kept in the order of their keys.
#[derive(Debug)]
pub struct FlowTracker {
    flows: Vec<TrackedFlow>,
    flow_timeout: Duration,
    max_flows: usize,
}

/// What a [`FlowTracker`] stands for.
#[verifier::ext_equal]
pub struct TrackerModel {
    pub flows: Map<FlowKey, FlowModel>,
    pub flow_timeout: Duration,
    pub max_flows: usize,
}

/// The flows that are still active.
pub open spec fn active_only(
    flows: Map<FlowKey, FlowModel>,
    now: Instant,
    timeout: Duration,
) -> Map<FlowKey, FlowModel> {
    Map::new(
        |k: FlowKey| flows.contains_key(k) && flow_active(flows[k], now, timeout),
        |k: FlowKey| flows[k],
    )
}

/// The round trip in the answer of the tracker.
pub open spec fn round_trip(r: Option<(FlowKey, Duration)>) -> Option<Duration> {
    match r {
        Some((_, d)) => Some(d),
        None => None,
    }
}

/// How many flows a tracker keeps at most. A new flow is tracked in any case.
pub open spec fn limit_of(t: TrackerModel) -> nat {
    if t.max_flows == 0 {
        1
    } else {
        t.max_flows as nat
    }
}

/// The table has no more flows than it may have.
pub open spec fn within_limit(t: TrackerModel) -> bool {
    t.flows.len() <= limit_of(t)
}

/// `kept` is `room` with a place left for the flow of `key`. Where there is none, as many other
/// flows are gone as need be, and none of them was active later than one that stays.
pub open spec fn leaves_place(
    room: Map<FlowKey, FlowModel>,
    key: FlowKey,
    limit: nat,
    kept: Map<FlowKey, FlowModel>,
) -> bool {
    &&& forall|k: FlowKey| #[trigger]
        kept.contains_key(k) ==> room.contains_key(k) && kept[k] == room[k]
    &&& if room.remove(key).len() < limit {
        kept == room
    } else {
        &&& kept.remove(key).len() == limit - 1
        &&& forall|gone: FlowKey, stays: FlowKey|
            #![trigger room.contains_key(gone), kept.contains_key(stays)]
            room.contains_key(gone) && !kept.contains_key(gone) && kept.contains_key(stays)
                && stays != key ==> room[gone].last_activity.nanos
                <= room[stays].last_activity.nanos
    }
}

/// What the table holds when a SYN is to start a flow: if it is full, the active flows.
pub open spec fn room_for_syn(t: TrackerModel, now: Instant) -> Map<FlowKey, FlowModel> {
    if t.flows.len() >= t.max_flows {
        active_only(t.flows, now, t.flow_timeout)
    } else {
        t.flows
    }
}

/// A packet takes the tracker from `t` to `u` and yields `r`.
///
/// A SYN starts its flow afresh. If the table is full, the inactive flows are dropped before,
/// and then the least recently active ones.
/// Any other packet acts on its own flow alone, and is ignored when that is not tracked.
pub open spec fn tracker_step(
    t: TrackerModel,
    p: TcpPacketInfo,
    u: TrackerModel,
    r: Option<(FlowKey, Duration)>,
) -> bool {
    let key = FlowKey::between(p.src, p.dst);
    &&& u.flow_timeout == t.flow_timeout
    &&& u.max_flows == t.max_flows
    &&& if p.flags.opens() {
        &&& exists|kept: Map<FlowKey, FlowModel>| #[trigger]
            leaves_place(room_for_syn(t, p.timestamp), key, limit_of(t), kept) && u.flows
                == kept.insert(key, fresh_flow(key, p.src, p.timestamp, p.seq))
        &&& r is None
    } else if t.flows.contains_key(key) {
        &&& u.flows == t.flows.insert(key, u.flows[key])
        &&& flow_step(t.flows[key], p.segment(), u.flows[key], round_trip(r))
        &&& r matches Some((k, _)) ==> k == key
    } else {
        u.flows == t.flows && r is None
    }
}

/// Each flow stands under its own key, and its record is in order.
pub open spec fn tracker_ok(t: TrackerModel) -> bool {
    &&& t.flows.dom().finite()
    &&& forall|k: FlowKey| #[trigger]
        t.flows.contains_key(k) ==> t.flows[k].key == k && flow_ok(t.flows[k])
}

/// A packet takes the tracker from `t` to `u`, whatever it yields.
pub open spec fn packet_taken(t: TrackerModel, p: TcpPacketInfo, u: TrackerModel) -> bool {
    exists|r: Option<(FlowKey, Duration)>| #[trigger] tracker_step(t, p, u, r)
}

/// The packets, one after the other, take the tracker from `t` to `u`.
pub open spec fn packets_taken(t: TrackerModel, packets: Seq<TcpPacketInfo>, u: TrackerModel) -> bool
    decreases packets.len(),
{
    if packets.len() == 0 {
        u == t
    } else {
        exists|mid: TrackerModel|
            packets_taken(t, packets.drop_last(), mid) && #[trigger] packet_taken(
                mid,
                packets.last(),
                u,
            )
    }
}

/// The keys strictly ascend.
pub open spec fn ascending(keys: Seq<FlowKey>) -> bool {
    forall|i: int, j: int| 0 <= i < j < keys.len() ==> #[trigger] keys[i].precedes(
        #[trigger] keys[j],
    )
}

/// The keys of a list of flows.
pub open spec fn keys_of(flows: Seq<FlowModel>) -> Seq<FlowKey> {
    flows.map_values(|m: FlowModel| m.key)
}

/// The table that a list of flows makes.
pub open spec fn table_of(flows: Seq<FlowModel>) -> Map<FlowKey, FlowModel> {
    Map::new(
        |k: FlowKey| exists|i: int| 0 <= i < flows.len() && (#[trigger] flows[i]).key == k,
        |k: FlowKey| flows[choose|i: int| 0 <= i < flows.len() && (#[trigger] flows[i]).key == k],
    )
}

/// What a list of borrowed flows stands for.
pub open spec fn models(flows: Seq<&TrackedFlow>) -> Seq<FlowModel> {
    flows.map_values(|f: &TrackedFlow| f@)
}

/// The order of keys is a strict total order.
pub proof fn keys_are_totally_ordered(a: FlowKey, b: FlowKey, c: FlowKey)
    ensures
        !a.precedes(a),
        a == b || a.precedes(b) || b.precedes(a),
        a.precedes(b) ==> !b.precedes(a),
        a.precedes(b) && b.precedes(c) ==> a.precedes(c),
{
    addresses_are_totally_ordered(a.addr_a, b.addr_a, c.addr_a);
    addresses_are_totally_ordered(a.addr_b, b.addr_b, c.addr_b);
}

/// In the table that an ascending list makes, each flow stands under its own key.
pub proof fn lemma_table(flows: Seq<FlowModel>)
    requires
        ascending(keys_of(flows)),
    ensures
        forall|i: int|
            #![trigger flows[i]]
            0 <= i < flows.len() ==> table_of(flows).contains_key(flows[i].key) && table_of(
                flows,
            )[flows[i].key] == flows[i],
        table_of(flows).dom().finite(),
        table_of(flows).len() == flows.len(),
{
    let keys = keys_of(flows);
    let table = table_of(flows);
    assert forall|i: int, j: int|
        0 <= i < flows.len() && 0 <= j < flows.len() && (#[trigger] flows[i]).key == (
        #[trigger] flows[j]).key implies i == j by {
        keys_are_totally_ordered(flows[i].key, flows[j].key, flows[i].key);
        assert(keys[i] == flows[i].key && keys[j] == flows[j].key);
    }
    assert(keys.no_duplicates()) by {
        assert forall|i: int, j: int|
            0 <= i < keys.len() && 0 <= j < keys.len() && i != j implies keys[i] != keys[j] by {
            assert(keys[i] == flows[i].key && keys[j] == flows[j].key);
        }
    }
    assert(table.dom() =~= keys.to_set()) by {
        assert forall|k: FlowKey| table.dom().contains(k) implies keys.to_set().contains(k) by {
            let i = choose|i: int| 0 <= i < flows.len() && (#[trigger] flows[i]).key == k;
            assert(keys[i] == k);
        }
        assert forall|k: FlowKey| keys.to_set().contains(k) implies table.dom().contains(k) by {
            let i = choose|i: int| 0 <= i < keys.len() && keys[i] == k;
            assert(flows[i].key == k);
        }
    }
    keys.unique_seq_to_set();
}

/// `picked` lists, in order, the active ones among the first `n` of `flows`.
spec fn picks_active(
    flows: Seq<FlowModel>,
    n: int,
    picked: Seq<FlowModel>,
    now: Instant,
    timeout: Duration,
) -> bool {
    &&& ascending(keys_of(picked))
    &&& forall|j: int|
        0 <= j < picked.len() ==> flow_active(#[trigger] picked[j], now, timeout) && flows.take(
            n,
        ).contains(picked[j])
    &&& forall|i: int|
        0 <= i < n && flow_active(#[trigger] flows[i], now, timeout) ==> picked.contains(flows[i])
}

/// Looking at one more flow extends the list of active ones.
proof fn lemma_pick_next(
    flows: Seq<FlowModel>,
    n: int,
    picked: Seq<FlowModel>,
    now: Instant,
    timeout: Duration,
)
    requires
        ascending(keys_of(flows)),
        0 <= n < flows.len(),
        picks_active(flows, n, picked, now, timeout),
    ensures
        picks_active(
            flows,
            n + 1,
            if flow_active(flows[n], now, timeout) {
                picked.push(flows[n])
            } else {
                picked
            },
            now,
            timeout,
        ),
{
    let keys = keys_of(flows);
    let longer = if flow_active(flows[n], now, timeout) {
        picked.push(flows[n])
    } else {
        picked
    };
    assert forall|j: int| 0 <= j < picked.len() implies flows.take(n + 1).contains(
        #[trigger] picked[j],
    ) && picked[j].key.precedes(flows[n].key) by {
        assert(flows.take(n).contains(picked[j]));
        let i = choose|i: int| 0 <= i < flows.take(n).len() && flows.take(n)[i] == picked[j];
        assert(flows.take(n + 1)[i] == picked[j]);
        assert(keys[i].precedes(keys[n]));
    }
    assert(flows.take(n + 1)[n] == flows[n]);
    assert forall|i: int, j: int| 0 <= i < j < keys_of(longer).len() implies (
    #[trigger] keys_of(longer)[i]).precedes(#[trigger] keys_of(longer)[j]) by {
        assert(keys_of(longer)[i] == longer[i].key && keys_of(longer)[j] == longer[j].key);
        if j < picked.len() {
            assert(keys_of(picked)[i].precedes(keys_of(picked)[j]));
        } else {
            assert(longer[i] == picked[i]);
        }
    }
    assert forall|i: int|
        0 <= i < n + 1 && flow_active(#[trigger] flows[i], now, timeout) implies longer.contains(
        flows[i],
    ) by {
        if i < n {
            let j = choose|j: int| 0 <= j < picked.len() && picked[j] == flows[i];
            assert(longer[j] == flows[i]);
        } else {
            assert(longer[picked.len() as int] == flows[i]);
        }
    }
}

/// The list of all active flows makes the table of active flows.
proof fn lemma_picked_table(
    flows: Seq<FlowModel>,
    picked: Seq<FlowModel>,
    now: Instant,
    timeout: Duration,
)
    requires
        ascending(keys_of(flows)),
        picks_active(flows, flows.len() as int, picked, now, timeout),
    ensures
        table_of(picked) == active_only(table_of(flows), now, timeout),
{
    lemma_table(flows);
    lemma_table(picked);
    assert(flows.take(flows.len() as int) =~= flows);
    let table = active_only(table_of(flows), now, timeout);
    assert forall|k: FlowKey| table_of(picked).contains_key(k) implies table.contains_key(k)
        && table[k] == table_of(picked)[k] by {
        let j = choose|j: int| 0 <= j < picked.len() && (#[trigger] picked[j]).key == k;
        let i = choose|i: int| 0 <= i < flows.len() && flows[i] == picked[j];
    }
    assert forall|k: FlowKey| table.contains_key(k) implies table_of(picked).contains_key(k) by {
        let i = choose|i: int| 0 <= i < flows.len() && (#[trigger] flows[i]).key == k;
        let j = choose|j: int| 0 <= j < picked.len() && picked[j] == flows[i];
    }
    assert(table_of(picked) =~= table);
}

/// Replacing a flow by one with the same key replaces it in the table.
proof fn lemma_table_update(flows: Seq<FlowModel>, i: int, flow: FlowModel)
    requires
        ascending(keys_of(flows)),
        0 <= i < flows.len(),
        flow.key == flows[i].key,
    ensures
        table_of(flows.update(i, flow)) == table_of(flows).insert(flow.key, flow),
{
    let longer = flows.update(i, flow);
    let table = table_of(flows).insert(flow.key, flow);
    assert(keys_of(longer) =~= keys_of(flows));
    lemma_table(flows);
    lemma_table(longer);
    assert forall|k: FlowKey| table_of(longer).contains_key(k) implies table.contains_key(k)
        && table[k] == table_of(longer)[k] by {
        let j = choose|j: int| 0 <= j < longer.len() && (#[trigger] longer[j]).key == k;
        assert(flows[j].key == k);
    }
    assert forall|k: FlowKey| table.contains_key(k) implies table_of(longer).contains_key(k) by {
        if k == flow.key {
            assert(longer[i].key == k);
        } else {
            let j = choose|j: int| 0 <= j < flows.len() && (#[trigger] flows[j]).key == k;
            assert(longer[j].key == k);
        }
    }
    assert(table_of(longer) =~= table);
}

/// Inserting a flow at its place keeps the order and adds it to the table.
proof fn lemma_table_insert(flows: Seq<FlowModel>, i: int, flow: FlowModel)
    requires
        ascending(keys_of(flows)),
        0 <= i <= flows.len(),
        forall|j: int| 0 <= j < i ==> (#[trigger] keys_of(flows)[j]).precedes(flow.key),
        forall|j: int|
            i <= j < flows.len() ==> flow.key.precedes(#[trigger] keys_of(flows)[j]),
    ensures
        ascending(keys_of(flows.insert(i, flow))),
        table_of(flows.insert(i, flow)) == table_of(flows).insert(flow.key, flow),
{
    let longer = flows.insert(i, flow);
    let keys = keys_of(longer);
    let table = table_of(flows).insert(flow.key, flow);
    assert(keys =~= keys_of(flows).insert(i, flow.key));
    lemma_table(flows);
    lemma_table(longer);
    assert forall|k: FlowKey| table_of(longer).contains_key(k) implies table.contains_key(k)
        && table[k] == table_of(longer)[k] by {
        let j = choose|j: int| 0 <= j < longer.len() && (#[trigger] longer[j]).key == k;
        if j < i {
            assert(flows[j] == longer[j]);
            assert(keys_of(flows)[j] == k);
            keys_are_totally_ordered(k, flow.key, k);
        } else if j > i {
            assert(flows[j - 1] == longer[j]);
            assert(keys_of(flows)[j - 1] == k);
            keys_are_totally_ordered(k, flow.key, k);
        }
    }
    assert forall|k: FlowKey| table.contains_key(k) implies table_of(longer).contains_key(k) by {
        if k == flow.key {
            assert(longer[i].key == k);
        } else {
            let j = choose|j: int| 0 <= j < flows.len() && (#[trigger] flows[j]).key == k;
            if j < i {
                assert(longer[j].key == k);
            } else {
                assert(longer[j + 1].key == k);
            }
        }
    }
    assert(table_of(longer) =~= table);
}

/// Taking a flow out of the list keeps the order and takes it out of the table.
proof fn lemma_table_remove(flows: Seq<FlowModel>, i: int)
    requires
        ascending(keys_of(flows)),
        0 <= i < flows.len(),
    ensures
        ascending(keys_of(flows.remove(i))),
        table_of(flows.remove(i)) == table_of(flows).remove(flows[i].key),
{
    let shorter = flows.remove(i);
    let keys = keys_of(flows);
    let table = table_of(flows).remove(flows[i].key);
    assert(keys_of(shorter) =~= keys.remove(i));
    lemma_table(flows);
    lemma_table(shorter);
    assert forall|k: FlowKey| #[trigger]
        table_of(shorter).dom().contains(k) implies table.dom().contains(k) && table[k]
        == table_of(shorter)[k] by {
        let j = choose|j: int| 0 <= j < shorter.len() && (#[trigger] shorter[j]).key == k;
        let l = if j < i {
            j
        } else {
            j + 1
        };
        assert(shorter[j] == flows[l]);
        assert(keys[l] == k && keys[i] == flows[i].key);
        keys_are_totally_ordered(keys[l], keys[i], keys[l]);
    }
    assert forall|k: FlowKey| #[trigger]
        table.dom().contains(k) implies table_of(shorter).dom().contains(k) by {
        let l = choose|l: int| 0 <= l < flows.len() && (#[trigger] flows[l]).key == k;
        let j = if l < i {
            l
        } else {
            l - 1
        };
        assert(l != i);
        assert(shorter[j] == flows[l]);
        assert(shorter[j].key == k);
    }
    assert(table_of(shorter) =~= table);
}

impl View for FlowTracker {
    type V = TrackerModel;

    closed spec fn view(&self) -> TrackerModel {
        TrackerModel {
            flows: table_of(self.listed()),
            flow_timeout: self.flow_timeout,
            max_flows: self.max_flows,
        }
    }
}

impl FlowTracker {
    /// The flows in the order in which they are kept.
    closed spec fn listed(&self) -> Seq<FlowModel> {
        self.flows@.map_values(|f: TrackedFlow| f@)
    }

    /// The flows are kept in the order of their keys, there are not too many, and each one's
    /// record is in order.
    pub closed spec fn wf(&self) -> bool {
        &&& self.flows@.len() <= limit_of(self@)
        &&& ascending(keys_of(self.listed()))
        &&& forall|i: int| 0 <= i < self.flows@.len() ==> flow_ok((#[trigger] self.flows@[i])@)
    }

    /// A tracker in order stands for a table in order.
    pub proof fn lemma_ok(&self)
        requires
            self.wf(),
        ensures
            tracker_ok(self@),
            within_limit(self@),
    {
        let listed = self.listed();
        lemma_table(listed);
        assert forall|k: FlowKey| #[trigger] self@.flows.contains_key(k) implies self@.flows[k].key
            == k && flow_ok(self@.flows[k]) by {
            let i = choose|i: int| 0 <= i < listed.len() && (#[trigger] listed[i]).key == k;
            assert(listed[i] == self.flows@[i]@);
        }
    }

    /// Makes an empty tracker.
    pub fn new(flow_timeout: Duration, max_flows: usize) -> (tracker: Self)
        ensures
            tracker.wf(),
            tracker@ == (TrackerModel { flows: Map::empty(), flow_timeout, max_flows }),
    {
        let tracker = FlowTracker { flows: Vec::new(), flow_timeout, max_flows };
        assert(tracker@.flows =~= Map::empty());
        tracker
    }

    /// Finds the place of a key: where its flow is, or where it would have to go.
    fn find(&self, key: &FlowKey) -> (r: Result<usize, usize>)
        requires
            self.wf(),
        ensures
            match r {
                Ok(i) => i < self.flows@.len() && self.flows@[i as int].key == *key,
                Err(i) => {
                    &&& i <= self.flows@.len()
                    &&& forall|j: int|
                        0 <= j < i ==> (#[trigger] self.flows@[j]).key.precedes(*key)
                    &&& forall|j: int|
                        i <= j < self.flows@.len() ==> key.precedes((#[trigger] self.flows@[j]).key)
                },
            },
    {
        let mut lo: usize = 0;
        let mut hi: usize = self.flows.len();
        while lo < hi
            invariant
                self.wf(),
                lo <= hi <= self.flows@.len(),
                forall|j: int| 0 <= j < lo ==> (#[trigger] self.flows@[j]).key.precedes(*key),
                forall|j: int|
                    hi <= j < self.flows@.len() ==> key.precedes((#[trigger] self.flows@[j]).key),
            decreases hi - lo,
        {
            let mid: usize = lo + (hi - lo) / 2;
            let here = self.flows[mid].key;
            let ghost keys = keys_of(self.listed());
            assert(forall|j: int| 0 <= j < keys.len() ==> keys[j] == (#[trigger] self.flows@[j]).key);
            if here == *key {
                return Ok(mid);
            }
            if here.is_before(key) {
                assert forall|j: int| 0 <= j < mid + 1 implies (
                #[trigger] self.flows@[j]).key.precedes(*key) by {
                    keys_are_totally_ordered(self.flows@[j].key, here, *key);
                    assert(j < mid ==> keys[j].precedes(keys[mid as int]));
                }
                lo = mid + 1;
            } else {
                assert forall|j: int| mid <= j < self.flows@.len() implies key.precedes(
                    (#[trigger] self.flows@[j]).key,
                ) by {
                    keys_are_totally_ordered(*key, here, self.flows@[j].key);
                    assert(mid < j ==> keys[mid as int].precedes(keys[j]));
                }
                hi = mid;
            }
        }
        Err(lo)
    }

    /// Get flow by key
    pub fn get_flow(&self, key: &FlowKey) -> (flow: Option<&TrackedFlow>)
        requires
            self.wf(),
        ensures
            match flow {
                Some(f) => self@.flows.contains_key(*key) && f@ == self@.flows[*key],
                None => !self@.flows.contains_key(*key),
            },
    {
        proof {
            lemma_table(self.listed());
        }
        match self.find(key) {
            Ok(i) => {
                assert(self.listed()[i as int] == self.flows@[i as int]@);
                Some(&self.flows[i])
            },
            Err(_) => {
                assert forall|j: int| 0 <= j < self.listed().len() implies (
                #[trigger] self.listed()[j]).key != *key by {
                    assert(self.listed()[j] == self.flows@[j]@);
                    keys_are_totally_ordered(self.flows@[j].key, *key, *key);
                }
                None
            },
        }
    }

    /// Number of tracked flows
    pub fn flow_count(&self) -> (n: usize)
        requires
            self.wf(),
        ensures
            n == self@.flows.len(),
            n <= limit_of(self@),
            self@.max_flows >= 1 ==> n <= self@.max_flows,
            self@.flows.dom().finite(),
    {
        proof {
            lemma_table(self.listed());
        }
        self.flows.len()
    }

    /// Get all active flows, in the order of their keys
    pub fn active_flows(&self, now: Instant) -> (active: Vec<&TrackedFlow>)
        requires
            self.wf(),
        ensures
            ascending(keys_of(models(active@))),
            table_of(models(active@)) == active_only(self@.flows, now, self@.flow_timeout),
            forall|i: int|
                #![trigger active@[i]]
                0 <= i < active@.len() ==> {
                    let flow = active@[i]@;
                    &&& self@.flows.contains_key(flow.key)
                    &&& self@.flows[flow.key] == flow
                    &&& !(flow.state is Closed)
                    &&& self@.flow_timeout.nanos > 0
                    &&& now.nanos < flow.last_activity.nanos + self@.flow_timeout.nanos
                },
            forall|k: FlowKey| #[trigger]
                self@.flows.contains_key(k) && !(self@.flows[k].state is Closed)
                    && self@.flow_timeout.nanos > 0 && now.nanos
                    < self@.flows[k].last_activity.nanos + self@.flow_timeout.nanos
                    ==> exists|i: int|
                    0 <= i < active@.len() && (#[trigger] active@[i])@ == self@.flows[k],
    {
        let mut active: Vec<&TrackedFlow> = Vec::new();
        let mut i: usize = 0;
        while i < self.flows.len()
            invariant
                self.wf(),
                i <= self.flows@.len(),
                picks_active(self.listed(), i as int, models(active@), now, self.flow_timeout),
            decreases self.flows@.len() - i,
        {
            let flow = &self.flows[i];
            proof {
                lemma_pick_next(self.listed(), i as int, models(active@), now, self.flow_timeout);
            }
            let ghost before = models(active@);
            if flow.is_active(now, self.flow_timeout) {
                active.push(flow);
                assert(models(active@) =~= before.push(flow@));
            }
            i = i + 1;
        }
        proof {
            lemma_picked_table(self.listed(), models(active@), now, self.flow_timeout);
            let listed = models(active@);
            lemma_table(listed);
            assert forall|i: int| 0 <= i < active@.len() implies active_only(
                self@.flows,
                now,
                self.flow_timeout,
            ).contains_key((#[trigger] active@[i])@.key) && self@.flows[active@[i]@.key]
                == active@[i]@ by {
                assert(listed[i] == active@[i]@);
            }
            assert forall|k: FlowKey| #[trigger]
                self@.flows.contains_key(k) && flow_active(
                    self@.flows[k],
                    now,
                    self.flow_timeout,
                ) implies exists|i: int|
                0 <= i < active@.len() && (#[trigger] active@[i])@ == self@.flows[k] by {
                assert(table_of(listed).contains_key(k));
                let i = choose|i: int| 0 <= i < listed.len() && (#[trigger] listed[i]).key == k;
                assert(active@[i]@ == self@.flows[k]);
            }
        }
        active
    }

    /// Clean up old/closed flows
    pub fn cleanup_old_flows(&mut self, now: Instant)
        requires
            old(self).wf(),
        ensures
            final(self).wf(),
            final(self)@ == (TrackerModel {
                flows: active_only(old(self)@.flows, now, old(self)@.flow_timeout),
                ..old(self)@
            }),
            final(self)@.flow_timeout == old(self)@.flow_timeout,
            final(self)@.max_flows == old(self)@.max_flows,
            forall|k: FlowKey| #[trigger]
                final(self)@.flows.contains_key(k) <==> {
                    let flow = old(self)@.flows[k];
                    &&& old(self)@.flows.contains_key(k)
                    &&& !(flow.state is Closed)
                    &&& old(self)@.flow_timeout.nanos > 0
                    &&& now.nanos < flow.last_activity.nanos + old(self)@.flow_timeout.nanos
                },
            forall|k: FlowKey| #[trigger]
                final(self)@.flows.contains_key(k) ==> final(self)@.flows[k] == old(
                    self,
                )@.flows[k],
    {
        let ghost listed = self.listed();
        let ghost timeout = self.flow_timeout;
        let mut all: Vec<TrackedFlow> = Vec::new();
        std::mem::swap(&mut self.flows, &mut all);
        assert(listed == all@.map_values(|f: TrackedFlow| f@));
        let ghost flows = all@;
        assert(self.listed() =~= Seq::empty());
        for flow in it: all
            invariant
                it.seq() == flows,
                listed == flows.map_values(|f: TrackedFlow| f@),
                ascending(keys_of(listed)),
                forall|i: int| 0 <= i < flows.len() ==> flow_ok((#[trigger] flows[i])@),
                forall|i: int|
                    0 <= i < self.flows@.len() ==> flow_ok((#[trigger] self.flows@[i])@),
                self.flow_timeout == timeout,
                self.max_flows == old(self).max_flows,
                self.flows@.len() <= it.index(),
                picks_active(listed, it.index(), self.listed(), now, timeout),
        {
            proof {
                lemma_pick_next(listed, it.index(), self.listed(), now, timeout);
                assert(listed[it.index()] == flow@);
            }
            let ghost before = self.listed();
            if flow.is_active(now, self.flow_timeout) {
                self.flows.push(flow);
                assert(self.listed() =~= before.push(flow@));
            }
        }
        proof {
            lemma_picked_table(listed, self.listed(), now, timeout);
        }
    }

    /// Finds a flow than which none was active earlier.
    fn find_stalest(&self) -> (place: usize)
        requires
            self.flows@.len() > 0,
        ensures
            place < self.flows@.len(),
            forall|j: int|
                0 <= j < self.flows@.len() ==> self.flows@[place as int].last_activity.nanos <= (
                #[trigger] self.flows@[j]).last_activity.nanos,
    {
        let mut best: usize = 0;
        let mut i: usize = 1;
        while i < self.flows.len()
            invariant
                best < i <= self.flows@.len(),
                forall|j: int|
                    0 <= j < i ==> self.flows@[best as int].last_activity.nanos <= (
                    #[trigger] self.flows@[j]).last_activity.nanos,
            decreases self.flows@.len() - i,
        {
            if self.flows[i].last_activity.nanos < self.flows[best].last_activity.nanos {
                best = i;
            }
            i = i + 1;
        }
        best
    }

    /// Leaves a place for the flow of a key: drops the least recently active flow if the table
    /// is full of others.
    fn leave_place(&mut self, key: &FlowKey)
        requires
            old(self).wf(),
        ensures
            final(self).wf(),
            final(self)@ == (TrackerModel { flows: final(self)@.flows, ..old(self)@ }),
            leaves_place(old(self)@.flows, *key, limit_of(old(self)@), final(self)@.flows),
            final(self)@.flows.contains_key(*key) || final(self)@.flows.len() < limit_of(
                old(self)@,
            ),
    {
        let ghost listed = self.listed();
        let ghost room = self@.flows;
        proof {
            lemma_table(listed);
        }
        match self.find(key) {
            Ok(i) => {
                assert(listed[i as int].key == *key);
                assert(room.remove(*key).len() < room.len());
            },
            Err(_) => {
                assert forall|j: int| 0 <= j < listed.len() implies (#[trigger] listed[j]).key
                    != *key by {
                    keys_are_totally_ordered(self.flows@[j].key, *key, *key);
                }
                assert(!room.contains_key(*key));
                assert(room.remove(*key) =~= room);
                let limit: usize = if self.max_flows == 0 {
                    1
                } else {
                    self.max_flows
                };
                if self.flows.len() >= limit {
                    let stalest: usize = self.find_stalest();
                    let ghost gone = listed[stalest as int];
                    self.flows.remove(stalest);
                    proof {
                        assert(self.listed() =~= listed.remove(stalest as int));
                        lemma_table_remove(listed, stalest as int);
                        lemma_table(self.listed());
                        let kept = self@.flows;
                        assert(kept.remove(*key) =~= kept);
                        assert forall|stays: FlowKey| kept.contains_key(stays) implies
                            gone.last_activity.nanos
                            <= room[stays].last_activity.nanos by {
                            let j = choose|j: int|
                                0 <= j < listed.len() && (#[trigger] listed[j]).key == stays;
                            assert(listed[j] == old(self).flows@[j]@);
                        }
                    }
                }
            },
        }
    }

    /// Puts a flow into the table, in place of one with the same key.
    fn put(&mut self, flow: TrackedFlow)
        requires
            old(self).wf(),
            old(self)@.flows.contains_key(flow@.key) || old(self)@.flows.len() < limit_of(
                old(self)@,
            ),
            flow_ok(flow@),
        ensures
            final(self).wf(),
            final(self)@ == (TrackerModel {
                flows: old(self)@.flows.insert(flow@.key, flow@),
                ..old(self)@
            }),
    {
        let ghost listed = self.listed();
        let ghost keys = keys_of(listed);
        let ghost model = flow@;
        proof {
            lemma_table(listed);
        }
        match self.find(&flow.key) {
            Ok(i) => {
                self.flows[i] = flow;
                proof {
                    assert(self.listed() =~= listed.update(i as int, model));
                    assert(keys_of(self.listed()) =~= keys);
                    lemma_table_update(listed, i as int, model);
                }
            },
            Err(i) => {
                self.flows.insert(i, flow);
                proof {
                    assert(self.listed() =~= listed.insert(i as int, model));
                    assert forall|j: int| 0 <= j < listed.len() implies (#[trigger] keys[j])
                        == old(self).flows@[j].key by {}
                    assert forall|j: int| 0 <= j < listed.len() implies (#[trigger] listed[j]).key
                        != model.key by {
                        assert(keys[j] == listed[j].key);
                        keys_are_totally_ordered(keys[j], model.key, model.key);
                    }
                    lemma_table_insert(listed, i as int, model);
                }
            },
        }
    }

    /// Process a TCP packet
    pub fn process_packet(
        &mut self,
        src: SocketAddr,
        dst: SocketAddr,
        flags: TcpFlags,
        seq: u32,
        ack: u32,
        payload_len: u16,
        timestamp: Instant,
    ) -> (sample: Option<(FlowKey, Duration)>)
        requires
            old(self).wf(),
        ensures
            final(self).wf(),
            tracker_step(
                old(self)@,
                (TcpPacketInfo { src, dst, flags, seq, ack, payload_len, timestamp }),
                final(self)@,
                sample,
            ),
            flags.syn && !flags.ack ==> {
                let key = FlowKey::between(src, dst);
                let flow = final(self)@.flows[key];
                &&& sample is None
                &&& final(self)@.flows.contains_key(key)
                &&& flow.key == key
                &&& flow.initiator == src
                &&& flow.state is SynSent
                &&& flow.state->SynSent_initiator == src
                &&& flow.state->SynSent_syn_time == timestamp
                &&& flow.state->SynSent_syn_seq == seq
                &&& flow.samples.len() == 0
                &&& flow.last_activity == timestamp
                &&& flow.packets == 1
                &&& flow.bytes == 0
            },
            !(flags.syn && !flags.ack) ==> final(self)@.flows.dom() =~= old(self)@.flows.dom(),
            sample matches Some((key, d)) ==> {
                &&& key == FlowKey::between(src, dst)
                &&& final(self)@.flows.contains_key(key)
                &&& final(self)@.flows[key].samples.last() == d
                &&& final(self)@.flows[key].samples.len() == old(self)@.flows[key].samples.len() + 1
            },
    {
        let key = FlowKey::new(src, dst);
        // New SYN - start tracking new flow
        if flags.is_syn() {
            // Check max flows limit
            if self.flow_count() >= self.max_flows {
                self.cleanup_old_flows(timestamp);
            }
            self.leave_place(&key);
            assert(leaves_place(
                room_for_syn(old(self)@, timestamp),
                key,
                limit_of(old(self)@),
                self@.flows,
            ));
            self.put(TrackedFlow::new(key, src, timestamp, seq));
            return None;
        }
        // Existing flow
        let ghost listed = self.listed();
        proof {
            lemma_table(listed);
        }
        match self.find(&key) {
            Ok(i) => {
                let ghost before = listed[i as int];
                let rtt = self.flows[i].process_packet(
                    src,
                    flags,
                    seq,
                    ack,
                    payload_len,
                    timestamp,
                );
                proof {
                    let model = self.flows@[i as int]@;
                    let p = Segment { src, flags, seq, ack, payload_len, timestamp };
                    assert(flow_step(before, p, model, rtt));
                    flow_stays_ok(before, p, model, rtt);
                    assert(self.listed() =~= listed.update(i as int, model));
                    assert(keys_of(self.listed()) =~= keys_of(listed));
                    lemma_table_update(listed, i as int, model);
                }
                match rtt {
                    Some(d) => Some((key, d)),
                    None => None,
                }
            },
            Err(_) => {
                assert forall|j: int| 0 <= j < listed.len() implies (#[trigger] listed[j]).key
                    != key by {
                    keys_are_totally_ordered(self.flows@[j].key, key, key);
                }
                None
            },
        }
    }
}

} // verus!

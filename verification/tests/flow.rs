//! Tests of flow keys, flags, the state machine of a flow and the table of flows.

use std::collections::HashMap;

use flow_rtt::addr::SocketAddr;
use flow_rtt::flow::{
    FlowKey, FlowState, FlowTracker, PendingSegment, TcpFlags, TrackedFlow,
};
use flow_rtt::pending::{is_covered, is_plausible, match_ack, track_segment};
use flow_rtt::time::{Duration, Instant};

fn addr(port: u16) -> SocketAddr {
    SocketAddr::V4 { ip: u32::from_be_bytes([192, 168, 1, port as u8]), port }
}

/// The time so many milliseconds after the start.
fn at(millis: u64) -> Instant {
    Instant { nanos: Duration::from_millis(millis).nanos }
}

#[test]
fn test_flow_key_normalization() {
    let a = addr(1000);
    let b = addr(2000);

    let key1 = FlowKey::new(a, b);
    let key2 = FlowKey::new(b, a);

    assert_eq!(key1, key2);
}

#[test]
fn test_tcp_flags() {
    let syn = TcpFlags::from_byte(0x02);
    assert!(syn.is_syn());
    assert!(!syn.is_syn_ack());

    let syn_ack = TcpFlags::from_byte(0x12);
    assert!(syn_ack.is_syn_ack());

    let ack = TcpFlags::from_byte(0x10);
    assert!(ack.is_pure_ack());
}

#[test]
fn test_handshake_rtt() {
    let client = addr(50000);
    let server = addr(80);
    let key = FlowKey::new(client, server);

    let mut flow = TrackedFlow::new(key, client, at(0), 1000);

    // Simulate SYN-ACK after 10ms
    let syn_ack_flags = TcpFlags::from_byte(0x12);
    let rtt = flow.process_packet(server, syn_ack_flags, 2000, 1001, 0, at(10));

    assert!(rtt.is_some());
    let rtt = rtt.unwrap();
    assert!(rtt >= Duration::from_millis(9));
    assert!(rtt <= Duration::from_millis(50));
    assert_eq!(rtt, Duration::from_millis(10));
}

#[test]
fn test_flow_tracker() {
    let mut tracker = FlowTracker::new(Duration::from_secs(60), 1000);

    let client = addr(50000);
    let server = addr(80);

    // SYN
    let syn_flags = TcpFlags::from_byte(0x02);
    tracker.process_packet(client, server, syn_flags, 1000, 0, 0, at(0));

    assert_eq!(tracker.flow_count(), 1);

    let key = FlowKey::new(client, server);
    assert!(tracker.get_flow(&key).is_some());
}

fn flags(byte: u8) -> TcpFlags {
    TcpFlags::from_byte(byte)
}

/// A flow whose handshake took ten milliseconds and which has been quiet since.
fn established() -> TrackedFlow {
    let client = addr(50000);
    let server = addr(80);
    let mut flow = TrackedFlow::new(FlowKey::new(client, server), client, at(0), 1000);
    flow.process_packet(server, flags(0x12), 2000, 1001, 0, at(10));
    flow.process_packet(client, flags(0x10), 1001, 2001, 0, at(25));
    assert!(flow.is_established());
    flow
}

fn sent_by_client(millis: u64, seq_end: u32, payload_len: u16) -> PendingSegment {
    PendingSegment { sender: addr(50000), send_time: at(millis), seq_end, payload_len }
}

fn pending_of(flow: &TrackedFlow) -> Vec<PendingSegment> {
    match &flow.state {
        FlowState::Established { pending_data, .. } => {
            let mut segments: Vec<PendingSegment> = pending_data.values().copied().collect();
            segments.sort_by_key(|s| s.seq_end);
            segments
        }
        _ => panic!("not established"),
    }
}

#[test]
fn key_holds_the_lower_end_first() {
    let v4_low = SocketAddr::V4 { ip: 1, port: 9 };
    let v4_high = SocketAddr::V4 { ip: 1, port: 10 };
    let v6 = SocketAddr::V6 { ip: 0, port: 0, flowinfo: 0, scope_id: 0 };
    let v6_scoped = SocketAddr::V6 { ip: 0, port: 0, flowinfo: 0, scope_id: 1 };

    assert_eq!(FlowKey::new(v4_high, v4_low), FlowKey { addr_a: v4_low, addr_b: v4_high });
    assert_eq!(FlowKey::new(v6, v4_high), FlowKey { addr_a: v4_high, addr_b: v6 });
    assert_eq!(FlowKey::new(v6_scoped, v6), FlowKey { addr_a: v6, addr_b: v6_scoped });
    assert_eq!(FlowKey::new(v6, v6), FlowKey { addr_a: v6, addr_b: v6 });
    assert_ne!(FlowKey::new(v6, v4_high), FlowKey::new(v6, v4_low));
}

#[test]
fn keys_are_ordered_by_lower_end_first() {
    let key = |a: u32, b: u32| FlowKey {
        addr_a: SocketAddr::V4 { ip: a, port: 1 },
        addr_b: SocketAddr::V4 { ip: b, port: 1 },
    };
    assert!(key(1, 9).is_before(&key(2, 3)));
    assert!(key(1, 2).is_before(&key(1, 3)));
    assert!(!key(1, 3).is_before(&key(1, 3)));
    assert!(!key(2, 3).is_before(&key(1, 9)));
}

#[test]
fn flags_are_read_bit_by_bit() {
    let all = flags(0xff);
    assert!(all.fin && all.syn && all.rst && all.psh && all.ack);
    assert_eq!(flags(0xe0), TcpFlags::default());
    assert_eq!(flags(0x01), TcpFlags { fin: true, ..TcpFlags::default() });
    assert_eq!(flags(0x04), TcpFlags { rst: true, ..TcpFlags::default() });
    assert_eq!(flags(0x08), TcpFlags { psh: true, ..TcpFlags::default() });
}

#[test]
fn packet_kinds_exclude_one_another() {
    for byte in 0..=255u8 {
        let f = flags(byte);
        let kinds = [f.is_syn(), f.is_syn_ack(), f.is_pure_ack()];
        assert!(kinds.iter().filter(|k| **k).count() <= 1);
    }
    assert!(!flags(0x11).is_pure_ack());
    assert!(!flags(0x14).is_pure_ack());
    assert!(flags(0x18).is_pure_ack());
}

#[test]
fn handshake_rtt_is_from_syn_to_syn_ack() {
    let flow = established();
    assert_eq!(flow.handshake_rtt(), Some(Duration::from_millis(10)));
    assert_eq!(flow.rtt_samples, vec![Duration::from_millis(10)]);
    assert_eq!(flow.packets_seen, 3);
    assert_eq!(flow.bytes_seen, 0);
    assert_eq!(flow.last_activity, at(25));
    assert!(pending_of(&flow).is_empty());
}

#[test]
fn handshake_rtt_is_unknown_before_and_after() {
    let client = addr(50000);
    let server = addr(80);
    let mut flow = TrackedFlow::new(FlowKey::new(client, server), client, at(0), 1000);
    assert_eq!(flow.handshake_rtt(), None);
    flow.process_packet(server, flags(0x12), 2000, 1001, 0, at(10));
    assert_eq!(flow.handshake_rtt(), None);

    let mut flow = established();
    flow.process_packet(client, flags(0x11), 1001, 2001, 0, at(30));
    assert_eq!(flow.handshake_rtt(), None);
}

#[test]
fn only_the_responder_answers_a_syn() {
    let client = addr(50000);
    let server = addr(80);
    let mut flow = TrackedFlow::new(FlowKey::new(client, server), client, at(0), 1000);
    assert_eq!(flow.process_packet(client, flags(0x12), 2000, 1001, 0, at(1)), None);
    assert!(matches!(flow.state, FlowState::SynSent { .. }));
    // The clock may step back between the two
    let mut flow = TrackedFlow::new(FlowKey::new(client, server), client, at(9), 1000);
    assert_eq!(
        flow.process_packet(server, flags(0x12), 2000, 1001, 0, at(3)),
        Some(Duration::zero())
    );
}

#[test]
fn only_the_initiator_completes_a_handshake() {
    let client = addr(50000);
    let server = addr(80);
    let mut flow = TrackedFlow::new(FlowKey::new(client, server), client, at(0), 1000);
    flow.process_packet(server, flags(0x12), 2000, 1001, 0, at(10));
    assert_eq!(flow.process_packet(server, flags(0x10), 2001, 1001, 0, at(11)), None);
    assert!(!flow.is_established());
    match flow.state {
        FlowState::SynAckReceived { initiator, syn_time, syn_ack_time, syn_ack_seq } => {
            assert_eq!(initiator, client);
            assert_eq!(syn_time, at(0));
            assert_eq!(syn_ack_time, at(10));
            assert_eq!(syn_ack_seq, 2000);
        }
        _ => panic!("handshake is not under way"),
    }
}

#[test]
fn reset_ends_a_handshake() {
    let client = addr(50000);
    let server = addr(80);
    let mut flow = TrackedFlow::new(FlowKey::new(client, server), client, at(0), 1000);
    assert_eq!(flow.process_packet(server, flags(0x14), 0, 1001, 0, at(1)), None);
    assert!(matches!(flow.state, FlowState::Closing));

    let mut flow = TrackedFlow::new(FlowKey::new(client, server), client, at(0), 1000);
    flow.process_packet(server, flags(0x12), 2000, 1001, 0, at(1));
    assert_eq!(flow.process_packet(client, flags(0x04), 1001, 0, 0, at(2)), None);
    assert!(matches!(flow.state, FlowState::Closing));
}

#[test]
fn data_rtt_is_from_data_to_acknowledgement() {
    let mut flow = established();
    assert_eq!(flow.process_packet(addr(50000), flags(0x18), 1001, 2001, 100, at(30)), None);
    assert_eq!(
        pending_of(&flow),
        vec![sent_by_client(30, 1101, 100)]
    );
    // An acknowledgement that does not reach the end of the segment
    assert_eq!(flow.process_packet(addr(80), flags(0x10), 2001, 1100, 0, at(40)), None);
    assert_eq!(
        flow.process_packet(addr(80), flags(0x10), 2001, 1101, 0, at(70)),
        Some(Duration::from_millis(40))
    );
    assert!(pending_of(&flow).is_empty());
    // The same acknowledgement again
    assert_eq!(flow.process_packet(addr(80), flags(0x10), 2001, 1101, 0, at(80)), None);
    assert_eq!(flow.rtt_samples, vec![Duration::from_millis(10), Duration::from_millis(40)]);
    assert_eq!(flow.bytes_seen, 100);
    assert_eq!(flow.packets_seen, 7);
}

#[test]
fn retransmission_keeps_the_first_send_time() {
    let mut flow = established();
    flow.process_packet(addr(50000), flags(0x18), 1001, 2001, 100, at(30));
    // Also when cut differently
    flow.process_packet(addr(50000), flags(0x18), 1051, 2001, 50, at(60));
    assert_eq!(
        pending_of(&flow),
        vec![sent_by_client(30, 1101, 100)]
    );
    assert_eq!(
        flow.process_packet(addr(80), flags(0x10), 2001, 1101, 0, at(90)),
        Some(Duration::from_millis(60))
    );
}

#[test]
fn one_acknowledgement_answers_all_that_it_covers() {
    let mut flow = established();
    flow.process_packet(addr(50000), flags(0x08), 1001, 0, 100, at(30));
    flow.process_packet(addr(50000), flags(0x08), 1101, 0, 100, at(31));
    flow.process_packet(addr(50000), flags(0x08), 1201, 0, 100, at(32));
    // The first two are acknowledged; the later one of them gives the round trip
    let rtt = flow.process_packet(addr(80), flags(0x10), 2001, 1201, 0, at(41));
    assert_eq!(rtt, Some(Duration::from_millis(10)));
    assert_eq!(pending_of(&flow), vec![sent_by_client(32, 1301, 100)]);
    // A duplicate gives nothing
    assert_eq!(flow.process_packet(addr(80), flags(0x10), 2001, 1201, 0, at(81)), None);
    assert_eq!(pending_of(&flow).len(), 1);
}

#[test]
fn senders_do_not_acknowledge_themselves() {
    let mut flow = established();
    flow.process_packet(addr(50000), flags(0x18), 1001, 2001, 100, at(30));
    assert_eq!(flow.process_packet(addr(50000), flags(0x18), 1101, 2001, 100, at(35)), None);
    assert_eq!(flow.process_packet(addr(50000), flags(0x10), 1201, 2001, 0, at(36)), None);
    assert_eq!(flow.rtt_samples, vec![Duration::from_millis(10)]);
    assert_eq!(
        pending_of(&flow),
        vec![sent_by_client(30, 1101, 100), sent_by_client(35, 1201, 100)]
    );
}

#[test]
fn segments_of_the_two_ends_are_told_apart() {
    let mut flow = established();
    flow.process_packet(addr(50000), flags(0x08), 1900, 0, 100, at(30));
    // Ends where the client's ends, but is no retransmission
    flow.process_packet(addr(80), flags(0x08), 1950, 0, 50, at(40));
    assert_eq!(
        flow.process_packet(addr(50000), flags(0x10), 2000, 2000, 0, at(50)),
        Some(Duration::from_millis(10))
    );
    // Either end's data is measured
    flow.process_packet(addr(80), flags(0x18), 2000, 1, 10, at(60));
    assert_eq!(
        flow.process_packet(addr(50000), flags(0x10), 2000, 2010, 0, at(67)),
        Some(Duration::from_millis(7))
    );
}

#[test]
fn an_acknowledgement_number_of_zero_is_ignored() {
    let mut flow = established();
    flow.process_packet(addr(50000), flags(0x08), u32::MAX - 99, 0, 100, at(30));
    assert_eq!(pending_of(&flow)[0].seq_end, 0);
    assert_eq!(flow.process_packet(addr(80), flags(0x10), 2001, 0, 0, at(40)), None);
    assert_eq!(
        flow.process_packet(addr(80), flags(0x10), 2001, 1, 0, at(40)),
        Some(Duration::from_millis(10))
    );
}

#[test]
fn implausible_round_trips_are_not_measured() {
    let micros = |n: u64| Instant { nanos: at(30).nanos + Duration::from_micros(n).nanos };
    // Ten microseconds are too short, a little more is not
    let mut flow = established();
    flow.process_packet(addr(50000), flags(0x18), 1001, 2001, 100, at(30));
    assert_eq!(flow.process_packet(addr(80), flags(0x10), 2001, 1101, 0, micros(10)), None);
    assert_eq!(
        flow.process_packet(addr(80), flags(0x10), 2001, 1101, 0, micros(11)),
        Some(Duration::from_micros(11))
    );
    // Thirty seconds are too long
    let mut flow = established();
    flow.process_packet(addr(50000), flags(0x18), 1001, 2001, 100, at(30));
    assert_eq!(flow.process_packet(addr(80), flags(0x10), 2001, 1101, 0, at(30_030)), None);
    assert_eq!(pending_of(&flow).len(), 1);
    assert_eq!(flow.rtt_samples.len(), 1);

    assert!(!is_plausible(Duration { nanos: 10_000 }));
    assert!(is_plausible(Duration { nanos: 10_001 }));
    assert!(is_plausible(Duration { nanos: 29_999_999_999 }));
    assert!(!is_plausible(Duration { nanos: 30_000_000_000 }));
}

#[test]
fn acknowledgements_cover_across_the_wrap() {
    assert!(is_covered(5, 5));
    assert!(!is_covered(4, 5));
    assert!(is_covered(999, u32::MAX - 999));
    assert!(!is_covered(1000, u32::MAX - 999));
    assert!(!is_covered(999, u32::MAX - 1000));
}

#[test]
fn record_of_unacknowledged_data_is_bounded() {
    let mut flow = established();
    for i in 0..1000u32 {
        flow.process_packet(addr(50000), flags(0x08), 10_000 + 10 * i, 0, 10, at(100 + i as u64));
    }
    assert_eq!(pending_of(&flow).len(), 1000);
    flow.process_packet(addr(50000), flags(0x08), 20_000, 0, 10, at(1100));
    let left = pending_of(&flow);
    assert_eq!(left.len(), 501);
    // The oldest have gone
    assert_eq!(left[0], sent_by_client(600, 15_010, 10));
    assert_eq!(left[500].send_time, at(1100));
}

#[test]
fn recording_and_matching_act_on_the_record_alone() {
    let mut pending: HashMap<u32, PendingSegment> = HashMap::new();
    let segment = sent_by_client(0, 7, 3);
    track_segment(&mut pending, segment);
    track_segment(&mut pending, sent_by_client(5, 7, 2));
    assert_eq!(pending.get(&7), Some(&segment));
    assert_eq!(match_ack(&mut pending, 7, addr(50000), at(20)), None);
    assert_eq!(match_ack(&mut pending, 6, addr(80), at(20)), None);
    assert_eq!(match_ack(&mut pending, 7, addr(80), at(20)), Some(Duration::from_millis(20)));
    assert!(pending.is_empty());
    // The other end's segment takes the place of one that ends at the same number
    track_segment(&mut pending, segment);
    let other = PendingSegment { sender: addr(80), ..sent_by_client(5, 7, 2) };
    track_segment(&mut pending, other);
    assert_eq!(pending.get(&7), Some(&other));
}

#[test]
fn closing_is_for_good() {
    let client = addr(50000);
    let server = addr(80);
    let mut flow = established();
    flow.process_packet(client, flags(0x11), 1001, 2001, 0, at(30));
    assert!(matches!(flow.state, FlowState::Closing));
    // Neither data nor acknowledgements reopen it
    assert_eq!(flow.process_packet(client, flags(0x18), 1001, 2001, 10, at(31)), None);
    assert_eq!(flow.process_packet(server, flags(0x10), 2001, 1011, 0, at(51)), None);
    assert!(matches!(flow.state, FlowState::Closing));
    // A FIN without acknowledgement does not close it
    flow.process_packet(server, flags(0x01), 2001, 0, 0, at(52));
    assert!(matches!(flow.state, FlowState::Closing));
    flow.process_packet(server, flags(0x11), 2001, 1002, 0, at(53));
    assert!(matches!(flow.state, FlowState::Closed));
    flow.process_packet(server, flags(0x12), 2001, 1002, 0, at(54));
    assert!(matches!(flow.state, FlowState::Closed));
    assert_eq!(flow.rtt_samples.len(), 1);
    // Everything was counted
    assert_eq!(flow.packets_seen, 9);
    assert_eq!(flow.bytes_seen, 10);
}

#[test]
fn flows_expire_after_the_timeout() {
    let mut flow = established();
    let timeout = Duration::from_millis(100);
    assert!(flow.is_active(at(124), timeout));
    assert!(!flow.is_active(at(125), timeout));
    assert!(flow.is_active(at(0), timeout));
    assert!(!flow.is_active(at(0), Duration::zero()));
    flow.process_packet(addr(80), flags(0x04), 0, 0, 0, at(30));
    assert!(flow.is_active(at(30), timeout));
    flow.process_packet(addr(80), flags(0x04), 0, 0, 0, at(31));
    assert!(!flow.is_active(at(31), timeout));
}

#[test]
fn tracker_touches_one_flow_at_a_time() {
    let mut tracker = FlowTracker::new(Duration::from_secs(60), 1000);
    let server = addr(80);
    let (one, other) = (addr(50000), addr(50001));
    tracker.process_packet(one, server, flags(0x02), 1, 0, 0, at(0));
    tracker.process_packet(other, server, flags(0x02), 2, 0, 0, at(1));
    let sample = tracker.process_packet(server, one, flags(0x12), 9, 2, 0, at(7));
    assert_eq!(sample, Some((FlowKey::new(one, server), Duration::from_millis(7))));
    let sample = tracker.process_packet(one, server, flags(0x10), 2, 10, 0, at(8));
    assert_eq!(sample, None);

    let flow = tracker.get_flow(&FlowKey::new(server, one)).unwrap();
    assert!(flow.is_established());
    assert_eq!(flow.handshake_rtt(), Some(Duration::from_millis(7)));
    let untouched = tracker.get_flow(&FlowKey::new(other, server)).unwrap();
    assert!(matches!(untouched.state, FlowState::SynSent { syn_seq: 2, .. }));
    assert_eq!(untouched.packets_seen, 1);
    assert_eq!(tracker.flow_count(), 2);
}

#[test]
fn packets_of_unknown_flows_are_ignored() {
    let mut tracker = FlowTracker::new(Duration::from_secs(60), 1000);
    for byte in [0x10u8, 0x12, 0x18, 0x11, 0x04, 0x00] {
        assert_eq!(
            tracker.process_packet(addr(50000), addr(80), flags(byte), 1, 1, 1, at(0)),
            None
        );
        assert_eq!(tracker.flow_count(), 0);
    }
    assert!(tracker.get_flow(&FlowKey::new(addr(50000), addr(80))).is_none());
}

#[test]
fn a_new_syn_starts_its_flow_afresh() {
    let mut tracker = FlowTracker::new(Duration::from_secs(60), 1000);
    let (client, server) = (addr(50000), addr(80));
    tracker.process_packet(client, server, flags(0x02), 1, 0, 0, at(0));
    tracker.process_packet(server, client, flags(0x12), 9, 2, 0, at(7));
    // This time the other end opens
    assert_eq!(tracker.process_packet(server, client, flags(0x02), 5, 0, 0, at(9)), None);
    let flow = tracker.get_flow(&FlowKey::new(client, server)).unwrap();
    match flow.state {
        FlowState::SynSent { initiator, syn_time, syn_seq } => {
            assert_eq!((initiator, syn_time, syn_seq), (server, at(9), 5));
        }
        _ => panic!("not fresh"),
    }
    assert!(flow.rtt_samples.is_empty());
    assert_eq!(flow.packets_seen, 1);
    assert_eq!(tracker.flow_count(), 1);
}

fn has_flow(tracker: &FlowTracker, port: u16) -> bool {
    tracker.get_flow(&FlowKey::new(addr(port), addr(80))).is_some()
}

#[test]
fn the_table_keeps_to_its_limit() {
    let mut tracker = FlowTracker::new(Duration::from_secs(60), 2);
    for port in 1..=4u16 {
        tracker.process_packet(addr(port), addr(80), flags(0x02), 1, 0, 0, at(port as u64));
        assert_eq!(tracker.flow_count(), port.min(2) as usize);
    }
    assert!(has_flow(&tracker, 3) && has_flow(&tracker, 4));
    // The least recently active one goes, not the oldest
    tracker.process_packet(addr(80), addr(3), flags(0x12), 1, 2, 0, at(5));
    tracker.process_packet(addr(5), addr(80), flags(0x02), 1, 0, 0, at(6));
    assert!(has_flow(&tracker, 3) && has_flow(&tracker, 5));
    assert_eq!(tracker.flow_count(), 2);
    // A SYN of a tracked flow takes no other's place
    tracker.process_packet(addr(3), addr(80), flags(0x02), 1, 0, 0, at(7));
    assert!(has_flow(&tracker, 3) && has_flow(&tracker, 5));
}

#[test]
fn a_limit_of_one_or_none_keeps_the_latest_flow() {
    for limit in [0usize, 1] {
        let mut tracker = FlowTracker::new(Duration::from_secs(60), limit);
        for port in [7u16, 3, 9] {
            tracker.process_packet(addr(port), addr(80), flags(0x02), 1, 0, 0, at(port as u64));
            assert_eq!(tracker.flow_count(), 1);
            assert!(has_flow(&tracker, port));
        }
    }
}

#[test]
fn closing_flows_stay_until_they_time_out() {
    let mut tracker = FlowTracker::new(Duration::from_millis(100), 1000);
    let (client, server) = (addr(50000), addr(80));
    tracker.process_packet(client, server, flags(0x02), 1, 0, 0, at(0));
    tracker.process_packet(server, client, flags(0x04), 0, 0, 0, at(1));
    tracker.cleanup_old_flows(at(100));
    assert_eq!(tracker.flow_count(), 1);
    tracker.cleanup_old_flows(at(101));
    assert_eq!(tracker.flow_count(), 0);
    // A closed one goes at once
    tracker.process_packet(client, server, flags(0x02), 1, 0, 0, at(200));
    tracker.process_packet(server, client, flags(0x04), 0, 0, 0, at(201));
    tracker.process_packet(server, client, flags(0x04), 0, 0, 0, at(202));
    tracker.cleanup_old_flows(at(202));
    assert_eq!(tracker.flow_count(), 0);
}

#[test]
fn a_full_table_drops_inactive_flows_only() {
    let mut tracker = FlowTracker::new(Duration::from_millis(10), 3);
    tracker.process_packet(addr(1), addr(80), flags(0x02), 1, 0, 0, at(0));
    tracker.process_packet(addr(2), addr(80), flags(0x02), 1, 0, 0, at(5));
    // Not full yet: the first one stays though it has expired
    tracker.process_packet(addr(3), addr(80), flags(0x02), 1, 0, 0, at(10));
    assert_eq!(tracker.flow_count(), 3);
    tracker.process_packet(addr(4), addr(80), flags(0x02), 1, 0, 0, at(11));
    assert_eq!(tracker.flow_count(), 3);
    assert!(tracker.get_flow(&FlowKey::new(addr(1), addr(80))).is_none());
    assert!(tracker.get_flow(&FlowKey::new(addr(2), addr(80))).is_some());
}

#[test]
fn cleanup_twice_is_cleanup_once() {
    let mut tracker = FlowTracker::new(Duration::from_millis(10), 100);
    for (port, millis) in [(3u16, 0u64), (1, 8), (2, 4)] {
        tracker.process_packet(addr(port), addr(80), flags(0x02), 1, 0, 0, at(millis));
    }
    let keys = |t: &FlowTracker| -> Vec<FlowKey> {
        t.active_flows(at(12)).iter().map(|f| f.key).collect()
    };
    let active = keys(&tracker);
    assert_eq!(active.len(), 2);
    assert!(active[0].is_before(&active[1]));
    tracker.cleanup_old_flows(at(12));
    assert_eq!(keys(&tracker), active);
    assert_eq!(tracker.flow_count(), 2);
    tracker.cleanup_old_flows(at(12));
    assert_eq!(keys(&tracker), active);
    assert_eq!(tracker.flow_count(), 2);
}

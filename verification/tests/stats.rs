//! Tests of RTT statistics.

use flow_rtt::addr::SocketAddr;
use flow_rtt::flow::{FlowKey, TcpFlags, TrackedFlow};
use flow_rtt::stats::{sample_micros, AggregateStats, FlowStats, Headline, RttStats};
use flow_rtt::time::{Duration, Instant};

fn millis(d: Duration) -> f64 {
    d.nanos as f64 / 1_000_000.0
}

#[test]
fn test_rtt_stats_from_samples() {
    let samples: Vec<Duration> = (1..=100)
        .map(|i| Duration::from_millis(i))
        .collect();

    let stats = RttStats::from_samples(&samples).unwrap();

    assert_eq!(stats.sample_count, 100);
    assert!(stats.min >= Duration::from_millis(1));
    // Histogram buckets may round up slightly
    assert!(stats.max <= Duration::from_millis(110));
    assert!(millis(stats.p50) > 40.0 && millis(stats.p50) < 60.0);
    assert!(millis(stats.p99) > 90.0);
}

#[test]
fn test_rtt_stats_empty() {
    let samples: Vec<Duration> = vec![];
    assert!(RttStats::from_samples(&samples).is_none());
}

#[test]
fn test_rtt_stats_single_sample() {
    let samples = vec![Duration::from_millis(50)];
    let stats = RttStats::from_samples(&samples).unwrap();

    assert_eq!(stats.sample_count, 1);
    assert!((millis(stats.p50) - 50.0).abs() < 1.0);
}

/// The time so many milliseconds after the start.
fn at(millis: u64) -> Instant {
    Instant { nanos: Duration::from_millis(millis).nanos }
}

fn client() -> SocketAddr {
    SocketAddr::V4 { ip: u32::from_be_bytes([10, 0, 0, 9]), port: 50000 }
}

fn server() -> SocketAddr {
    SocketAddr::V4 { ip: u32::from_be_bytes([10, 0, 0, 1]), port: 80 }
}

/// A flow whose handshake took so many milliseconds.
fn shaken_hands(millis: u64) -> TrackedFlow {
    let mut flow = TrackedFlow::new(FlowKey::new(client(), server()), client(), at(0), 1);
    flow.process_packet(server(), TcpFlags::from_byte(0x12), 1, 2, 0, at(millis));
    flow.process_packet(client(), TcpFlags::from_byte(0x10), 2, 2, 0, at(millis + 1));
    flow
}

#[test]
fn figures_are_the_ends_of_bins() {
    let samples: Vec<Duration> = (1..=100).map(|i| Duration::from_millis(i)).collect();
    let stats = RttStats::from_samples(&samples).unwrap();
    assert_eq!(stats.min, Duration::from_micros(1000));
    assert_eq!(stats.p50, Duration::from_micros(50_015));
    assert_eq!(stats.p95, Duration::from_micros(95_039));
    assert_eq!(stats.p99, Duration::from_micros(99_007));
    assert_eq!(stats.max, Duration::from_micros(100_031));
    assert_eq!(stats.mean.as_millis(), 50);
    assert_eq!(stats.std_dev.as_millis(), 28);
}

#[test]
fn one_sample_gives_every_figure() {
    let stats = RttStats::from_samples(&[Duration::from_millis(50)]).unwrap();
    assert_eq!(
        stats,
        RttStats {
            min: Duration::from_micros(49_984),
            max: Duration::from_micros(50_015),
            mean: Duration::from_micros(50_000),
            p50: Duration::from_micros(50_015),
            p95: Duration::from_micros(50_015),
            p99: Duration::from_micros(50_015),
            sample_count: 1,
            std_dev: Duration::zero(),
        }
    );
}

#[test]
fn small_values_have_a_bin_each() {
    let samples: Vec<Duration> = [3, 1, 2].iter().map(|n| Duration::from_micros(*n)).collect();
    let stats = RttStats::from_samples(&samples).unwrap();
    assert_eq!(stats.min, Duration::from_micros(1));
    assert_eq!(stats.p50, Duration::from_micros(2));
    assert_eq!(stats.p99, Duration::from_micros(3));
    assert_eq!(stats.max, Duration::from_micros(3));
    assert_eq!(stats.mean, Duration::from_micros(2));
}

#[test]
fn figures_come_from_their_arguments() {
    let stats = RttStats::from_micros(1, 2, 3, 4, 5, 6, 7, 8);
    assert_eq!(stats.min, Duration::from_micros(1));
    assert_eq!(stats.max, Duration::from_micros(2));
    assert_eq!(stats.mean, Duration::from_micros(3));
    assert_eq!(stats.p50, Duration::from_micros(4));
    assert_eq!(stats.p95, Duration::from_micros(5));
    assert_eq!(stats.p99, Duration::from_micros(6));
    assert_eq!(stats.sample_count, 7);
    assert_eq!(stats.std_dev, Duration::from_micros(8));
}

#[test]
fn samples_under_a_microsecond_do_not_count() {
    assert!(RttStats::from_samples(&[Duration { nanos: 999 }, Duration::zero()]).is_none());
    let stats = RttStats::from_samples(&[Duration { nanos: 999 }, Duration { nanos: 1999 }]);
    assert_eq!(stats.unwrap().sample_count, 1);
    assert_eq!(stats.unwrap().max, Duration::from_micros(1));
}

#[test]
fn samples_beyond_the_bins_do_not_count() {
    let last = Duration::from_micros(4_294_967_295);
    let beyond = Duration::from_micros(4_294_967_296);
    assert!(RttStats::from_samples(&[beyond]).is_none());
    let stats = RttStats::from_samples(&[last, beyond]).unwrap();
    assert_eq!(stats.sample_count, 1);
    assert_eq!(stats.max, last);
}

#[test]
fn microseconds_are_kept_in_64_bits() {
    let wrapped = Duration { nanos: ((1u128 << 64) + 5) * 1000 };
    assert_eq!(sample_micros(wrapped), 5);
    assert_eq!(sample_micros(Duration { nanos: 1999 }), 1);
}

#[test]
fn sample_order_does_not_matter() {
    let mut samples: Vec<Duration> = (1..50).map(|i| Duration::from_micros(i * i * 37)).collect();
    let stats = RttStats::from_samples(&samples);
    samples.reverse();
    assert_eq!(RttStats::from_samples(&samples), stats);
    samples.swap(3, 40);
    assert_eq!(RttStats::from_samples(&samples), stats);
}

#[test]
fn percentiles_are_ordered() {
    let samples: Vec<Duration> = (0..500)
        .map(|i: u64| Duration::from_micros(1 + (i * 7919) % 100_003))
        .collect();
    let s = RttStats::from_samples(&samples).unwrap();
    assert!(s.min <= s.p50 && s.p50 <= s.p95 && s.p95 <= s.p99 && s.p99 <= s.max);
}

/// The same with one segment of data, acknowledged after so many milliseconds.
fn with_data(handshake: u64, data: u64) -> TrackedFlow {
    let mut flow = shaken_hands(handshake);
    let sent = handshake + 10;
    flow.process_packet(client(), TcpFlags::from_byte(0x18), 2, 2, 10, at(sent));
    flow.process_packet(server(), TcpFlags::from_byte(0x10), 2, 12, 0, at(sent + data));
    flow
}

#[test]
fn percentiles_are_the_samples_of_their_rank() {
    let samples: Vec<Duration> = (1..=2000).map(|n| Duration::from_micros(n)).collect();
    let stats = RttStats::from_samples(&samples).unwrap();
    assert_eq!(stats.p50, Duration::from_micros(1000));
    assert_eq!(stats.p95, Duration::from_micros(1900));
    assert_eq!(stats.p99, Duration::from_micros(1980));
    // Half of the samples at each mode: the median is at the lower one
    let mut samples = vec![Duration::from_micros(10); 50];
    samples.extend(vec![Duration::from_micros(100); 50]);
    assert_eq!(RttStats::from_samples(&samples).unwrap().p50, Duration::from_micros(10));
}

#[test]
fn flow_stats_run_from_initiator_to_responder() {
    let flow = with_data(20, 30);
    let stats = FlowStats::from_flow(&flow);
    assert_eq!(stats.src, client());
    assert_eq!(stats.dst, server());
    assert_eq!(stats.key, FlowKey { addr_a: server(), addr_b: client() });
    assert_eq!(stats.handshake_rtt, Some(Duration::from_millis(20)));
    assert_eq!(stats.sample_count, 2);
    assert_eq!(stats.packets, 5);
    assert_eq!(stats.bytes, 10);
    assert_eq!(stats.rtt_p50, stats.rtt.unwrap().p50);
    assert_eq!(stats.rtt_p99, stats.rtt.unwrap().p99);
    assert!(stats.has_rtt_data());
    // Of data alone
    assert_eq!(stats.rtt, RttStats::from_samples(&[Duration::from_millis(30)]));
    assert!((millis(stats.rtt_p50) - 30.0).abs() < 0.03);
}

#[test]
fn flow_stats_of_a_closing_flow_run_from_initiator_to_responder() {
    let mut flow = with_data(20, 30);
    for _ in 0..2 {
        flow.process_packet(client(), TcpFlags::from_byte(0x11), 2, 2, 0, at(90));
        let stats = FlowStats::from_flow(&flow);
        assert_eq!((stats.src, stats.dst), (client(), server()));
        assert_eq!(stats.handshake_rtt, None);
        assert_eq!(stats.sample_count, 2);
        assert_eq!(stats.rtt, RttStats::from_samples(&[Duration::from_millis(30)]));
    }
    assert!(!flow.is_active(at(90), Duration::from_secs(60)));
}

#[test]
fn a_bare_handshake_has_no_data_statistics() {
    let stats = FlowStats::from_flow(&shaken_hands(20));
    assert_eq!(stats.rtt, None);
    assert_eq!(stats.rtt_p50, Duration::zero());
    assert_eq!(stats.rtt_p99, Duration::zero());
    assert_eq!(stats.handshake_rtt, Some(Duration::from_millis(20)));
    assert_eq!(stats.sample_count, 1);
    assert!(stats.has_rtt_data());
}

#[test]
fn headline_prefers_percentiles_to_the_handshake() {
    let stats = FlowStats::from_flow(&with_data(20, 30));
    let rtt = stats.rtt.unwrap();
    assert_eq!(
        stats.headline(),
        Headline::Percentiles { p50: rtt.p50, p95: rtt.p95, p99: rtt.p99, samples: 2 }
    );
    assert_eq!(
        FlowStats::from_flow(&shaken_hands(20)).headline(),
        Headline::HandshakeOnly { handshake: Duration::from_millis(20) }
    );
    let fresh = TrackedFlow::new(FlowKey::new(client(), server()), client(), at(0), 1);
    let stats = FlowStats::from_flow(&fresh);
    assert_eq!(stats.headline(), Headline::NoData);
    assert!(!stats.has_rtt_data());
}

#[test]
fn aggregate_pools_the_medians() {
    let slow = FlowStats::from_flow(&with_data(1, 100));
    let fast = FlowStats::from_flow(&with_data(50, 1));
    let bare = FlowStats::from_flow(&shaken_hands(70));
    let fresh = TrackedFlow::new(FlowKey::new(client(), server()), client(), at(0), 1);
    let silent = FlowStats::from_flow(&fresh);

    let all = AggregateStats::from_flows(&[slow, fast, slow, bare, silent]);
    assert_eq!(all.flow_count, 5);
    assert_eq!(all.flows_with_rtt, 4);
    assert_eq!(all.total_samples, 7);
    assert_eq!(all.global_p50, Duration::from_micros(100_031));
    assert_eq!(all.global_p99, Duration::from_micros(100_031));

    let none = AggregateStats::from_flows(&[]);
    assert_eq!(
        none,
        AggregateStats {
            flow_count: 0,
            flows_with_rtt: 0,
            total_samples: 0,
            global_p50: Duration::zero(),
            global_p99: Duration::zero(),
        }
    );
    let mostly_fast = AggregateStats::from_flows(&[fast, slow, fast, silent]);
    assert_eq!(mostly_fast.global_p50, Duration::from_micros(1000));
    assert_eq!(mostly_fast.global_p99, Duration::from_micros(100_031));
}

#[test]
fn the_mean_lies_between_minimum_and_maximum() {
    for step in [1u64, 3, 1999, 2048, 70_001] {
        let samples: Vec<Duration> = (1..=300).map(|i| Duration::from_micros(i * step)).collect();
        for n in [1usize, 2, 7, 300] {
            let s = RttStats::from_samples(&samples[..n]).unwrap();
            assert!(s.min <= s.mean && s.mean <= s.max);
            assert_eq!(s.sample_count, n as u64);
        }
    }
}

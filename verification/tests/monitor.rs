//! Tests of the monitor, its configuration and its builder.

use std::collections::VecDeque;

use flow_rtt::addr::SocketAddr;
use flow_rtt::capture::{PacketSource, TcpPacketInfo};
use flow_rtt::flow::TcpFlags;
use flow_rtt::monitor::{
    CaptureTarget, MonitorBuilder, MonitorConfig, MonitorStep, NextAction, PassiveMonitor,
};
use flow_rtt::time::{Clock, Duration, Instant};
use flow_rtt::Error;

/// A source that gives prepared answers, then nothing.
struct Script {
    answers: VecDeque<Result<TcpPacketInfo, Error>>,
}

impl PacketSource for Script {
    fn next_tcp_packet(&mut self) -> Option<Result<TcpPacketInfo, Error>> {
        self.answers.pop_front()
    }
}

/// The time so many milliseconds after the start.
fn at(millis: u64) -> Instant {
    Instant { nanos: Duration::from_millis(millis).nanos }
}

fn addr(port: u16) -> SocketAddr {
    SocketAddr::V4 { ip: u32::from_be_bytes([10, 0, 0, 1]), port }
}

fn packet(src: u16, dst: u16, flags: u8, millis: u64) -> TcpPacketInfo {
    TcpPacketInfo {
        src: addr(src),
        dst: addr(dst),
        flags: TcpFlags::from_byte(flags),
        seq: 1,
        ack: 1,
        payload_len: 0,
        timestamp: at(millis),
    }
}

/// Two flows: one that completes its handshake in 4 ms, one that only begins.
fn two_flows() -> Vec<TcpPacketInfo> {
    vec![
        packet(5000, 80, 0x02, 0),
        packet(80, 5000, 0x12, 4),
        packet(5001, 80, 0x02, 5),
        packet(5000, 80, 0x10, 6),
    ]
}

fn monitor(
    answers: Vec<Result<TcpPacketInfo, Error>>,
    config: MonitorConfig,
) -> PassiveMonitor<Script> {
    let source = Script { answers: answers.into_iter().collect() };
    PassiveMonitor::from_source(source, config, Clock::start())
}

fn good(packets: Vec<TcpPacketInfo>) -> Vec<Result<TcpPacketInfo, Error>> {
    packets.into_iter().map(Ok).collect()
}

#[test]
fn test_config_defaults() {
    let config = MonitorConfig::default();
    assert_eq!(config.flow_timeout, Duration::from_secs(60));
    assert_eq!(config.max_flows, 10000);
    assert_eq!(config.filter, "tcp");
}

#[test]
fn test_config_builder() {
    let config = MonitorConfig::default()
        .with_timeout(Duration::from_secs(120))
        .with_filter("tcp port 80");

    assert_eq!(config.flow_timeout, Duration::from_secs(120));
    assert_eq!(config.filter, "tcp port 80");
}

#[test]
fn test_monitor_builder() {
    let builder = MonitorBuilder::new()
        .interface("eth0")
        .flow_timeout(Duration::from_secs(30))
        .max_flows(5000)
        .filter("tcp port 443");

    // Can't actually build without permissions
    // Just test the builder pattern works
    assert!(builder.interface.is_some());
}

#[test]
fn defaults_are_complete() {
    let config = MonitorConfig::default();
    assert_eq!(config.stats_interval, Duration::from_secs(10));
    assert_eq!(config.min_samples, 1);
    let builder = MonitorBuilder::default();
    assert!(builder.interface.is_none());
    assert!(builder.pcap_path.is_none());
    assert_eq!(builder.config.flow_timeout, Duration::from_secs(60));
    assert_eq!(builder.config.filter, "tcp");
}

#[test]
fn settings_do_not_touch_one_another() {
    let config = MonitorConfig::default().with_stats_interval(Duration::from_secs(5));
    assert_eq!(config.stats_interval, Duration::from_secs(5));
    assert_eq!(config.flow_timeout, Duration::from_secs(60));
    assert_eq!(config.filter, "tcp");

    let builder = MonitorBuilder::new()
        .interface("eth0")
        .pcap_file("a.pcap")
        .flow_timeout(Duration::from_secs(30))
        .max_flows(5000)
        .filter("tcp port 443")
        .stats_interval(Duration::from_secs(1));
    assert_eq!(builder.interface.as_deref(), Some("eth0"));
    assert_eq!(builder.pcap_path.as_deref(), Some("a.pcap"));
    assert_eq!(builder.config.flow_timeout, Duration::from_secs(30));
    assert_eq!(builder.config.max_flows, 5000);
    assert_eq!(builder.config.filter, "tcp port 443");
    assert_eq!(builder.config.stats_interval, Duration::from_secs(1));
    assert_eq!(builder.config.min_samples, 1);
}

#[test]
fn a_pcap_file_goes_before_an_interface() {
    let plan = MonitorBuilder::new().interface("eth0").pcap_file("a.pcap").build().unwrap();
    match plan.target {
        CaptureTarget::PcapFile(path) => assert_eq!(path, "a.pcap"),
        _ => panic!("not the file"),
    }
    let plan = MonitorBuilder::new().interface("eth0").max_flows(7).build().unwrap();
    match plan.target {
        CaptureTarget::Interface(name) => assert_eq!(name, "eth0"),
        _ => panic!("not the interface"),
    }
    assert_eq!(plan.config.max_flows, 7);
}

#[test]
fn nothing_to_open_is_an_error() {
    match MonitorBuilder::new().build() {
        Err(Error::CaptureOpen(msg)) => assert_eq!(msg, "No interface or pcap file specified"),
        _ => panic!("built"),
    }
}

#[test]
fn a_batch_reports_the_flows_seen_so_far() {
    let mut monitor = monitor(good(two_flows()), MonitorConfig::default());
    let stats = monitor.process_batch(1000).unwrap();
    assert_eq!(stats.len(), 2);
    assert!(!stats[1].has_rtt_data());
    assert_eq!(stats[1].src, addr(5001));
    assert_eq!(stats[0].src, addr(5000));
    assert_eq!(stats[0].dst, addr(80));
    assert_eq!(stats[0].handshake_rtt, Some(Duration::from_millis(4)));
    assert_eq!(stats[0].sample_count, 1);
    assert_eq!(stats[0].packets, 3);
    assert_eq!(monitor.flow_count(), 2);
    assert_eq!(monitor.all_flow_stats().len(), 2);
    assert_eq!(monitor.flows_with_rtt().len(), 1);
}

#[test]
fn a_batch_takes_no_more_than_asked() {
    let mut monitor = monitor(good(two_flows()), MonitorConfig::default());
    assert!(monitor.process_batch(0).unwrap().is_empty());
    assert_eq!(monitor.flow_count(), 0);
    let first = monitor.process_batch(1).unwrap();
    assert_eq!(first.len(), 1);
    assert!(!first[0].has_rtt_data());
    assert_eq!(monitor.flow_count(), 1);
    let second = monitor.process_batch(1).unwrap();
    assert_eq!(second.len(), 1);
    assert!(second[0].has_rtt_data());
    assert_eq!(monitor.flow_count(), 1);
    assert_eq!(monitor.process_batch(2).unwrap().len(), 2);
    assert_eq!(monitor.flow_count(), 2);
    // Nothing more comes
    assert_eq!(monitor.process_batch(10).unwrap().len(), 2);
}

#[test]
fn a_batch_ends_with_an_error_of_the_source() {
    let mut answers = good(two_flows());
    answers.insert(1, Err(Error::Capture("gone".to_string())));
    let mut monitor = monitor(answers, MonitorConfig::default());
    match monitor.process_batch(10) {
        Err(Error::Capture(msg)) => assert_eq!(msg, "gone"),
        _ => panic!("no error"),
    }
    assert_eq!(monitor.flow_count(), 1);
    assert_eq!(monitor.process_batch(10).unwrap().len(), 2);
}

#[test]
fn packets_are_taken_one_by_one() {
    let mut monitor = monitor(vec![], MonitorConfig::default());
    let mut told = vec![];
    for packet in whole_connection() {
        told.push(monitor.take_packet(packet, 2));
        assert_eq!(monitor.flow_count(), 1);
    }
    assert!(told[..6].iter().all(|t| t.is_none()));
    assert_eq!(told[6].unwrap().sample_count, 2);
}

#[test]
fn a_batch_lists_the_flows_that_it_completed() {
    let mut packets = whole_connection();
    packets.extend(vec![packet(5001, 80, 0x02, 32), packet(80, 5001, 0x12, 33)]);
    let config = MonitorConfig { min_samples: 9, ..MonitorConfig::default() };
    let mut monitor = monitor(good(packets), config);
    let stats = monitor.process_batch(100).unwrap();
    assert_eq!(stats.len(), 2);
    assert_eq!(stats[0].src, addr(5000));
    assert_eq!(stats[0].sample_count, 2);
    assert_eq!(stats[1].src, addr(5001));
    // The next batch does not list it again
    let stats = monitor.process_batch(100).unwrap();
    assert_eq!(stats.len(), 1);
    assert_eq!(stats[0].src, addr(5001));
}

#[test]
fn the_monitor_keeps_to_the_limit_on_flows() {
    let config = MonitorConfig { max_flows: 1, ..MonitorConfig::default() };
    let mut monitor = monitor(good(two_flows()), config);
    monitor.process_batch(3).unwrap();
    assert_eq!(monitor.flow_count(), 1);
    assert_eq!(monitor.all_flow_stats()[0].src, addr(5001));
}

#[test]
fn statistics_are_of_active_flows_only() {
    let config = MonitorConfig::default().with_timeout(Duration::from_millis(10));
    let mut monitor = monitor(good(two_flows()), config);
    while let Ok(MonitorStep::Continue { .. }) = monitor.process_next(at(0)) {}
    assert_eq!(monitor.all_flow_stats_at(at(14)).len(), 2);
    // The second flow was last seen at 5 ms, the first at 6 ms
    let left = monitor.all_flow_stats_at(at(15));
    assert_eq!(left.len(), 1);
    assert_eq!(left[0].src, addr(5000));
    assert!(monitor.all_flow_stats_at(at(16)).is_empty());
    assert!(monitor.flows_with_rtt_at(at(16)).is_empty());
    assert_eq!(monitor.flow_count(), 2);
}

#[test]
fn flows_with_rtt_are_those_with_samples() {
    let mut monitor = monitor(good(two_flows()), MonitorConfig::default());
    monitor.process_batch(10).unwrap();
    let all = monitor.all_flow_stats_at(at(7));
    let with_rtt = monitor.flows_with_rtt_at(at(7));
    let sampled: Vec<_> = all.iter().filter(|s| s.has_rtt_data()).copied().collect();
    assert_eq!(with_rtt, sampled);
    assert!(all[0].key.is_before(&all[1].key));
}

#[test]
fn reports_need_enough_samples() {
    for (min_samples, reported) in [(0u64, 2usize), (1, 1), (2, 0)] {
        let config = MonitorConfig { min_samples, ..MonitorConfig::default() };
        let mut monitor = monitor(good(two_flows()), config);
        monitor.process_batch(10).unwrap();
        assert_eq!(monitor.report_stats_at(at(7)).len(), reported);
        assert_eq!(monitor.report_stats().len(), reported);
    }
}

#[test]
fn reports_are_due_after_the_interval() {
    let config = MonitorConfig::default().with_stats_interval(Duration::from_millis(5));
    let monitor = monitor(vec![], config);
    assert!(!monitor.report_due(at(10), at(14)));
    assert!(monitor.report_due(at(10), at(15)));
    assert!(!monitor.report_due(at(10), at(3)));
}

#[test]
fn packets_are_processed_with_reports_in_between() {
    let config = MonitorConfig::default().with_stats_interval(Duration::zero());
    let mut monitor = monitor(good(two_flows()), config);
    let mut last_report = at(0);
    let mut lengths = vec![];
    loop {
        match monitor.process_next(last_report).unwrap() {
            MonitorStep::Continue { .. } => panic!("a report is always due"),
            MonitorStep::Report { completed, stats, last_report: now } => {
                assert_eq!(completed, None);
                assert!(now >= last_report);
                last_report = now;
                lengths.push(stats.len());
            }
            MonitorStep::Finished { stats } => {
                lengths.push(stats.len());
                break;
            }
        }
    }
    assert_eq!(lengths, vec![0, 1, 1, 1, 1]);
}

#[test]
fn packets_are_processed_without_reports_before_the_interval() {
    let mut answers = good(two_flows());
    answers.push(Err(Error::PcapFile("cut".to_string())));
    let mut monitor = monitor(answers, MonitorConfig::default());
    for _ in 0..4 {
        assert!(matches!(monitor.process_next(at(0)), Ok(MonitorStep::Continue { completed: None })));
    }
    assert!(matches!(monitor.process_next(at(0)), Err(Error::PcapFile(_))));
    match monitor.process_next(at(0)) {
        Ok(MonitorStep::Finished { stats }) => assert_eq!(stats.len(), 1),
        _ => panic!("not finished"),
    }
}

#[test]
fn each_answer_has_its_action() {
    let config = MonitorConfig::default().with_stats_interval(Duration::from_millis(5));
    let mut monitor = monitor(vec![], config);
    let syn = packet(5000, 80, 0x02, 0);
    assert_eq!(monitor.act_on_answer(Some(Ok(syn)), at(10), at(14)).unwrap(), NextAction::Continue { completed: None });
    assert_eq!(monitor.flow_count(), 1);
    let syn = packet(5001, 80, 0x02, 0);
    assert_eq!(monitor.act_on_answer(Some(Ok(syn)), at(10), at(15)).unwrap(), NextAction::Report { completed: None });
    assert_eq!(monitor.flow_count(), 2);
    // Without a packet the time does not matter
    assert_eq!(monitor.act_on_answer(None, at(10), at(14)).unwrap(), NextAction::Finish);
    assert_eq!(monitor.act_on_answer(None, at(10), at(15)).unwrap(), NextAction::Finish);
    match monitor.act_on_answer(Some(Err(Error::Capture("x".to_string()))), at(10), at(15)) {
        Err(Error::Capture(msg)) => assert_eq!(msg, "x"),
        _ => panic!("no error"),
    }
    assert_eq!(monitor.flow_count(), 2);
}

/// A whole connection: handshake in 4 ms, one segment acknowledged in 10 ms, both ends close.
fn whole_connection() -> Vec<TcpPacketInfo> {
    let data = TcpPacketInfo { payload_len: 10, ..packet(5000, 80, 0x18, 10) };
    let ack = TcpPacketInfo { ack: 11, ..packet(80, 5000, 0x10, 20) };
    vec![
        packet(5000, 80, 0x02, 0),
        packet(80, 5000, 0x12, 4),
        packet(5000, 80, 0x10, 5),
        data,
        ack,
        packet(5000, 80, 0x11, 30),
        packet(80, 5000, 0x11, 31),
    ]
}

#[test]
fn a_completed_flow_is_told_once() {
    let mut packets = whole_connection();
    packets.push(packet(5000, 80, 0x10, 32));
    let mut monitor = monitor(good(packets), MonitorConfig::default());
    let mut told = vec![];
    loop {
        match monitor.process_next(at(0)).unwrap() {
            MonitorStep::Continue { completed } => told.push(completed),
            MonitorStep::Report { .. } => panic!("no report is due"),
            MonitorStep::Finished { stats } => {
                // It is closed, so the last report does not have it
                assert!(stats.is_empty());
                break;
            }
        }
    }
    assert_eq!(told.len(), 8);
    assert!(told.iter().enumerate().all(|(i, t)| t.is_some() == (i == 6)));
    let stats = told[6].unwrap();
    assert_eq!((stats.src, stats.dst), (addr(5000), addr(80)));
    assert_eq!(stats.sample_count, 2);
    assert_eq!(stats.packets, 7);
    assert_eq!(stats.rtt.unwrap().sample_count, 1);
    assert_eq!(stats.rtt_p50.as_millis(), 10);
}

#[test]
fn a_completed_flow_needs_enough_samples() {
    for (min_samples, told) in [(2u64, 1usize), (3, 0)] {
        let config = MonitorConfig { min_samples, ..MonitorConfig::default() };
        let mut monitor = monitor(good(whole_connection()), config);
        assert_eq!(monitor.process_all().0.len(), told);
    }
}

#[test]
fn all_packets_are_taken_until_the_source_is_dry() {
    let mut packets = two_flows();
    packets.push(packet(5002, 80, 0x02, 9));
    packets.push(packet(80, 5002, 0x04, 10));
    packets.push(packet(80, 5002, 0x04, 11));
    let config = MonitorConfig { min_samples: 0, ..MonitorConfig::default() };
    let mut monitor = monitor(good(packets), config);
    let (told, failure) = monitor.process_all();
    assert!(failure.is_none());
    assert_eq!(told.len(), 1);
    assert_eq!(told[0].src, addr(5002));
    assert_eq!(monitor.flow_count(), 3);
    assert_eq!(monitor.all_flow_stats().len(), 2);
    assert!(monitor.process_all().0.is_empty());
}

#[test]
fn an_error_ends_taking_all_packets() {
    let mut answers = good(whole_connection());
    answers.push(Err(Error::PcapFile("cut".to_string())));
    answers.extend(good(two_flows()));
    let mut monitor = monitor(answers, MonitorConfig::default());
    let (told, failure) = monitor.process_all();
    // What was completed before the error is told
    assert_eq!(told.len(), 1);
    assert!(matches!(failure, Some(Error::PcapFile(_))));
    assert_eq!(monitor.flow_count(), 1);
    // The rest is still there
    let (told, failure) = monitor.process_all();
    assert!(told.is_empty() && failure.is_none());
    assert_eq!(monitor.flow_count(), 2);
}

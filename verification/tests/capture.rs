//! Tests of packet parsing and of the packet sources.

use flow_rtt::addr::SocketAddr;
use flow_rtt::capture::{
    file_step, frame_step, live_step, packet_from_frame, parse_tcp_packet, select_interface,
    time_in_replay, CaptureRead, NetAddresses, SlicedFrame, SourceStep, TcpPacketInfo, TcpSegment,
};
use flow_rtt::flow::TcpFlags;
use flow_rtt::time::{Duration, Instant};
use flow_rtt::Error;

const NOW: Instant = Instant { nanos: 77 };

/// A TCP header of so many words, with the given flags, and a payload.
fn tcp(words: u8, flags: u8, payload: &[u8]) -> Vec<u8> {
    let mut bytes = vec![0xc3, 0x50, 0x00, 0x50];
    bytes.extend_from_slice(&[0x01, 0x02, 0x03, 0x04, 0x0a, 0x0b, 0x0c, 0x0d]);
    bytes.extend_from_slice(&[words << 4, flags, 0xff, 0xff, 0, 0, 0, 0]);
    bytes.resize(4 * words as usize, 1);
    bytes.extend_from_slice(payload);
    bytes
}

fn ethernet(ether_type: [u8; 2], payload: &[u8]) -> Vec<u8> {
    let mut bytes = vec![0xaa; 12];
    bytes.extend_from_slice(&ether_type);
    bytes.extend_from_slice(payload);
    bytes
}

fn ipv4(protocol: u8, fragment: [u8; 2], payload: &[u8]) -> Vec<u8> {
    let total = (20 + payload.len()) as u16;
    let mut bytes = vec![0x45, 0];
    bytes.extend_from_slice(&total.to_be_bytes());
    bytes.extend_from_slice(&[0, 1, fragment[0], fragment[1], 64, protocol, 0, 0]);
    bytes.extend_from_slice(&[10, 0, 0, 9, 10, 0, 0, 1]);
    bytes.extend_from_slice(payload);
    bytes
}

fn ipv6(next_header: u8, payload: &[u8]) -> Vec<u8> {
    let mut bytes = vec![0x60, 0, 0, 0];
    bytes.extend_from_slice(&(payload.len() as u16).to_be_bytes());
    bytes.extend_from_slice(&[next_header, 64]);
    bytes.extend_from_slice(&0x2001_0db8_0000_0000_0000_0000_0000_0009u128.to_be_bytes());
    bytes.extend_from_slice(&0x2001_0db8_0000_0000_0000_0000_0000_0001u128.to_be_bytes());
    bytes.extend_from_slice(payload);
    bytes
}

fn v4_packet(flags: u8, payload_len: u16) -> TcpPacketInfo {
    TcpPacketInfo {
        src: SocketAddr::V4 { ip: 0x0a00_0009, port: 50000 },
        dst: SocketAddr::V4 { ip: 0x0a00_0001, port: 80 },
        flags: TcpFlags::from_byte(flags),
        seq: 0x0102_0304,
        ack: 0x0a0b_0c0d,
        payload_len,
        timestamp: NOW,
    }
}

fn v6_packet(flags: u8, payload_len: u16) -> TcpPacketInfo {
    TcpPacketInfo {
        src: SocketAddr::V6 {
            ip: 0x2001_0db8_0000_0000_0000_0000_0000_0009,
            port: 50000,
            flowinfo: 0,
            scope_id: 0,
        },
        dst: SocketAddr::V6 {
            ip: 0x2001_0db8_0000_0000_0000_0000_0000_0001,
            port: 80,
            flowinfo: 0,
            scope_id: 0,
        },
        ..v4_packet(flags, payload_len)
    }
}

const IPV4: [u8; 2] = [0x08, 0x00];
const IPV6: [u8; 2] = [0x86, 0xdd];

#[test]
fn test_tcp_flags_parsing() {
    let flags = TcpFlags::from_byte(0x02); // SYN
    assert!(flags.syn);
    assert!(!flags.ack);

    let flags = TcpFlags::from_byte(0x12); // SYN-ACK
    assert!(flags.syn);
    assert!(flags.ack);

    let flags = TcpFlags::from_byte(0x10); // ACK
    assert!(!flags.syn);
    assert!(flags.ack);
}

#[test]
fn tcp_over_ipv4_is_parsed() {
    let frame = ethernet(IPV4, &ipv4(6, [0x40, 0], &tcp(5, 0x18, b"hello")));
    assert_eq!(parse_tcp_packet(&frame, NOW), Some(v4_packet(0x18, 5)));
}

#[test]
fn padding_behind_the_ip_packet_does_not_count() {
    let mut frame = ethernet(IPV4, &ipv4(6, [0, 0], &tcp(5, 0x10, b"")));
    frame.extend_from_slice(&[0; 6]);
    assert_eq!(parse_tcp_packet(&frame, NOW), Some(v4_packet(0x10, 0)));
}

#[test]
fn ip_and_tcp_options_are_skipped() {
    let mut packet = ipv4(6, [0, 0], &tcp(8, 0x02, b""));
    // One word of options behind the IP header
    packet[0] = 0x46;
    packet[3] += 4;
    for _ in 0..4 {
        packet.insert(20, 1);
    }
    let frame = ethernet(IPV4, &packet);
    assert_eq!(parse_tcp_packet(&frame, NOW), Some(v4_packet(0x02, 0)));
}

#[test]
fn tcp_over_ipv6_is_parsed() {
    let frame = ethernet(IPV6, &ipv6(6, &tcp(5, 0x12, b"abc")));
    assert_eq!(parse_tcp_packet(&frame, NOW), Some(v6_packet(0x12, 3)));
}

#[test]
fn an_ipv6_packet_without_a_length_runs_to_the_end() {
    let mut packet = ipv6(6, &tcp(5, 0x12, b"abc"));
    packet[5] = 0;
    assert_eq!(parse_tcp_packet(&ethernet(IPV6, &packet), NOW), Some(v6_packet(0x12, 3)));
    packet.truncate(40);
    assert_eq!(parse_tcp_packet(&ethernet(IPV6, &packet), NOW), None);
}

#[test]
fn vlan_tags_and_extension_headers_are_passed_over() {
    let mut tagged = vec![0x00, 0x05];
    tagged.extend_from_slice(&IPV4);
    tagged.extend_from_slice(&ipv4(6, [0, 0], &tcp(5, 0x10, b"")));
    let frame = ethernet([0x81, 0x00], &tagged);
    assert_eq!(parse_tcp_packet(&frame, NOW), Some(v4_packet(0x10, 0)));

    // Hop-by-hop options in front of the segment
    let mut payload = vec![6, 0, 1, 4, 0, 0, 0, 0];
    payload.extend_from_slice(&tcp(5, 0x10, b""));
    let frame = ethernet(IPV6, &ipv6(0, &payload));
    assert_eq!(parse_tcp_packet(&frame, NOW), Some(v6_packet(0x10, 0)));
}

#[test]
fn other_frames_hold_no_tcp_packet() {
    let segment = tcp(5, 0x10, b"");
    // Too short for an Ethernet header
    assert_eq!(parse_tcp_packet(&[], NOW), None);
    assert_eq!(parse_tcp_packet(&[0; 13], NOW), None);
    // Not IP
    assert_eq!(parse_tcp_packet(&ethernet([0x88, 0xcc], &[0; 40]), NOW), None);
    // ARP
    let mut arp = vec![0, 1, 0x08, 0x00, 6, 4, 0, 1];
    arp.resize(28, 9);
    assert_eq!(parse_tcp_packet(&ethernet([0x08, 0x06], &arp), NOW), None);
    // UDP
    let udp = [0xc3, 0x50, 0, 53, 0, 8, 0, 0];
    assert_eq!(parse_tcp_packet(&ethernet(IPV4, &ipv4(17, [0, 0], &udp)), NOW), None);
    // A fragment
    assert_eq!(parse_tcp_packet(&ethernet(IPV4, &ipv4(6, [0x20, 0], &segment)), NOW), None);
    assert_eq!(parse_tcp_packet(&ethernet(IPV4, &ipv4(6, [0, 1], &segment)), NOW), None);
    // Cut off
    let whole = ethernet(IPV4, &ipv4(6, [0, 0], &segment));
    for len in 0..whole.len() {
        assert_eq!(parse_tcp_packet(&whole[..len], NOW), None);
    }
    // A TCP header too short, or longer than the packet
    assert_eq!(parse_tcp_packet(&ethernet(IPV4, &ipv4(6, [0, 0], &segment[..19])), NOW), None);
    let mut bad = segment.clone();
    bad[12] = 0x40;
    assert_eq!(parse_tcp_packet(&ethernet(IPV4, &ipv4(6, [0, 0], &bad)), NOW), None);
    bad[12] = 0x60;
    assert_eq!(parse_tcp_packet(&ethernet(IPV4, &ipv4(6, [0, 0], &bad)), NOW), None);
}

#[test]
fn frames_need_both_layers() {
    let bytes = tcp(6, 0x12, b"data");
    let segment = TcpSegment {
        bytes: &bytes,
        source_port: 50000,
        destination_port: 80,
        sequence_number: 0x0102_0304,
        acknowledgment_number: 0x0a0b_0c0d,
        data_offset: 6,
    };
    let net = NetAddresses::V4 { src: 0x0a00_0009, dst: 0x0a00_0001 };
    let frame = SlicedFrame { net: Some(net), tcp: Some(segment) };
    assert_eq!(packet_from_frame(&frame, NOW), Some(v4_packet(0x12, 4)));
    let net = NetAddresses::V6 {
        src: 0x2001_0db8_0000_0000_0000_0000_0000_0009,
        dst: 0x2001_0db8_0000_0000_0000_0000_0000_0001,
    };
    let frame = SlicedFrame { net: Some(net), tcp: Some(segment) };
    assert_eq!(packet_from_frame(&frame, NOW), Some(v6_packet(0x12, 4)));
    assert_eq!(packet_from_frame(&SlicedFrame { net: Some(net), tcp: None }, NOW), None);
    assert_eq!(packet_from_frame(&SlicedFrame { net: None, tcp: Some(segment) }, NOW), None);
}

#[test]
fn payload_length_is_kept_in_16_bits() {
    let bytes = vec![0; 0x1_0000 + 40];
    let segment = TcpSegment {
        bytes: &bytes,
        source_port: 1,
        destination_port: 2,
        sequence_number: 3,
        acknowledgment_number: 4,
        data_offset: 5,
    };
    let net = NetAddresses::V4 { src: 1, dst: 2 };
    let frame = SlicedFrame { net: Some(net), tcp: Some(segment) };
    assert_eq!(packet_from_frame(&frame, NOW).unwrap().payload_len, 20);
    let frame = SlicedFrame { tcp: Some(TcpSegment { bytes: &bytes[..20], data_offset: 200, ..segment }), ..frame };
    assert_eq!(packet_from_frame(&frame, NOW).unwrap().payload_len, 0);
}

/// A frame captured so many nanoseconds after the epoch.
fn read(data: &[u8], nanos: u128) -> CaptureRead<'_> {
    CaptureRead::Frame { data, captured: Duration { nanos } }
}

fn packet_in(step: SourceStep) -> TcpPacketInfo {
    match step {
        SourceStep::Answer(Some(Ok(info))) => info,
        _ => panic!("no packet"),
    }
}

#[test]
fn sources_skip_frames_without_a_packet() {
    assert!(matches!(frame_step(None), SourceStep::ReadOn));
    assert_eq!(packet_in(frame_step(Some(v4_packet(0x10, 3)))), v4_packet(0x10, 3));
    assert!(matches!(live_step(read(&[0; 60], 5), NOW), SourceStep::ReadOn));
    let mut base = None;
    assert!(matches!(file_step(&mut base, read(&[0; 60], 5), NOW), SourceStep::ReadOn));
    assert_eq!(base, Some(NOW));
}

#[test]
fn live_packets_carry_the_time_of_their_capture() {
    let frame = ethernet(IPV4, &ipv4(6, [0, 0], &tcp(5, 0x10, b"")));
    let info = packet_in(live_step(read(&frame, 5), NOW));
    assert_eq!(info, v4_packet(0x10, 0));
    let later = Instant { nanos: 99 };
    assert_eq!(packet_in(live_step(read(&frame, 5), later)).timestamp, later);
}

#[test]
fn live_capture_ends_when_the_time_is_up() {
    let timed_out = CaptureRead::TimedOut("timeout expired".to_string());
    assert!(matches!(live_step(timed_out, NOW), SourceStep::Answer(None)));
    for read in [CaptureRead::Failed("x".to_string()), CaptureRead::NoMorePackets("x".to_string())] {
        match live_step(read, NOW) {
            SourceStep::Answer(Some(Err(Error::Capture(msg)))) => assert_eq!(msg, "x"),
            _ => panic!("no failure"),
        }
    }
}

#[test]
fn a_bare_acknowledgement_has_no_payload() {
    let frame = [
        0, 0, 0, 0, 0, 2, 0, 0, 0, 0, 0, 1, 0x08, 0x00, 0x45, 0x00, 0x00, 0x28, 0, 0, 0, 0, 0x40,
        0x06, 0, 0, 0xc0, 0xa8, 0x01, 0x01, 0xc0, 0xa8, 0x01, 0x02, 0xc3, 0x50, 0x00, 0x50, 0, 0,
        0x03, 0xe8, 0, 0, 0x07, 0xd1, 0x50, 0x10, 0xff, 0xff, 0, 0, 0, 0,
    ];
    let info = parse_tcp_packet(&frame, NOW).unwrap();
    assert_eq!(info.payload_len, 0);
    assert_eq!((info.seq, info.ack), (1000, 2001));
    assert!(info.flags.is_pure_ack());
}

#[test]
fn replayed_packets_are_as_far_apart_as_they_were_captured() {
    let frame = ethernet(IPV4, &ipv4(6, [0, 0], &tcp(5, 0x10, b"")));
    let mut base = None;
    let mut time = |nanos: u128, now: u128| {
        packet_in(file_step(&mut base, read(&frame, nanos), Instant { nanos: now })).timestamp.nanos
    };
    // However long the reading takes, and also before the first frame
    assert_eq!(time(1_000_000, 77), 1_000_077);
    assert_eq!(time(1_000_400, 5000), 1_000_477);
    assert_eq!(time(1_000_400, 6000), 1_000_477);
    assert_eq!(time(999_990, 6001), 1_000_067);
    assert_eq!(time(20, 6002), 97);
    assert_eq!(time(0, 6003), 77);
    assert_eq!(base, Some(NOW));
}

#[test]
fn replay_times_stay_in_range() {
    let base = Instant { nanos: 10 };
    assert_eq!(time_in_replay(base, Duration { nanos: 90 }), Instant { nanos: 100 });
    assert_eq!(time_in_replay(base, Duration { nanos: u128::MAX }), Instant { nanos: u128::MAX });
}

#[test]
fn replay_ends_with_the_file() {
    let mut base = Some(NOW);
    let end = CaptureRead::NoMorePackets("no more packets".to_string());
    assert!(matches!(file_step(&mut base, end, NOW), SourceStep::Answer(None)));
    for read in [CaptureRead::Failed("x".to_string()), CaptureRead::TimedOut("x".to_string())] {
        match file_step(&mut base, read, Instant { nanos: 99 }) {
            SourceStep::Answer(Some(Err(Error::PcapFile(msg)))) => assert_eq!(msg, "x"),
            _ => panic!("no failure"),
        }
    }
    assert_eq!(base, Some(NOW));
}

#[test]
fn interfaces_are_found_by_name() {
    let names: Vec<String> = ["lo", "eth0", "eth1", "eth0"].iter().map(|n| n.to_string()).collect();
    assert_eq!(select_interface(&names, "eth0").unwrap(), 1);
    assert_eq!(select_interface(&names, "lo").unwrap(), 0);
    for absent in ["eth", "ETH0", ""] {
        match select_interface(&names, absent) {
            Err(Error::InterfaceNotFound(name)) => assert_eq!(name, absent),
            _ => panic!("found"),
        }
    }
    assert!(select_interface(&[], "lo").is_err());
}

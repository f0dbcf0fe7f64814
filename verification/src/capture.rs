//! Packet sources, and what they make of the frames that are read.

use etherparse::NetSlice::{Ipv4, Ipv6};
use etherparse::SlicedPacket;
use etherparse::TransportSlice::Tcp;
use vstd::prelude::*;

use crate::addr::SocketAddr;
use crate::capture::NetAddresses::{V4, V6};
use crate::error::Error;
use crate::flow::{flags_in, TcpFlags};
use crate::time::{Duration, Instant};

pub use crate::packet::TcpPacketInfo;

verus! {

/// Trait for packet sources
pub trait PacketSource {
    /// Get the next TCP packet
    fn next_tcp_packet(&mut self) -> Option<Result<TcpPacketInfo, Error>>;
}

/// The addresses of the IP layer of a frame.
#[allow(inconsistent_fields)]
#[derive(Debug, Clone, Copy, PartialEq, Eq, Structural)]
pub enum NetAddresses {
    /// IPv4; an address holds its four octets, most significant first.
    V4 { src: u32, dst: u32 },
    /// IPv6; an address holds its sixteen octets, most significant first.
    V6 { src: u128, dst: u128 },
}

/// The TCP layer of a frame.
#[derive(Debug, Clone, Copy)]
pub struct TcpSegment<'a> {
    /// The header, with its options, and the payload.
    pub bytes: &'a [u8],
    pub source_port: u16,
    pub destination_port: u16,
    pub sequence_number: u32,
    pub acknowledgment_number: u32,
    /// Length of the header in words of four bytes.
    pub data_offset: u8,
}

/// An Ethernet frame taken apart.
#[derive(Debug, Clone, Copy)]
pub struct SlicedFrame<'a> {
    /// The addresses, where the frame has an IP layer.
    pub net: Option<NetAddresses>,
    /// The segment, where the frame has a TCP layer.
    pub tcp: Option<TcpSegment<'a>>,
}

/// What a [`TcpSegment`] stands for.
#[verifier::ext_equal]
pub struct SegmentModel {
    pub bytes: Seq<u8>,
    pub source_port: u16,
    pub destination_port: u16,
    pub sequence_number: u32,
    pub acknowledgment_number: u32,
    pub data_offset: u8,
}

/// What a [`SlicedFrame`] stands for.
#[verifier::ext_equal]
pub struct FrameModel {
    pub net: Option<NetAddresses>,
    pub tcp: Option<SegmentModel>,
}

impl<'a> View for TcpSegment<'a> {
    type V = SegmentModel;

    open spec fn view(&self) -> SegmentModel {
        SegmentModel {
            bytes: self.bytes@,
            source_port: self.source_port,
            destination_port: self.destination_port,
            sequence_number: self.sequence_number,
            acknowledgment_number: self.acknowledgment_number,
            data_offset: self.data_offset,
        }
    }
}

impl<'a> View for SlicedFrame<'a> {
    type V = FrameModel;

    open spec fn view(&self) -> FrameModel {
        FrameModel {
            net: self.net,
            tcp: match self.tcp {
                Some(tcp) => Some(tcp@),
                None => None,
            },
        }
    }
}

/// The number that some bytes spell, most significant first.
pub open spec fn number(bytes: Seq<u8>) -> nat
    decreases bytes.len(),
{
    if bytes.len() == 0 {
        0
    } else {
        256 * number(bytes.drop_last()) + bytes.last() as nat
    }
}

/// The number spelt by the `len` bytes from `start` on.
pub open spec fn number_at(bytes: Seq<u8>, start: int, len: int) -> int {
    number(bytes.subrange(start, start + len)) as int
}

/// The bytes begin with a whole TCP header.
pub open spec fn starts_with_tcp_header(bytes: Seq<u8>) -> bool {
    bytes.len() >= 20 && bytes[12] / 16 >= 5 && 4 * (bytes[12] / 16) <= bytes.len()
}

/// The segment that some bytes make, with the fields of its header.
pub open spec fn segment_of(bytes: Seq<u8>) -> SegmentModel {
    SegmentModel {
        bytes,
        source_port: number_at(bytes, 0, 2) as u16,
        destination_port: number_at(bytes, 2, 2) as u16,
        sequence_number: number_at(bytes, 4, 4) as u32,
        acknowledgment_number: number_at(bytes, 8, 4) as u32,
        data_offset: bytes[12] / 16,
    }
}

/// The payload of the IPv4 packet in an untagged Ethernet frame, up to the length that its
/// header gives.
pub open spec fn ipv4_payload(data: Seq<u8>) -> Seq<u8> {
    data.subrange(14 + 4 * (data[14] % 16), 14 + number_at(data, 16, 2))
}

/// An untagged Ethernet frame that holds a whole IPv4 packet, no fragment, with a TCP segment.
pub open spec fn holds_tcp_over_ipv4(data: Seq<u8>) -> bool {
    &&& data.len() >= 34
    &&& number_at(data, 12, 2) == 0x0800
    &&& data[14] / 16 == 4
    &&& data[14] % 16 >= 5
    &&& 4 * (data[14] % 16) <= number_at(data, 16, 2) <= data.len() - 14
    &&& number_at(data, 20, 2) % 0x4000 == 0
    &&& data[23] == 6
    &&& starts_with_tcp_header(ipv4_payload(data))
}

/// The frame that such data makes.
pub open spec fn frame_over_ipv4(data: Seq<u8>) -> FrameModel {
    FrameModel {
        net: Some(
            NetAddresses::V4 {
                src: number_at(data, 26, 4) as u32,
                dst: number_at(data, 30, 4) as u32,
            },
        ),
        tcp: Some(segment_of(ipv4_payload(data))),
    }
}

/// The payload of the IPv6 packet in an untagged Ethernet frame, up to the length that its
/// header gives, or to the end of the frame where the header gives none.
pub open spec fn ipv6_payload(data: Seq<u8>) -> Seq<u8> {
    if number_at(data, 18, 2) == 0 {
        data.subrange(54, data.len() as int)
    } else {
        data.subrange(54, 54 + number_at(data, 18, 2))
    }
}

/// An untagged Ethernet frame that holds a whole IPv6 packet with a TCP segment directly behind
/// its header.
pub open spec fn holds_tcp_over_ipv6(data: Seq<u8>) -> bool {
    &&& data.len() >= 54
    &&& number_at(data, 12, 2) == 0x86dd
    &&& data[14] / 16 == 6
    &&& number_at(data, 18, 2) <= data.len() - 54
    &&& data[20] == 6
    &&& starts_with_tcp_header(ipv6_payload(data))
}

/// The frame that such data makes.
pub open spec fn frame_over_ipv6(data: Seq<u8>) -> FrameModel {
    FrameModel {
        net: Some(
            NetAddresses::V6 {
                src: number_at(data, 22, 16) as u128,
                dst: number_at(data, 38, 16) as u128,
            },
        ),
        tcp: Some(segment_of(ipv6_payload(data))),
    }
}

/// Nothing but an IP header stands between the Ethernet header and the transport layer: the
/// frame has no VLAN tag and no MACsec, an IPv4 packet no authentication header, and an IPv6
/// packet no extension header.
pub open spec fn is_plain(data: Seq<u8>) -> bool {
    let ether_type = number_at(data, 12, 2);
    &&& data.len() >= 14
    &&& ether_type != 0x8100 && ether_type != 0x88a8 && ether_type != 0x9100
    &&& ether_type != 0x88e5
    &&& ether_type == 0x0800 && data.len() >= 34 ==> data[23] != 51
    &&& ether_type == 0x86dd && data.len() >= 54 ==> data[20] != 0 && data[20] != 43 && data[20]
        != 44 && data[20] != 51 && data[20] != 60
}

/// The frame came apart and has a TCP layer.
pub open spec fn has_tcp(frame: Option<FrameModel>) -> bool {
    frame matches Some(f) && f.tcp is Some
}

/// What a frame that may not have come apart stands for.
pub open spec fn frame_model(frame: Option<SlicedFrame<'_>>) -> Option<FrameModel> {
    match frame {
        Some(f) => Some(f@),
        None => None,
    }
}

/// The TCP layer of a frame, where there is one, begins with a whole header, and its fields are
/// read from there.
pub open spec fn reads_its_header(frame: Option<FrameModel>) -> bool {
    frame matches Some(f) ==> f.tcp matches Some(tcp) ==> starts_with_tcp_header(tcp.bytes) && tcp
        == segment_of(tcp.bytes)
}

/// What `SlicedPacket::from_ethernet` makes of the given data.
pub uninterp spec fn sliced_ethernet(data: Seq<u8>) -> Option<FrameModel>;

/// `SlicedPacket::from_ethernet`, with the accessors of its slices: takes an Ethernet frame
/// apart, or fails. Data too short for an Ethernet header fails. Of a frame with a TCP layer,
/// the fields are those of the header that the layer begins with. A plain IPv4 or IPv6 packet
/// with a TCP segment comes apart as the two formats say, and no other plain frame has a TCP
/// layer. Frames with VLAN tags, MACsec, authentication or extension headers come apart too; how
/// is not stated.
#[verifier::external_body]
fn slice_ethernet(data: &[u8]) -> (frame: Option<SlicedFrame<'_>>)
    ensures
        frame_model(frame) == sliced_ethernet(data@),
        data@.len() < 14 ==> frame is None,
        reads_its_header(frame_model(frame)),
        holds_tcp_over_ipv4(data@) ==> frame_model(frame) == Some(frame_over_ipv4(data@)),
        holds_tcp_over_ipv6(data@) ==> frame_model(frame) == Some(frame_over_ipv6(data@)),
        is_plain(data@) && !holds_tcp_over_ipv4(data@) && !holds_tcp_over_ipv6(data@) ==> !has_tcp(
            frame_model(frame),
        ),
{
    let packet = SlicedPacket::from_ethernet(data).ok()?;
    Some(SlicedFrame {
        net: match packet.net {
            Some(Ipv4(ip)) => Some(V4 { src: ip.header().source_addr().into(), dst: ip.header().destination_addr().into() }),
            Some(Ipv6(ip)) => Some(V6 { src: ip.header().source_addr().into(), dst: ip.header().destination_addr().into() }),
            _ => None
        },
        tcp: match packet.transport {
            Some(Tcp(t)) => Some(TcpSegment {
                bytes: t.slice(), source_port: t.source_port(), destination_port: t.destination_port(), data_offset: t.data_offset(),
                sequence_number: t.sequence_number(), acknowledgment_number: t.acknowledgment_number()
            }),
            _ => None
        },
    })
}

/// The packet of a frame with a TCP segment between the given endpoints. The payload is what the
/// segment has beyond its header, counted in 16 bits.
pub open spec fn tcp_packet(
    src: SocketAddr,
    dst: SocketAddr,
    tcp: SegmentModel,
    timestamp: Instant,
) -> TcpPacketInfo {
    TcpPacketInfo {
        src,
        dst,
        flags: flags_in(tcp.bytes[13]),
        seq: tcp.sequence_number,
        ack: tcp.acknowledgment_number,
        payload_len: if tcp.bytes.len() > 4 * tcp.data_offset {
            ((tcp.bytes.len() - 4 * tcp.data_offset) % 0x1_0000) as u16
        } else {
            0
        },
        timestamp,
    }
}

/// The packet of a frame: there is one where the frame has an IP layer and a TCP layer.
pub open spec fn packet_of(frame: FrameModel, timestamp: Instant) -> Option<TcpPacketInfo> {
    match (frame.net, frame.tcp) {
        (Some(NetAddresses::V4 { src, dst }), Some(tcp)) => Some(
            tcp_packet(
                SocketAddr::V4 { ip: src, port: tcp.source_port },
                SocketAddr::V4 { ip: dst, port: tcp.destination_port },
                tcp,
                timestamp,
            ),
        ),
        (Some(NetAddresses::V6 { src, dst }), Some(tcp)) => Some(
            tcp_packet(
                SocketAddr::V6 { ip: src, port: tcp.source_port, flowinfo: 0, scope_id: 0 },
                SocketAddr::V6 { ip: dst, port: tcp.destination_port, flowinfo: 0, scope_id: 0 },
                tcp,
                timestamp,
            ),
        ),
        _ => None,
    }
}

/// The packet of a frame that may not have come apart.
pub open spec fn packet_in(frame: Option<FrameModel>, timestamp: Instant) -> Option<TcpPacketInfo> {
    match frame {
        Some(f) => packet_of(f, timestamp),
        None => None,
    }
}

/// Extracts the TCP information from a frame.
pub fn packet_from_frame(frame: &SlicedFrame<'_>, timestamp: Instant) -> (info: Option<
    TcpPacketInfo,
>)
    requires
        frame.tcp matches Some(tcp) ==> tcp.bytes@.len() >= 20,
    ensures
        info == packet_of(frame@, timestamp),
        info is Some <==> frame.net is Some && frame.tcp is Some,
        (info, frame.tcp) matches (Some(p), Some(tcp)) ==> {
            &&& p.timestamp == timestamp
            &&& p.seq == tcp.sequence_number
            &&& p.ack == tcp.acknowledgment_number
            &&& p.flags == flags_in(tcp.bytes@[13])
            &&& tcp.bytes@.len() <= 4 * tcp.data_offset ==> p.payload_len == 0
            &&& 0 <= tcp.bytes@.len() - 4 * tcp.data_offset < 65_536 ==> p.payload_len + 4
                * tcp.data_offset == tcp.bytes@.len()
            &&& tcp.bytes@.len() >= 4 * tcp.data_offset ==> (tcp.bytes@.len() - 4 * tcp.data_offset
                - p.payload_len) % 65_536 == 0
        },
        (info, frame.tcp, frame.net) matches (
            Some(p),
            Some(tcp),
            Some(NetAddresses::V4 { src, dst }),
        ) ==> {
            &&& p.src == (SocketAddr::V4 { ip: src, port: tcp.source_port })
            &&& p.dst == (SocketAddr::V4 { ip: dst, port: tcp.destination_port })
        },
        (info, frame.tcp, frame.net) matches (
            Some(p),
            Some(tcp),
            Some(NetAddresses::V6 { src, dst }),
        ) ==> {
            &&& p.src == (SocketAddr::V6 {
                ip: src,
                port: tcp.source_port,
                flowinfo: 0,
                scope_id: 0,
            })
            &&& p.dst == (SocketAddr::V6 {
                ip: dst,
                port: tcp.destination_port,
                flowinfo: 0,
                scope_id: 0,
            })
        },
{
    // Extract IP addresses
    let net = match frame.net {
        Some(net) => net,
        None => return None,
    };
    // Extract TCP header
    let tcp = match frame.tcp {
        Some(tcp) => tcp,
        None => return None,
    };
    let (src, dst) = match net {
        NetAddresses::V4 { src, dst } => (
            SocketAddr::V4 { ip: src, port: tcp.source_port },
            SocketAddr::V4 { ip: dst, port: tcp.destination_port },
        ),
        NetAddresses::V6 { src, dst } => (
            SocketAddr::V6 { ip: src, port: tcp.source_port, flowinfo: 0, scope_id: 0 },
            SocketAddr::V6 { ip: dst, port: tcp.destination_port, flowinfo: 0, scope_id: 0 },
        ),
    };
    // TCP flags are at offset 13
    let flags = TcpFlags::from_byte(tcp.bytes[13]);
    // Calculate payload length from packet
    let beyond: usize = tcp.bytes.len().saturating_sub(4 * tcp.data_offset as usize);
    assert(beyond as u16 == beyond % 0x1_0000) by (bit_vector);
    Some(
        TcpPacketInfo {
            src,
            dst,
            flags,
            seq: tcp.sequence_number,
            ack: tcp.acknowledgment_number,
            payload_len: beyond as u16,
            timestamp,
        },
    )
}

/// Parse a raw packet and extract TCP information
///
/// A frame that was cut off before the end of its IP packet, such as a capture of the first bytes
/// alone gives, holds no packet.
pub fn parse_tcp_packet(data: &[u8], timestamp: Instant) -> (info: Option<TcpPacketInfo>)
    ensures
        info == packet_in(sliced_ethernet(data@), timestamp),
        reads_its_header(sliced_ethernet(data@)),
        data@.len() < 14 ==> info is None,
        holds_tcp_over_ipv4(data@) ==> info == packet_of(frame_over_ipv4(data@), timestamp),
        holds_tcp_over_ipv6(data@) ==> info == packet_of(frame_over_ipv6(data@), timestamp),
        is_plain(data@) ==> (info is Some <==> holds_tcp_over_ipv4(data@) || holds_tcp_over_ipv6(
            data@,
        )),
{
    match slice_ethernet(data) {
        Some(frame) => packet_from_frame(&frame, timestamp),
        None => None,
    }
}

/// What came of reading from a capture. Each failure comes with its text.
#[derive(Debug)]
pub enum CaptureRead<'a> {
    /// A frame was captured, at the given time since the epoch of the capture.
    Frame { data: &'a [u8], captured: Duration },
    /// Nothing came in time.
    TimedOut(String),
    /// The file has no more packets.
    NoMorePackets(String),
    /// The capture failed.
    Failed(String),
}

/// What a packet source does next.
#[derive(Debug)]
pub enum SourceStep {
    /// Read again.
    ReadOn,
    /// Answer with this.
    Answer(Option<Result<TcpPacketInfo, Error>>),
}

/// What a packet source does about a frame: it answers with the packet in it, or reads on.
pub open spec fn step_of_frame(info: Option<TcpPacketInfo>) -> SourceStep {
    match info {
        Some(info) => SourceStep::Answer(Some(Ok(info))),
        None => SourceStep::ReadOn,
    }
}

/// Turns the packet of a frame into the next step.
pub fn frame_step(info: Option<TcpPacketInfo>) -> (step: SourceStep)
    ensures
        step == step_of_frame(info),
        info matches Some(p) ==> step == SourceStep::Answer(Some(Ok(p))),
        info is None ==> step is ReadOn,
{
    match info {
        Some(info) => SourceStep::Answer(Some(Ok(info))),
        // Not a TCP packet, try next
        None => SourceStep::ReadOn,
    }
}

/// Decides what a live capture does about a read made at `now`: it passes TCP packets on,
/// skips other frames, has nothing to offer when the time is up, and reports any other failure.
pub fn live_step(read: CaptureRead<'_>, now: Instant) -> (step: SourceStep)
    ensures
        match read {
            CaptureRead::Frame { data, .. } => step == step_of_frame(
                packet_in(sliced_ethernet(data@), now),
            ),
            CaptureRead::TimedOut(_) => step == SourceStep::Answer(None),
            CaptureRead::NoMorePackets(msg) | CaptureRead::Failed(msg) => step
                == SourceStep::Answer(Some(Err(Error::Capture(msg)))),
        },
        read matches CaptureRead::Frame { data, .. } ==> match packet_in(
            sliced_ethernet(data@),
            now,
        ) {
            Some(p) => step == SourceStep::Answer(Some(Ok(p))),
            None => step is ReadOn,
        },
        step is ReadOn ==> read is Frame,
        read matches CaptureRead::Frame { data, .. } ==> is_plain(data@) ==> (step is ReadOn <==> !(
        holds_tcp_over_ipv4(data@) || holds_tcp_over_ipv6(data@))),
{
    match read {
        CaptureRead::Frame { data, .. } => frame_step(parse_tcp_packet(data, now)),
        CaptureRead::TimedOut(_) => SourceStep::Answer(None),
        CaptureRead::NoMorePackets(msg) => SourceStep::Answer(Some(Err(Error::Capture(msg)))),
        CaptureRead::Failed(msg) => SourceStep::Answer(Some(Err(Error::Capture(msg)))),
    }
}

/// Where the times of a replay are counted from: when its first frame was read.
pub open spec fn replay_base(base: Option<Instant>, now: Instant) -> Instant {
    match base {
        Some(base) => base,
        None => now,
    }
}

/// The time that a replay gives a frame: as long after the base as the frame was captured after
/// the epoch of the capture, as far as times go.
pub open spec fn replay_time(base: Instant, captured: Duration) -> Instant {
    Instant {
        nanos: if base.nanos + captured.nanos > u128::MAX {
            u128::MAX
        } else {
            (base.nanos + captured.nanos) as u128
        },
    }
}

/// Works out the time that a replay gives a frame.
pub fn time_in_replay(base: Instant, captured: Duration) -> (time: Instant)
    ensures
        time == replay_time(base, captured),
        base.nanos + captured.nanos <= u128::MAX ==> time.nanos == base.nanos + captured.nanos,
        base.nanos + captured.nanos > u128::MAX ==> time.nanos == u128::MAX,
{
    Instant { nanos: base.nanos.saturating_add(captured.nanos) }
}

/// Decides what the replay of a file does about a read made at `now`: it passes TCP packets on,
/// as far apart as they were captured, skips other frames, has nothing to offer at the end of
/// the file, and reports any other failure.
pub fn file_step(
    base_time: &mut Option<Instant>,
    read: CaptureRead<'_>,
    now: Instant,
) -> (step: SourceStep)
    ensures
        match read {
            CaptureRead::Frame { data, captured } => {
                let base = replay_base(*old(base_time), now);
                &&& *final(base_time) == Some(base)
                &&& step == step_of_frame(
                    packet_in(sliced_ethernet(data@), replay_time(base, captured)),
                )
            },
            CaptureRead::NoMorePackets(_) => *final(base_time) == *old(base_time) && step
                == SourceStep::Answer(None),
            CaptureRead::TimedOut(msg) | CaptureRead::Failed(msg) => *final(base_time) == *old(
                base_time,
            ) && step == SourceStep::Answer(Some(Err(Error::PcapFile(msg)))),
        },
        read matches CaptureRead::Frame { data, captured } ==> {
            let base = final(base_time)->Some_0;
            let time = Instant {
                nanos: if base.nanos + captured.nanos <= u128::MAX {
                    (base.nanos + captured.nanos) as u128
                } else {
                    u128::MAX
                },
            };
            &&& *final(base_time) is Some
            &&& *old(base_time) is Some ==> *final(base_time) == *old(base_time)
            &&& *old(base_time) is None ==> base == now
            &&& match packet_in(sliced_ethernet(data@), time) {
                Some(p) => step == SourceStep::Answer(Some(Ok(p))),
                None => step is ReadOn,
            }
        },
        step is ReadOn ==> read is Frame,
        read matches CaptureRead::Frame { data, .. } ==> is_plain(data@) ==> (step is ReadOn <==> !(
        holds_tcp_over_ipv4(data@) || holds_tcp_over_ipv6(data@))),
{
    match read {
        CaptureRead::Frame { data, captured } => {
            let base = match *base_time {
                Some(base) => base,
                None => now,
            };
            *base_time = Some(base);
            frame_step(parse_tcp_packet(data, time_in_replay(base, captured)))
        },
        CaptureRead::NoMorePackets(_) => SourceStep::Answer(None),
        CaptureRead::TimedOut(msg) => SourceStep::Answer(Some(Err(Error::PcapFile(msg)))),
        CaptureRead::Failed(msg) => SourceStep::Answer(Some(Err(Error::PcapFile(msg)))),
    }
}

/// Finds the first of the interfaces with the given name.
pub fn select_interface(names: &[String], interface: &str) -> (place: Result<usize, Error>)
    ensures
        match place {
            Ok(i) => {
                &&& i < names@.len()
                &&& names@[i as int]@ == interface@
                &&& forall|j: int| 0 <= j < i ==> (#[trigger] names@[j])@ != interface@
            },
            Err(e) => {
                &&& forall|j: int| 0 <= j < names@.len() ==> (#[trigger] names@[j])@ != interface@
                &&& e matches Error::InterfaceNotFound(name) && name@ == interface@
            },
        },
{
    let wanted = interface.to_owned();
    let mut i: usize = 0;
    while i < names.len()
        invariant
            i <= names@.len(),
            wanted@ == interface@,
            forall|j: int| 0 <= j < i ==> (#[trigger] names@[j])@ != interface@,
        decreases names@.len() - i,
    {
        if names[i] == wanted {
            return Ok(i);
        }
        i = i + 1;
    }
    Err(Error::InterfaceNotFound(wanted))
}

} // verus!

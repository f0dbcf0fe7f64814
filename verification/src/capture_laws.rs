//! What packet sources make of frames.

use vstd::prelude::*;

use crate::addr::SocketAddr;
use crate::capture::{
    frame_over_ipv4, frame_over_ipv6, holds_tcp_over_ipv4, holds_tcp_over_ipv6, ipv4_payload,
    ipv6_payload, number, number_at, packet_in, packet_of, replay_base, replay_time, segment_of,
    starts_with_tcp_header, step_of_frame, FrameModel, NetAddresses, SourceStep, TcpPacketInfo,
};
use crate::flow::flags_in;
use crate::time::{Duration, Instant};

verus! {

/// A further byte makes a number two hundred and fifty-six times as large, and adds itself.
pub proof fn numbers_grow_byte_by_byte(bytes: Seq<u8>, b: u8)
    ensures
        number(bytes.push(b)) == 256 * number(bytes) + b,
        number(Seq::<u8>::empty()) == 0,
{
    assert(bytes.push(b).drop_last() =~= bytes);
}

/// Two bytes spell a number with the most significant first.
pub proof fn two_bytes_spell_a_number(bytes: Seq<u8>, start: int)
    requires
        0 <= start,
        start + 2 <= bytes.len(),
    ensures
        number_at(bytes, start, 2) == 256 * bytes[start] + bytes[start + 1],
{
    reveal_with_fuel(number, 3);
    let part = bytes.subrange(start, start + 2);
    assert(part.drop_last().drop_last().len() == 0);
}

/// Four bytes spell a number with the most significant first.
pub proof fn four_bytes_spell_a_number(bytes: Seq<u8>, start: int)
    requires
        0 <= start,
        start + 4 <= bytes.len(),
    ensures
        number_at(bytes, start, 4) == 16_777_216 * bytes[start] + 65_536 * bytes[start + 1] + 256
            * bytes[start + 2] + bytes[start + 3],
{
    reveal_with_fuel(number, 5);
    let part = bytes.subrange(start, start + 4);
    assert(part.drop_last().drop_last().drop_last().drop_last().len() == 0);
}

/// A number of bytes is smaller than what one more byte would begin.
proof fn lemma_number_fits(bytes: Seq<u8>)
    requires
        bytes.len() <= 16,
    ensures
        bytes.len() == 2 ==> number(bytes) < 65_536,
        bytes.len() == 4 ==> number(bytes) < 4_294_967_296,
        bytes.len() == 16 ==> number(bytes) <= u128::MAX,
{
    reveal_with_fuel(number, 17);
}

/// A segment has the ports, numbers and header length of its bytes.
pub proof fn segments_are_read_from_their_bytes(bytes: Seq<u8>)
    requires
        starts_with_tcp_header(bytes),
    ensures
        ({
            let tcp = segment_of(bytes);
            &&& tcp.bytes == bytes
            &&& tcp.source_port == 256 * bytes[0] + bytes[1]
            &&& tcp.destination_port == 256 * bytes[2] + bytes[3]
            &&& tcp.sequence_number == 16_777_216 * bytes[4] + 65_536 * bytes[5] + 256 * bytes[6]
                + bytes[7]
            &&& tcp.acknowledgment_number == 16_777_216 * bytes[8] + 65_536 * bytes[9] + 256
                * bytes[10] + bytes[11]
            &&& tcp.data_offset == bytes[12] / 16
            &&& 20 <= 4 * tcp.data_offset <= bytes.len()
        }),
{
    two_bytes_spell_a_number(bytes, 0);
    two_bytes_spell_a_number(bytes, 2);
    four_bytes_spell_a_number(bytes, 4);
    four_bytes_spell_a_number(bytes, 8);
}

/// A frame makes a packet just where it has both an IP layer and a TCP layer. The packet goes
/// from the first address and port to the second, has the numbers of the segment, the flags of
/// its fourteenth byte and the given time, and its payload is what follows the header.
pub proof fn packets_need_both_layers(frame: FrameModel, timestamp: Instant)
    ensures
        packet_of(frame, timestamp) is Some <==> frame.net is Some && frame.tcp is Some,
        packet_in(Some(frame), timestamp) == packet_of(frame, timestamp),
        packet_in(None, timestamp) is None,
        (packet_of(frame, timestamp), frame.tcp) matches (Some(p), Some(tcp)) ==> {
            &&& p.timestamp == timestamp
            &&& p.seq == tcp.sequence_number
            &&& p.ack == tcp.acknowledgment_number
            &&& p.flags == flags_in(tcp.bytes[13])
            &&& tcp.bytes.len() <= 4 * tcp.data_offset ==> p.payload_len == 0
            &&& 0 <= tcp.bytes.len() - 4 * tcp.data_offset < 65_536 ==> p.payload_len + 4
                * tcp.data_offset == tcp.bytes.len()
            &&& tcp.bytes.len() >= 4 * tcp.data_offset ==> (tcp.bytes.len() - 4 * tcp.data_offset
                - p.payload_len) % 65_536 == 0
        },
        (packet_of(frame, timestamp), frame.tcp, frame.net) matches (
            Some(p),
            Some(tcp),
            Some(NetAddresses::V4 { src, dst }),
        ) ==> {
            &&& p.src == (SocketAddr::V4 { ip: src, port: tcp.source_port })
            &&& p.dst == (SocketAddr::V4 { ip: dst, port: tcp.destination_port })
        },
        (packet_of(frame, timestamp), frame.tcp, frame.net) matches (
            Some(p),
            Some(tcp),
            Some(NetAddresses::V6 { src, dst }),
        ) ==> {
            &&& p.src == (SocketAddr::V6 {
                ip: src,
                port: tcp.source_port,
                flowinfo: 0,
                scope_id: 0,
            })
            &&& p.dst == (SocketAddr::V6 {
                ip: dst,
                port: tcp.destination_port,
                flowinfo: 0,
                scope_id: 0,
            })
        },
{
}

/// When a frame was read changes nothing of its packet but the time.
pub proof fn packets_differ_by_their_time_alone(frame: Option<FrameModel>, t: Instant, u: Instant)
    ensures
        packet_in(frame, t) is Some <==> packet_in(frame, u) is Some,
        (packet_in(frame, t), packet_in(frame, u)) matches (Some(p), Some(q)) ==> q == (
        TcpPacketInfo { timestamp: u, ..p }),
{
}

/// The packet of a plain IPv4 frame, byte by byte.
pub proof fn ipv4_packets_are_read_from_their_bytes(data: Seq<u8>, timestamp: Instant)
    requires
        holds_tcp_over_ipv4(data),
    ensures
        data[12] == 8 && data[13] == 0 && data[23] == 6,
        packet_of(frame_over_ipv4(data), timestamp) matches Some(p) && {
            let at = 14 + 4 * (data[14] % 16);
            &&& p.timestamp == timestamp
            &&& p.src matches SocketAddr::V4 { ip, port } && ip == 16_777_216 * data[26] + 65_536
                * data[27] + 256 * data[28] + data[29] && port == 256 * data[at] + data[at + 1]
            &&& p.dst matches SocketAddr::V4 { ip, port } && ip == 16_777_216 * data[30] + 65_536
                * data[31] + 256 * data[32] + data[33] && port == 256 * data[at + 2] + data[at + 3]
            &&& p.seq == 16_777_216 * data[at + 4] + 65_536 * data[at + 5] + 256 * data[at + 6]
                + data[at + 7]
            &&& p.ack == 16_777_216 * data[at + 8] + 65_536 * data[at + 9] + 256 * data[at + 10]
                + data[at + 11]
            &&& p.flags == flags_in(data[at + 13])
            &&& p.payload_len + 4 * (data[at + 12] / 16) + 4 * (data[14] % 16) == 256 * data[16]
                + data[17]
        },
{
    two_bytes_spell_a_number(data, 12);
    two_bytes_spell_a_number(data, 16);
    four_bytes_spell_a_number(data, 26);
    four_bytes_spell_a_number(data, 30);
    segments_are_read_from_their_bytes(ipv4_payload(data));
}

/// The packet of a plain IPv6 frame, byte by byte.
pub proof fn ipv6_packets_are_read_from_their_bytes(data: Seq<u8>, timestamp: Instant)
    requires
        holds_tcp_over_ipv6(data),
    ensures
        data[12] == 0x86 && data[13] == 0xdd && data[20] == 6,
        packet_of(frame_over_ipv6(data), timestamp) matches Some(p) && {
            let len = 256 * data[18] + data[19];
            &&& p.timestamp == timestamp
            &&& p.src matches SocketAddr::V6 { ip, port, .. } && ip == number(
                data.subrange(22, 38),
            ) && port == 256 * data[54] + data[55]
            &&& p.dst matches SocketAddr::V6 { ip, port, .. } && ip == number(
                data.subrange(38, 54),
            ) && port == 256 * data[56] + data[57]
            &&& p.seq == 16_777_216 * data[58] + 65_536 * data[59] + 256 * data[60] + data[61]
            &&& p.ack == 16_777_216 * data[62] + 65_536 * data[63] + 256 * data[64] + data[65]
            &&& p.flags == flags_in(data[67])
            &&& len > 0 ==> p.payload_len + 4 * (data[66] / 16) == len
            &&& len == 0 && data.len() < 65_536 ==> p.payload_len + 4 * (data[66] / 16) + 54
                == data.len()
        },
{
    two_bytes_spell_a_number(data, 12);
    two_bytes_spell_a_number(data, 18);
    lemma_number_fits(data.subrange(22, 38));
    lemma_number_fits(data.subrange(38, 54));
    segments_are_read_from_their_bytes(ipv6_payload(data));
}

/// A packet source answers with every packet that it reads, whatever the packet is, and reads on
/// where a frame holds none.
pub proof fn every_packet_is_answered(info: Option<TcpPacketInfo>)
    ensures
        step_of_frame(info) is ReadOn <==> info is None,
        step_of_frame(info) matches SourceStep::Answer(answer) ==> {
            &&& answer matches Some(Ok(p)) && info == Some(p)
        },
{
}

/// A replay keeps the times of its frames as far apart as they were captured, from when the
/// first frame was read on, as long as there are such times.
pub proof fn replays_keep_the_distances(
    now: Instant,
    later: Instant,
    first: Duration,
    second: Duration,
)
    ensures
        replay_base(None, now) == now,
        replay_base(Some(now), later) == now,
        now.nanos + first.nanos <= u128::MAX ==> replay_time(now, first).nanos - first.nanos
            == now.nanos,
        now.nanos + first.nanos > u128::MAX ==> replay_time(now, first).nanos == u128::MAX,
        first.nanos <= second.nanos && now.nanos + second.nanos <= u128::MAX ==> replay_time(
            now,
            second,
        ).nanos - replay_time(now, first).nanos == second.nanos - first.nanos,
{
}

} // verus!

//! Parsed TCP packets.

use vstd::prelude::*;

use crate::addr::SocketAddr;
use crate::flow::{Segment, TcpFlags};
use crate::time::Instant;

verus! {

/// Parsed TCP packet information
#[derive(Debug, Clone, Copy, PartialEq, Eq, Structural)]
pub struct TcpPacketInfo {
    pub src: SocketAddr,
    pub dst: SocketAddr,
    pub flags: TcpFlags,
    pub seq: u32,
    pub ack: u32,
    pub payload_len: u16,
    pub timestamp: Instant,
}

impl TcpPacketInfo {
    /// The packet as the state machine of its flow sees it.
    pub open spec fn segment(self) -> Segment {
        Segment {
            src: self.src,
            flags: self.flags,
            seq: self.seq,
            ack: self.ack,
            payload_len: self.payload_len,
            timestamp: self.timestamp,
        }
    }
}

} // verus!

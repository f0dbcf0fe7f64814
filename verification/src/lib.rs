//! # flow-rtt
//!
//! Passive TCP round-trip time measurement from captured packets.
//!
//! The library observes TCP traffic and extracts round-trip times without generating any
//! traffic of its own. It works by:
//!
//! 1. Taking captured frames apart ([`capture`])
//! 2. Tracking TCP flow state: handshake and data transfer ([`flow`])
//! 3. Measuring round trips from packet timestamps:
//!    - **Handshake RTT**: SYN to SYN-ACK
//!    - **Data RTT**: data segment to the acknowledgement that covers it
//! 4. Computing percentile statistics: p50, p95, p99 ([`stats`])
//!
//! [`monitor`] puts the parts together. Capturing itself is left to the program around the
//! library, through [`capture::PacketSource`].

use vstd::prelude::*;

pub mod addr;
pub mod capture;
pub mod capture_laws;
pub mod error;
pub mod flow;
pub mod flow_laws;
pub mod histogram;
pub mod laws;
pub mod monitor;
pub mod monitor_laws;
pub mod packet;
pub mod pending;
pub mod pending_laws;
pub mod source;
pub mod stats;
pub mod stats_laws;
pub mod time;
pub mod tracker;
pub mod tracker_laws;

pub use capture::{PacketSource, TcpPacketInfo};
pub use error::Error;
pub use flow::{FlowKey, FlowState, FlowTracker, TcpFlags, TrackedFlow};
pub use monitor::{MonitorConfig, PassiveMonitor};
pub use stats::{FlowStats, RttStats};

verus! {

} // verus!

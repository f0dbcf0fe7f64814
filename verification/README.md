# flow-rtt

Passive TCP round-trip time measurement from captured packets, written in Rust and verified
with Verus.

The library watches TCP flows and extracts round-trip times:

1. **Handshake RTT**: time from SYN to SYN-ACK
2. **Data RTT**: time from a data segment, first transmission, to the acknowledgement of the
   other end that covers it

and summarises the data round trips per flow as minimum, maximum, mean, p50, p95, p99 and
deviation.

## Layout

| Path | Contents |
|------|----------|
| `src/addr.rs`, `src/time.rs` | Socket addresses, points in time and spans as plain numbers |
| `src/pending.rs` | Data segments that wait for their acknowledgement |
| `src/flow.rs` | Flow keys, TCP flags and the state machine of a flow |
| `src/tracker.rs` | The table of flows |
| `src/histogram.rs` | The `hdrhistogram` crate, with what is relied on of it |
| `src/stats.rs` | Statistics per flow and across flows |
| `src/capture.rs`, `src/packet.rs` | Frames taken apart with the `etherparse` crate, and the decisions of the packet sources |
| `src/source.rs` | Packet sources with a history of their answers |
| `src/monitor.rs` | Configuration, builder and the monitor itself |
| `src/error.rs` | Errors and their texts |
| `src/laws.rs` | Properties that span several packets and calls |
| `tests/` | Tests on concrete values |
| `app/` | Capturing with `pcap`, statistics on a `tokio` channel, texts in milliseconds |

The executable functions in `src/` carry contracts that Verus proves. Believed without proof are
the marked wrappers around the outside crates and std, whose doc comments say what is believed.
Nothing is promised of the machine's clock, and so of `Clock::start` and `Clock::now`, nor of what
a `PacketSource` answers.

## Use

```rust
use flow_rtt::monitor::{MonitorConfig, PassiveMonitor};
use flow_rtt::time::{Clock, Duration};

let config = MonitorConfig::default()
    .with_timeout(Duration::from_secs(120))
    .with_filter("tcp port 443");
let mut monitor = PassiveMonitor::from_source(source, config, Clock::start());
for flow in monitor.process_batch(1000)? {
    // flow.src, flow.dst, flow.rtt_p50, flow.rtt_p99
}
```

`source` is anything that implements `flow_rtt::PacketSource`; `app/` has a live interface and
a pcap file. Live capture needs `CAP_NET_RAW` or root.

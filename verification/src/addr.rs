//! Socket addresses as plain numbers, with the order in which flows are keyed.

use vstd::prelude::*;

verus! {

/// An IP address together with a port.
#[allow(inconsistent_fields)]
#[derive(Debug, Clone, Copy, PartialEq, Eq, Structural, Hash)]
pub enum SocketAddr {
    /// IPv4; `ip` holds the four octets, most significant first.
    V4 { ip: u32, port: u16 },
    /// IPv6; `ip` holds the sixteen octets, most significant first.
    V6 { ip: u128, port: u16, flowinfo: u32, scope_id: u32 },
}

impl SocketAddr {
    /// IPv4 addresses come before IPv6 ones; within a family the address decides, then the
    /// port, then the flow information, then the scope.
    pub open spec fn precedes(self, other: SocketAddr) -> bool {
        match (self, other) {
            (SocketAddr::V4 { ip: i, port: p }, SocketAddr::V4 { ip: j, port: q }) => {
                i < j || (i == j && p < q)
            },
            (SocketAddr::V4 { .. }, SocketAddr::V6 { .. }) => true,
            (SocketAddr::V6 { .. }, SocketAddr::V4 { .. }) => false,
            (
                SocketAddr::V6 { ip: i, port: p, flowinfo: f, scope_id: s },
                SocketAddr::V6 { ip: j, port: q, flowinfo: g, scope_id: t },
            ) => {
                i < j || (i == j && (p < q || (p == q && (f < g || (f == g && s < t)))))
            },
        }
    }

    /// Tests the order of two addresses.
    pub fn is_before(&self, other: &SocketAddr) -> (b: bool)
        ensures
            b == self.precedes(*other),
    {
        match (*self, *other) {
            (SocketAddr::V4 { ip: i, port: p }, SocketAddr::V4 { ip: j, port: q }) => {
                i < j || (i == j && p < q)
            },
            (SocketAddr::V4 { .. }, SocketAddr::V6 { .. }) => true,
            (SocketAddr::V6 { .. }, SocketAddr::V4 { .. }) => false,
            (
                SocketAddr::V6 { ip: i, port: p, flowinfo: f, scope_id: s },
                SocketAddr::V6 { ip: j, port: q, flowinfo: g, scope_id: t },
            ) => {
                i < j || (i == j && (p < q || (p == q && (f < g || (f == g && s < t)))))
            },
        }
    }
}

/// The order of addresses is a strict total order.
pub proof fn addresses_are_totally_ordered(a: SocketAddr, b: SocketAddr, c: SocketAddr)
    ensures
        !a.precedes(a),
        a == b || a.precedes(b) || b.precedes(a),
        a.precedes(b) ==> !b.precedes(a),
        a.precedes(b) && b.precedes(c) ==> a.precedes(c),
{
}

/// The lower IP address comes first, whatever the ports; of one IP address, the lower port. IPv4
/// comes before IPv6.
pub proof fn lower_ip_comes_first_and_then_lower_port(
    i: u32,
    j: u32,
    p: u16,
    q: u16,
    v6: u128,
    f: u32,
    s: u32,
)
    ensures
        i < j ==> (SocketAddr::V4 { ip: i, port: p }).precedes(SocketAddr::V4 { ip: j, port: q }),
        p < q ==> (SocketAddr::V4 { ip: i, port: p }).precedes(SocketAddr::V4 { ip: i, port: q }),
        (SocketAddr::V4 { ip: i, port: p }).precedes(
            SocketAddr::V6 { ip: v6, port: q, flowinfo: f, scope_id: s },
        ),
{
}

/// The same of IPv6 addresses, where flow information and scope decide last.
pub proof fn lower_ipv6_comes_first_and_then_lower_port(
    i: u128,
    j: u128,
    p: u16,
    q: u16,
    f: u32,
    g: u32,
    s: u32,
    t: u32,
)
    ensures
        i < j ==> (SocketAddr::V6 { ip: i, port: p, flowinfo: f, scope_id: s }).precedes(
            SocketAddr::V6 { ip: j, port: q, flowinfo: g, scope_id: t },
        ),
        p < q ==> (SocketAddr::V6 { ip: i, port: p, flowinfo: f, scope_id: s }).precedes(
            SocketAddr::V6 { ip: i, port: q, flowinfo: g, scope_id: t },
        ),
        f < g ==> (SocketAddr::V6 { ip: i, port: p, flowinfo: f, scope_id: s }).precedes(
            SocketAddr::V6 { ip: i, port: p, flowinfo: g, scope_id: t },
        ),
        s < t ==> (SocketAddr::V6 { ip: i, port: p, flowinfo: f, scope_id: s }).precedes(
            SocketAddr::V6 { ip: i, port: p, flowinfo: f, scope_id: t },
        ),
{
}

} // verus!

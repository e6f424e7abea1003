//! Internet addresses as numbers.
use vstd::prelude::*;

verus! {

/// An IPv4 address: its four bytes, the first the most significant.
pub type Ipv4 = u32;

/// An address without a port.
#[allow(inconsistent_fields)]
#[derive(Clone, Copy, Debug, PartialEq, Eq, Structural)]
pub enum IpAddress {
    V4 { ip: Ipv4 },
    V6 { ip: u128 },
}

/// An address with a port.
#[allow(inconsistent_fields)]
#[derive(Clone, Copy, Debug, PartialEq, Eq, Structural)]
pub enum SocketAddress {
    V4 { ip: Ipv4, port: u16 },
    V6 { ip: u128, port: u16, flowinfo: u32, scope_id: u32 },
}

/// 127.0.0.1
pub const LOCALHOST: Ipv4 = 0x7f00_0001;

/// Whether an IPv4 address is a group of receivers: 224.0.0.0 to 239.255.255.255.
pub open spec fn in_multicast(ip: Ipv4) -> bool {
    0xe000_0000 <= ip <= 0xefff_ffff
}

/// Whether an IPv4 address is a group of receivers.
pub fn is_multicast(ip: Ipv4) -> (r: bool)
    ensures
        r == in_multicast(ip),
{
    0xe000_0000 <= ip && ip <= 0xefff_ffff
}

impl IpAddress {
    /// 0.0.0.0 or `::`.
    pub open spec fn unspecified(self) -> bool {
        match self {
            IpAddress::V4 { ip } => ip == 0,
            IpAddress::V6 { ip } => ip == 0,
        }
    }

    /// 127.0.0.0 to 127.255.255.255, or `::1`.
    pub open spec fn loopback(self) -> bool {
        match self {
            IpAddress::V4 { ip } => 0x7f00_0000 <= ip <= 0x7fff_ffff,
            IpAddress::V6 { ip } => ip == 1,
        }
    }

    /// Whether this is the address that stands for none.
    pub fn is_unspecified(self) -> (r: bool)
        ensures
            r == self.unspecified(),
    {
        match self {
            IpAddress::V4 { ip } => ip == 0,
            IpAddress::V6 { ip } => ip == 0,
        }
    }

    /// Whether this address is on the same machine.
    pub fn is_loopback(self) -> (r: bool)
        ensures
            r == self.loopback(),
    {
        match self {
            IpAddress::V4 { ip } => 0x7f00_0000 <= ip && ip <= 0x7fff_ffff,
            IpAddress::V6 { ip } => ip == 1,
        }
    }

    /// This address with a port.
    pub open spec fn at(self, port: u16) -> SocketAddress {
        match self {
            IpAddress::V4 { ip } => SocketAddress::V4 { ip, port },
            IpAddress::V6 { ip } => SocketAddress::V6 { ip, port, flowinfo: 0, scope_id: 0 },
        }
    }

    /// This address with a port.
    pub fn with_port(self, port: u16) -> (r: SocketAddress)
        ensures
            r == self.at(port),
    {
        match self {
            IpAddress::V4 { ip } => SocketAddress::V4 { ip, port },
            IpAddress::V6 { ip } => SocketAddress::V6 { ip, port, flowinfo: 0, scope_id: 0 },
        }
    }
}

impl SocketAddress {
    /// The address without its port.
    pub open spec fn host(self) -> IpAddress {
        match self {
            SocketAddress::V4 { ip, port } => IpAddress::V4 { ip },
            SocketAddress::V6 { ip, port, flowinfo, scope_id } => IpAddress::V6 { ip },
        }
    }

    /// The port.
    pub open spec fn door(self) -> u16 {
        match self {
            SocketAddress::V4 { ip, port } => port,
            SocketAddress::V6 { ip, port, flowinfo, scope_id } => port,
        }
    }

    /// The address without its port.
    pub fn ip(self) -> (r: IpAddress)
        ensures
            r == self.host(),
    {
        match self {
            SocketAddress::V4 { ip, port } => IpAddress::V4 { ip },
            SocketAddress::V6 { ip, port, flowinfo, scope_id } => IpAddress::V6 { ip },
        }
    }

    /// The port.
    pub fn port(self) -> (r: u16)
        ensures
            r == self.door(),
    {
        match self {
            SocketAddress::V4 { ip, port } => port,
            SocketAddress::V6 { ip, port, flowinfo, scope_id } => port,
        }
    }

    /// The order of addresses: IPv4 before IPv6, then field by field.
    pub open spec fn before(self, other: SocketAddress) -> bool {
        match (self, other) {
            (SocketAddress::V4 { .. }, SocketAddress::V6 { .. }) => true,
            (SocketAddress::V6 { .. }, SocketAddress::V4 { .. }) => false,
            (SocketAddress::V4 { ip: a, port: p }, SocketAddress::V4 { ip: b, port: q }) => a < b || a == b && p < q,
            (
                SocketAddress::V6 { ip: a, port: p, flowinfo: f, scope_id: s },
                SocketAddress::V6 { ip: b, port: q, flowinfo: g, scope_id: t },
            ) => a < b || a == b && (p < q || p == q && (f < g || f == g && s < t)),
        }
    }

    /// Whether this address comes before another in their order.
    pub fn precedes(self, other: SocketAddress) -> (r: bool)
        ensures
            r == self.before(other),
    {
        match (self, other) {
            (SocketAddress::V4 { .. }, SocketAddress::V6 { .. }) => true,
            (SocketAddress::V6 { .. }, SocketAddress::V4 { .. }) => false,
            (SocketAddress::V4 { ip: a, port: p }, SocketAddress::V4 { ip: b, port: q }) => a < b || a == b && p < q,
            (
                SocketAddress::V6 { ip: a, port: p, flowinfo: f, scope_id: s },
                SocketAddress::V6 { ip: b, port: q, flowinfo: g, scope_id: t },
            ) => a < b || a == b && (p < q || p == q && (f < g || f == g && s < t)),
        }
    }
}

/// The order of addresses is total.
pub proof fn lemma_order_total(a: SocketAddress, b: SocketAddress)
    ensures
        a == b || a.before(b) || b.before(a),
        !(a.before(b) && b.before(a)),
        !a.before(a),
{
}

/// The order of addresses is transitive.
pub proof fn lemma_order_transitive(a: SocketAddress, b: SocketAddress, c: SocketAddress)
    requires
        a.before(b),
        b.before(c),
    ensures
        a.before(c),
{
}

/// Addresses in their order, each once.
pub open spec fn ascending(s: Seq<SocketAddress>) -> bool {
    forall|i: int, j: int| 0 <= i < j < s.len() ==> (#[trigger] s[i]).before(#[trigger] s[j])
}

/// Puts an address in its place among others, unless it is there.
pub fn put_in_order(list: &mut Vec<SocketAddress>, a: SocketAddress)
    requires
        ascending(old(list)@),
    ensures
        ascending(final(list)@),
        forall|x: SocketAddress| final(list)@.contains(x) <==> old(list)@.contains(x) || x == a,
{
    let ghost before = list@;
    let mut at: usize = 0;
    while at < list.len() && list[at].precedes(a)
        invariant
            list@ == before,
            at <= list@.len(),
            forall|k: int| 0 <= k < at ==> (#[trigger] list@[k]).before(a),
        decreases list@.len() - at,
    {
        at = at + 1;
    }
    if at < list.len() && list[at] == a {
        return;
    }
    list.insert(at, a);
    proof {
        assert(list@ =~= before.insert(at as int, a));
        assert forall|i: int, j: int| 0 <= i < j < list@.len() implies (#[trigger] list@[i]).before(
            #[trigger] list@[j],
        ) by {
            let x = if i < at {
                i
            } else {
                i - 1
            };
            let y = if j < at {
                j
            } else {
                j - 1
            };
            if i != at && j != at {
                assert(before[x].before(before[y]));
            } else if i == at {
                lemma_order_total(before[at as int], a);
                if y > at {
                    assert(before[at as int].before(before[y]));
                    lemma_order_transitive(a, before[at as int], before[y]);
                }
            }
        }
        assert forall|x: SocketAddress| list@.contains(x) <==> before.contains(x) || x == a by {
            if list@.contains(x) {
                let k = choose|k: int| 0 <= k < list@.len() && list@[k] == x;
                if k < at {
                    assert(before[k] == x);
                } else if k > at {
                    assert(before[k - 1] == x);
                }
            }
            if before.contains(x) {
                let k = choose|k: int| 0 <= k < before.len() && before[k] == x;
                if k < at {
                    assert(list@[k] == x);
                } else {
                    assert(list@[k + 1] == x);
                }
            }
            assert(list@[at as int] == a);
        }
    }
}

} // verus!

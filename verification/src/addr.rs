//! Network addresses as plain values.
use vstd::prelude::*;

verus! {

/// Key under which the counters of a packet source are filed: whether the address is an IPv6
/// one, and its bits.
pub type SourceKey = (bool, u128);

/// A socket address as a tuple of integers: whether it is an IPv6 address, its bits, its port,
/// and (zero for IPv4) its flow information and scope.
pub type AddrKey = (bool, u128, u16, u32, u32);

/// An IP address, by the integer that its octets spell in network order.
#[derive(Clone, Copy, Debug, PartialEq, Eq, Structural)]
pub enum IpAddr {
    V4(u32),
    V6(u128),
}

/// A UDP endpoint.
#[allow(inconsistent_fields)]
#[derive(Clone, Copy, Debug, PartialEq, Eq, Structural)]
pub enum SocketAddr {
    V4 { ip: u32, port: u16 },
    V6 { ip: u128, port: u16, flowinfo: u32, scope_id: u32 },
}

impl IpAddr {
    /// The key of this address in the table of packet sources.
    pub open spec fn spec_key(self) -> SourceKey {
        match self {
            IpAddr::V4(bits) => (false, bits as u128),
            IpAddr::V6(bits) => (true, bits),
        }
    }

    /// Computes the key of this address in the table of packet sources.
    pub fn key(&self) -> (key: SourceKey)
        ensures
            key == self.spec_key(),
            *self matches IpAddr::V4(bits) ==> !key.0 && key.1 == bits,
            *self matches IpAddr::V6(bits) ==> key.0 && key.1 == bits,
    {
        match *self {
            IpAddr::V4(bits) => (false, bits as u128),
            IpAddr::V6(bits) => (true, bits),
        }
    }

    /// The address filed under `key`.
    pub open spec fn spec_from_key(key: SourceKey) -> IpAddr {
        if key.0 {
            IpAddr::V6(key.1)
        } else {
            IpAddr::V4(key.1 as u32)
        }
    }

    /// Recovers the address filed under `key`.
    pub fn from_key(key: SourceKey) -> (ip: IpAddr)
        ensures
            ip == IpAddr::spec_from_key(key),
            key.0 ==> ip == IpAddr::V6(key.1),
            !key.0 && key.1 <= u32::MAX ==> (ip matches IpAddr::V4(bits) && bits == key.1),
    {
        if key.0 {
            IpAddr::V6(key.1)
        } else {
            IpAddr::V4(key.1 as u32)
        }
    }
}

impl SocketAddr {
    /// The endpoint at `ip` and `port`; an IPv6 one has no flow information and no scope.
    pub open spec fn spec_new(ip: IpAddr, port: u16) -> SocketAddr {
        match ip {
            IpAddr::V4(bits) => SocketAddr::V4 { ip: bits, port },
            IpAddr::V6(bits) => SocketAddr::V6 { ip: bits, port, flowinfo: 0, scope_id: 0 },
        }
    }

    /// Puts an IP address and a port together.
    pub fn new(ip: IpAddr, port: u16) -> (addr: SocketAddr)
        ensures
            addr == SocketAddr::spec_new(ip, port),
            ip matches IpAddr::V4(bits) ==> addr == (SocketAddr::V4 { ip: bits, port }),
            ip matches IpAddr::V6(bits) ==> addr == (SocketAddr::V6 {
                ip: bits,
                port,
                flowinfo: 0,
                scope_id: 0,
            }),
    {
        match ip {
            IpAddr::V4(bits) => SocketAddr::V4 { ip: bits, port },
            IpAddr::V6(bits) => SocketAddr::V6 { ip: bits, port, flowinfo: 0, scope_id: 0 },
        }
    }

    /// The endpoint as a tuple of integers.
    pub open spec fn spec_key(self) -> AddrKey {
        match self {
            SocketAddr::V4 { ip, port } => (false, ip as u128, port, 0, 0),
            SocketAddr::V6 { ip, port, flowinfo, scope_id } => (true, ip, port, flowinfo, scope_id),
        }
    }

    /// Turns the endpoint into a tuple of integers.
    pub fn key(&self) -> (key: AddrKey)
        ensures
            key == self.spec_key(),
            *self matches SocketAddr::V4 { ip, port } ==> key == (false, ip as u128, port, 0u32, 0u32),
            *self matches SocketAddr::V6 { ip, port, flowinfo, scope_id } ==> key == (
                true,
                ip,
                port,
                flowinfo,
                scope_id,
            ),
    {
        match *self {
            SocketAddr::V4 { ip, port } => (false, ip as u128, port, 0, 0),
            SocketAddr::V6 { ip, port, flowinfo, scope_id } => (true, ip, port, flowinfo, scope_id),
        }
    }

    /// The endpoint that a tuple of integers stands for.
    pub open spec fn spec_from_key(key: AddrKey) -> SocketAddr {
        if key.0 {
            SocketAddr::V6 { ip: key.1, port: key.2, flowinfo: key.3, scope_id: key.4 }
        } else {
            SocketAddr::V4 { ip: key.1 as u32, port: key.2 }
        }
    }

    /// Recovers an endpoint from its tuple of integers.
    pub fn from_key(key: AddrKey) -> (addr: SocketAddr)
        ensures
            addr == SocketAddr::spec_from_key(key),
            key.0 ==> addr == (SocketAddr::V6 {
                ip: key.1,
                port: key.2,
                flowinfo: key.3,
                scope_id: key.4,
            }),
            !key.0 && key.1 <= u32::MAX ==> (addr matches SocketAddr::V4 { ip, port } && ip == key.1
                && port == key.2),
    {
        if key.0 {
            SocketAddr::V6 { ip: key.1, port: key.2, flowinfo: key.3, scope_id: key.4 }
        } else {
            SocketAddr::V4 { ip: key.1 as u32, port: key.2 }
        }
    }

    /// Whether a shard can reach the endpoint: shard sockets are bound to an IPv4 address.
    pub open spec fn reachable(self) -> bool {
        self is V4
    }

    /// The integer under which the socket for an IPv4 endpoint is cached: address, then port.
    pub open spec fn cache_key(self) -> u64 {
        match self {
            SocketAddr::V4 { ip, port } => (ip * 0x1_0000 + port) as u64,
            SocketAddr::V6 { .. } => 0,
        }
    }
}

/// Packs an IPv4 endpoint into the integer under which its socket is cached.
pub(crate) fn v4_cache_key(ip: u32, port: u16) -> (key: u64)
    ensures
        key == (SocketAddr::V4 { ip, port }).cache_key(),
        key == ip * 0x1_0000 + port,
{
    (ip as u64) * 0x1_0000 + port as u64
}

/// The key of an address tells the two kinds of addresses apart and holds all bits of either.
pub proof fn ip_keys_hold_all_bits(v4: u32, v6: u128)
    ensures
        !IpAddr::V4(v4).spec_key().0,
        IpAddr::V4(v4).spec_key().1 == v4,
        IpAddr::V6(v6).spec_key().0,
        IpAddr::V6(v6).spec_key().1 == v6,
{
}

/// An endpoint has the address and the port that it was put together from, and nothing else.
pub proof fn endpoints_hold_address_and_port(v4: u32, v6: u128, port: u16)
    ensures
        SocketAddr::spec_new(IpAddr::V4(v4), port) == (SocketAddr::V4 { ip: v4, port }),
        SocketAddr::spec_new(IpAddr::V6(v6), port) == (SocketAddr::V6 {
            ip: v6,
            port,
            flowinfo: 0,
            scope_id: 0,
        }),
{
}

/// Every IPv4 endpoint can be reached, whatever its address and port, and no IPv6 endpoint can.
pub proof fn ipv4_is_reachable(addr: SocketAddr)
    ensures
        addr is V4 ==> addr.reachable(),
        addr is V6 ==> !addr.reachable(),
{
}

/// Sockets to two IPv4 endpoints are cached apart if the endpoints differ in address or port.
pub proof fn cache_keys_tell_endpoints_apart(ip: u32, port: u16, other_ip: u32, other_port: u16)
    requires
        ip != other_ip || port != other_port,
    ensures
        (SocketAddr::V4 { ip, port }).cache_key() != (SocketAddr::V4 {
            ip: other_ip,
            port: other_port,
        }).cache_key(),
{
    let a = SocketAddr::V4 { ip, port };
    let b = SocketAddr::V4 { ip: other_ip, port: other_port };
    if a.cache_key() == b.cache_key() {
        cache_key_injective(a, b);
    }
}

/// An IP address is recovered from its key, so no two addresses share one.
pub proof fn ip_key_round_trip(ip: IpAddr)
    ensures
        IpAddr::spec_from_key(ip.spec_key()) == ip,
{
}

/// An endpoint is recovered from its tuple of integers, so no two endpoints share one.
pub proof fn addr_key_round_trip(addr: SocketAddr)
    ensures
        SocketAddr::spec_from_key(addr.spec_key()) == addr,
{
}

/// Two IPv4 endpoints are cached under the same integer only if they are the same endpoint.
pub proof fn cache_key_injective(a: SocketAddr, b: SocketAddr)
    requires
        a.reachable(),
        b.reachable(),
        a.cache_key() == b.cache_key(),
    ensures
        a == b,
{
    match (a, b) {
        (SocketAddr::V4 { ip: ip_a, port: port_a }, SocketAddr::V4 { ip: ip_b, port: port_b }) => {
            assert(ip_a * 0x1_0000 + port_a == ip_b * 0x1_0000 + port_b);
        },
        _ => {},
    }
}

} // verus!

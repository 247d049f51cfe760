//! Addresses, networks and network types as plain values.

use vstd::arithmetic::power2::pow2;
use vstd::prelude::*;

verus! {

/// An IP address, held as the number its bytes spell in network order.
#[derive(Clone, Copy, Debug, PartialEq, Eq, Structural, Hash)]
pub enum IpAddr {
    V4(u32),
    V6(u128),
}

impl IpAddr {
    /// 127.0.0.0/8, or ::1.
    pub open spec fn loopback(self) -> bool {
        match self {
            IpAddr::V4(bits) => bits / 0x100_0000 == 127,
            IpAddr::V6(bits) => bits == 1,
        }
    }

    pub fn is_loopback(&self) -> (r: bool)
        ensures
            r == self.loopback(),
            r == match *self {
                IpAddr::V4(bits) => 0x7f00_0000 <= bits <= 0x7fff_ffff,
                IpAddr::V6(bits) => bits == 1,
            },
    {
        match *self {
            IpAddr::V4(bits) => bits / 0x100_0000 == 127,
            IpAddr::V6(bits) => bits == 1,
        }
    }

    pub fn is_ipv4(&self) -> (r: bool)
        ensures
            r == (self is V4),
    {
        match *self {
            IpAddr::V4(_) => true,
            IpAddr::V6(_) => false,
        }
    }

    pub fn is_ipv6(&self) -> (r: bool)
        ensures
            r == (self is V6),
    {
        match *self {
            IpAddr::V4(_) => false,
            IpAddr::V6(_) => true,
        }
    }
}

/// An IPv4 address and port.
#[derive(Clone, Copy, Debug, PartialEq, Eq, Structural, Hash)]
pub struct SocketAddrV4 {
    pub ip: u32,
    pub port: u16,
}

/// An IPv6 address and port, with the flow label and the scope.
#[derive(Clone, Copy, Debug, PartialEq, Eq, Structural, Hash)]
pub struct SocketAddrV6 {
    pub ip: u128,
    pub port: u16,
    pub flowinfo: u32,
    pub scope_id: u32,
}

#[derive(Clone, Copy, Debug, PartialEq, Eq, Structural, Hash)]
pub enum SocketAddr {
    V4(SocketAddrV4),
    V6(SocketAddrV6),
}

impl SocketAddr {
    pub open spec fn spec_ip(self) -> IpAddr {
        match self {
            SocketAddr::V4(a) => IpAddr::V4(a.ip),
            SocketAddr::V6(a) => IpAddr::V6(a.ip),
        }
    }

    pub open spec fn spec_port(self) -> u16 {
        match self {
            SocketAddr::V4(a) => a.port,
            SocketAddr::V6(a) => a.port,
        }
    }

    /// The address at `port` of `ip`: an IPv6 one with no flow label and no scope.
    pub open spec fn spec_new(ip: IpAddr, port: u16) -> SocketAddr {
        match ip {
            IpAddr::V4(bits) => SocketAddr::V4(SocketAddrV4 { ip: bits, port }),
            IpAddr::V6(bits) => SocketAddr::V6(
                SocketAddrV6 { ip: bits, port, flowinfo: 0, scope_id: 0 },
            ),
        }
    }

    pub fn new(ip: IpAddr, port: u16) -> (r: SocketAddr)
        ensures
            r == Self::spec_new(ip, port),
    {
        match ip {
            IpAddr::V4(bits) => SocketAddr::V4(SocketAddrV4 { ip: bits, port }),
            IpAddr::V6(bits) => SocketAddr::V6(
                SocketAddrV6 { ip: bits, port, flowinfo: 0, scope_id: 0 },
            ),
        }
    }

    pub fn ip(&self) -> (r: IpAddr)
        ensures
            r == self.spec_ip(),
    {
        match *self {
            SocketAddr::V4(a) => IpAddr::V4(a.ip),
            SocketAddr::V6(a) => IpAddr::V6(a.ip),
        }
    }

    pub fn port(&self) -> (r: u16)
        ensures
            r == self.spec_port(),
    {
        match *self {
            SocketAddr::V4(a) => a.port,
            SocketAddr::V6(a) => a.port,
        }
    }
}

/// The transport and address family of a candidate.
#[derive(Clone, Copy, Debug, PartialEq, Eq, Structural, Hash)]
pub enum NetworkType {
    Udp4,
    Udp6,
    Tcp4,
    Tcp6,
}

impl NetworkType {
    pub open spec fn ipv4(self) -> bool {
        self is Udp4 || self is Tcp4
    }

    pub open spec fn ipv6(self) -> bool {
        self is Udp6 || self is Tcp6
    }

    pub fn is_ipv4(&self) -> (r: bool)
        ensures
            r == self.ipv4(),
    {
        match *self {
            NetworkType::Udp4 | NetworkType::Tcp4 => true,
            NetworkType::Udp6 | NetworkType::Tcp6 => false,
        }
    }

    pub fn is_ipv6(&self) -> (r: bool)
        ensures
            r == self.ipv6(),
    {
        match *self {
            NetworkType::Udp4 | NetworkType::Tcp4 => false,
            NetworkType::Udp6 | NetworkType::Tcp6 => true,
        }
    }
}

/// The socket address of `ip` and `port`, the same for every network type.
pub fn create_addr(_network: NetworkType, ip: IpAddr, port: u16) -> (r: SocketAddr)
    ensures
        r == SocketAddr::spec_new(ip, port),
        r.spec_ip() == ip,
        r.spec_port() == port,
        match r {
            SocketAddr::V4(a) => ip == IpAddr::V4(a.ip) && a.port == port,
            SocketAddr::V6(a) => ip == IpAddr::V6(a.ip) && a.port == port && a.flowinfo == 0
                && a.scope_id == 0,
        },
{
    SocketAddr::new(ip, port)
}

/// An IPv4 address with the length of the prefix it was configured with.
#[derive(Clone, Copy, Debug, PartialEq, Eq, Structural, Hash)]
pub struct Ipv4Net {
    pub addr: u32,
    pub prefix_len: u8,
}

/// An IPv6 address with the length of the prefix it was configured with.
#[derive(Clone, Copy, Debug, PartialEq, Eq, Structural, Hash)]
pub struct Ipv6Net {
    pub addr: u128,
    pub prefix_len: u8,
}

#[derive(Clone, Copy, Debug, PartialEq, Eq, Structural, Hash)]
pub enum IpNet {
    V4(Ipv4Net),
    V6(Ipv6Net),
}

impl IpNet {
    pub open spec fn ip(self) -> IpAddr {
        match self {
            IpNet::V4(net) => IpAddr::V4(net.addr),
            IpNet::V6(net) => IpAddr::V6(net.addr),
        }
    }

    pub fn addr(&self) -> (r: IpAddr)
        ensures
            r == self.ip(),
    {
        match *self {
            IpNet::V4(net) => IpAddr::V4(net.addr),
            IpNet::V6(net) => IpAddr::V6(net.addr),
        }
    }
}

/// `addr` with all but its first `prefix_len` bits cleared.
pub open spec fn network_of(addr: u128, prefix_len: u8) -> u128 {
    let host = pow2((128 - prefix_len) as nat);
    (addr - addr as int % host as int) as u128
}

/// The network address that `ipnet::Ipv6Net::network` gives for `addr` under `prefix_len`: the
/// address with the bits past the prefix cleared. The length must be one that `Ipv6Net` takes.
#[verifier::external_body]
pub(crate) fn ipv6_network(addr: u128, prefix_len: u8) -> (r: u128)
    requires
        prefix_len <= 128,
    ensures
        r == network_of(addr, prefix_len),
{
    u128::from(ipnet::Ipv6Net::new_assert(addr.into(), prefix_len).network())
}

/// A socket address is put together from an IP address and a port and gives both back, the IP
/// address in its own family.
pub proof fn law_socket_address_keeps_its_parts(ip: IpAddr, port: u16)
    ensures
        SocketAddr::spec_new(ip, port).spec_ip() == ip,
        SocketAddr::spec_new(ip, port).spec_port() == port,
        ip is V4 <==> SocketAddr::spec_new(ip, port) is V4,
        SocketAddr::spec_new(ip, port) matches SocketAddr::V6(a) ==> a.flowinfo == 0 && a.scope_id
            == 0,
{
}

/// The parts of a socket address, and the address of a network, are the ones it holds.
pub proof fn law_parts_are_the_ones_held(a: SocketAddrV4, b: SocketAddrV6, m: Ipv4Net, n: Ipv6Net)
    ensures
        SocketAddr::V4(a).spec_ip() == IpAddr::V4(a.ip),
        SocketAddr::V6(b).spec_ip() == IpAddr::V6(b.ip),
        SocketAddr::V4(a).spec_port() == a.port,
        SocketAddr::V6(b).spec_port() == b.port,
        IpNet::V4(m).ip() == IpAddr::V4(m.addr),
        IpNet::V6(n).ip() == IpAddr::V6(n.addr),
{
}

/// Every network type is of one family: IPv4 for UDP and TCP over IPv4, IPv6 for the other two.
pub proof fn law_network_types_have_one_family(network: NetworkType)
    ensures
        network.ipv4() <==> network is Udp4 || network is Tcp4,
        network.ipv6() <==> network is Udp6 || network is Tcp6,
        network.ipv4() != network.ipv6(),
{
}

} // verus!

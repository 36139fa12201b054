//! Plain-value network addresses.

use vstd::prelude::*;

verus! {

/// An IPv4 address by its four octets, most significant first.
#[derive(Debug, Clone, Copy, PartialEq, Eq, Structural)]
pub struct Ipv4Addr {
    pub a: u8,
    pub b: u8,
    pub c: u8,
    pub d: u8,
}

/// An IPv4 address, or an IPv6 address by its 128 bits.
#[derive(Debug, Clone, Copy, PartialEq, Eq, Structural)]
pub enum IpAddr {
    V4(Ipv4Addr),
    V6(u128),
}

/// An address and a port. An IPv6 one also has its flow information and scope.
#[derive(Debug, Clone, Copy, PartialEq, Eq, Structural)]
pub enum SocketAddr {
    V4 { ip: Ipv4Addr, port: u16 },
    V6 { ip: u128, port: u16, flowinfo: u32, scope_id: u32 },
}

/// The IPv4 address `a.b.c.d`.
pub open spec fn ipv4(a: u8, b: u8, c: u8, d: u8) -> Ipv4Addr {
    Ipv4Addr { a, b, c, d }
}

/// The IPv4 socket address `ip:port`.
pub open spec fn ipv4_socket(ip: Ipv4Addr, port: u16) -> SocketAddr {
    SocketAddr::V4 { ip, port }
}

impl Ipv4Addr {
    /// The octets in network order.
    pub open spec fn bytes(self) -> Seq<u8> {
        seq![self.a, self.b, self.c, self.d]
    }

    pub fn new(a: u8, b: u8, c: u8, d: u8) -> (ip: Self)
        ensures
            ip == ipv4(a, b, c, d),
    {
        Ipv4Addr { a, b, c, d }
    }

    /// `0.0.0.0`.
    pub fn unspecified() -> (ip: Self)
        ensures
            ip == ipv4(0, 0, 0, 0),
    {
        Ipv4Addr { a: 0, b: 0, c: 0, d: 0 }
    }

    /// `127.0.0.1`.
    pub fn localhost() -> (ip: Self)
        ensures
            ip == ipv4(127, 0, 0, 1),
    {
        Ipv4Addr { a: 127, b: 0, c: 0, d: 1 }
    }

    pub fn octets(self) -> (o: [u8; 4])
        ensures
            o@ == self.bytes(),
    {
        [self.a, self.b, self.c, self.d]
    }

    /// Whether this is `0.0.0.0`.
    pub fn is_unspecified(self) -> (r: bool)
        ensures
            r == (self == ipv4(0, 0, 0, 0)),
    {
        self.a == 0 && self.b == 0 && self.c == 0 && self.d == 0
    }

    /// Whether this lies in `127.0.0.0/8`.
    pub fn is_loopback(self) -> (r: bool)
        ensures
            r == (self.a == 127),
    {
        self.a == 127
    }
}

impl SocketAddr {
    /// An IPv4 socket address.
    pub fn v4(ip: Ipv4Addr, port: u16) -> (addr: Self)
        ensures
            addr == ipv4_socket(ip, port),
    {
        SocketAddr::V4 { ip, port }
    }

    /// The address without the port.
    pub open spec fn spec_ip(self) -> IpAddr {
        match self {
            SocketAddr::V4 { ip, .. } => IpAddr::V4(ip),
            SocketAddr::V6 { ip, .. } => IpAddr::V6(ip),
        }
    }

    /// The port.
    pub open spec fn spec_port(self) -> u16 {
        match self {
            SocketAddr::V4 { port, .. } => port,
            SocketAddr::V6 { port, .. } => port,
        }
    }

    /// The address without the port.
    #[verifier::when_used_as_spec(spec_ip)]
    pub fn ip(self) -> (ip: IpAddr)
        ensures
            ip == self.spec_ip(),
    {
        match self {
            SocketAddr::V4 { ip, .. } => IpAddr::V4(ip),
            SocketAddr::V6 { ip, .. } => IpAddr::V6(ip),
        }
    }

    /// The port.
    #[verifier::when_used_as_spec(spec_port)]
    pub fn port(self) -> (port: u16)
        ensures
            port == self.spec_port(),
    {
        match self {
            SocketAddr::V4 { port, .. } => port,
            SocketAddr::V6 { port, .. } => port,
        }
    }
}

} // verus!

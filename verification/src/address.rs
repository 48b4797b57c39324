//! Network addresses as plain values.
use vstd::prelude::*;

verus! {

/// An IPv4 address, from its first octet `a` to its last octet `d`.
#[derive(Clone, Copy, Debug, PartialEq, Eq, Structural)]
pub struct Ipv4Addr {
    pub a: u8,
    pub b: u8,
    pub c: u8,
    pub d: u8,
}

impl Ipv4Addr {
    /// The address `a.b.c.d`.
    pub fn new(a: u8, b: u8, c: u8, d: u8) -> (address: Self)
        ensures
            address == (Ipv4Addr { a, b, c, d }),
    {
        Ipv4Addr { a, b, c, d }
    }
}

/// An IPv6 address, from its first 16-bit segment `a` to its last segment `h`.
#[derive(Clone, Copy, Debug, PartialEq, Eq, Structural)]
pub struct Ipv6Addr {
    pub a: u16,
    pub b: u16,
    pub c: u16,
    pub d: u16,
    pub e: u16,
    pub f: u16,
    pub g: u16,
    pub h: u16,
}

impl Ipv6Addr {
    /// The address `a:b:c:d:e:f:g:h`.
    pub fn new(a: u16, b: u16, c: u16, d: u16, e: u16, f: u16, g: u16, h: u16) -> (address: Self)
        ensures
            address == (Ipv6Addr { a, b, c, d, e, f, g, h }),
    {
        Ipv6Addr { a, b, c, d, e, f, g, h }
    }
}

/// An IP address of either version.
#[derive(Clone, Copy, Debug, PartialEq, Eq, Structural)]
pub enum IpAddr {
    V4(Ipv4Addr),
    V6(Ipv6Addr),
}

/// An IP address together with a transport port.
#[derive(Clone, Copy, Debug, PartialEq, Eq, Structural)]
pub struct SocketAddr {
    pub ip: IpAddr,
    pub port: u16,
}

impl SocketAddr {
    /// The socket address made of `ip` and `port`.
    pub fn new(ip: IpAddr, port: u16) -> (address: Self)
        ensures
            address == (SocketAddr { ip, port }),
    {
        SocketAddr { ip, port }
    }

    /// The IP address.
    pub fn ip(&self) -> (ip: IpAddr)
        ensures
            ip == self.ip,
    {
        self.ip
    }

    /// The port.
    pub fn port(&self) -> (port: u16)
        ensures
            port == self.port,
    {
        self.port
    }
}

/// An address that a network interface holds, with the length of its network prefix.
#[derive(Clone, Copy, Debug, PartialEq, Eq, Structural)]
pub struct IpNetwork {
    pub addr: IpAddr,
    pub prefix: u8,
}

/// The addresses of `networks`, in the same order.
pub open spec fn addresses(networks: Seq<IpNetwork>) -> Seq<IpAddr> {
    networks.map_values(|network: IpNetwork| network.addr)
}

/// Whether `address` is one of `addresses`.
pub fn is_among(address: &IpAddr, addresses: &[IpAddr]) -> (found: bool)
    ensures
        found == addresses@.contains(*address),
{
    let mut i: usize = 0;
    while i < addresses.len()
        invariant
            i <= addresses@.len(),
            forall|k: int| 0 <= k < i ==> addresses@[k] != *address,
        decreases addresses@.len() - i,
    {
        if addresses[i] == *address {
            return true;
        }
        i += 1;
    }
    false
}

/// The number that two bytes write in network order, the most significant byte first.
pub open spec fn big_endian(high: u8, low: u8) -> u16 {
    (high * 256 + low) as u16
}

/// Reads two bytes in network order.
pub fn read_big_endian(high: u8, low: u8) -> (value: u16)
    ensures
        value == big_endian(high, low),
        value == high * 256 + low,
{
    (high as u16) * 256 + (low as u16)
}

/// Two bytes in network order write a number by its quotient and its remainder, and every 16-bit
/// number is written by exactly one such pair.
pub proof fn law_network_order(high: u8, low: u8)
    ensures
        big_endian(high, low) == high * 256 + low,
        big_endian(high, low) / 256 == high,
        big_endian(high, low) % 256 == low,
{
}

/// There is one address for each network, and it is that network's.
pub proof fn law_each_network_has_its_address(networks: Seq<IpNetwork>)
    ensures
        addresses(networks).len() == networks.len(),
        forall|i: int| 0 <= i < networks.len() ==> addresses(networks)[i] == networks[i].addr,
{
}

} // verus!

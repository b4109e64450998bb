//! Peer addresses.

use vstd::prelude::*;

verus! {

/// An IP address, held as the number its octets spell in network order.
#[derive(Clone, Copy, Debug, PartialEq, Eq, Hash, Structural)]
pub enum IpAddr {
    V4(u32),
    V6(u128),
}

/// Where a peer is reached.
#[derive(Clone, Copy, Debug, PartialEq, Eq, Hash, Structural)]
pub struct SocketAddr {
    pub ip: IpAddr,
    pub port: u16,
}

impl IpAddr {
    /// The IPv4 address `a.b.c.d`.
    pub fn v4(a: u8, b: u8, c: u8, d: u8) -> (ip: Self)
        ensures
            ip == IpAddr::V4((a * 0x100_0000 + b * 0x1_0000 + c * 0x100 + d) as u32),
    {
        IpAddr::V4(a as u32 * 0x100_0000 + b as u32 * 0x1_0000 + c as u32 * 0x100 + d as u32)
    }
}

impl SocketAddr {
    pub fn new(ip: IpAddr, port: u16) -> (address: Self)
        ensures
            address.ip == ip,
            address.port == port,
    {
        SocketAddr { ip, port }
    }

    /// Whether the address is an IPv6 one.
    pub open spec fn is_v6(self) -> bool {
        self.ip is V6
    }

    /// Whether the address is an IPv6 one.
    pub fn is_ipv6(&self) -> (v6: bool)
        ensures
            v6 == self.is_v6(),
    {
        match self.ip {
            IpAddr::V4(_) => false,
            IpAddr::V6(_) => true,
        }
    }

    /// Whether the address is an IPv4 one.
    pub fn is_ipv4(&self) -> (v4: bool)
        ensures
            v4 == !self.is_v6(),
    {
        !self.is_ipv6()
    }
}

/// The block of addresses usually allocated as one unit: a /24 of IPv4, a /48 of IPv6.
#[derive(Clone, Copy, Debug, PartialEq, Eq, Hash, Structural)]
pub enum SubnetKey {
    V4(u32),
    V6(u128),
}

impl SubnetKey {
    /// The block `address` lies in.
    pub open spec fn spec_of(address: SocketAddr) -> SubnetKey {
        match address.ip {
            IpAddr::V4(bits) => SubnetKey::V4(bits / 0x100),
            IpAddr::V6(bits) => SubnetKey::V6(bits / 0x1_0000_0000_0000_0000_0000),
        }
    }

    /// The block `address` lies in.
    pub fn of(address: SocketAddr) -> (key: SubnetKey)
        ensures
            key == SubnetKey::spec_of(address),
    {
        match address.ip {
            IpAddr::V4(bits) => SubnetKey::V4(bits / 0x100),
            IpAddr::V6(bits) => SubnetKey::V6(bits / 0x1_0000_0000_0000_0000_0000),
        }
    }
}

/// Whether `address` stands in `addresses`.
pub fn contains_address(addresses: &[SocketAddr], address: SocketAddr) -> (found: bool)
    ensures
        found == addresses@.contains(address),
{
    let mut i: usize = 0;
    while i < addresses.len()
        invariant
            i <= addresses.len(),
            forall|j: int| 0 <= j < i ==> addresses@[j] != address,
        decreases addresses.len() - i,
    {
        if addresses[i] == address {
            return true;
        }
        i = i + 1;
    }
    false
}

/// Two IPv4 addresses lie in one block exactly if their first three octets agree.
pub proof fn law_ipv4_blocks_share_three_octets(
    a: SocketAddr,
    b: SocketAddr,
    a_block: u32,
    a_host: u8,
    b_block: u32,
    b_host: u8,
)
    requires
        a_block < 0x100_0000,
        b_block < 0x100_0000,
        a.ip == IpAddr::V4((a_block * 256 + a_host) as u32),
        b.ip == IpAddr::V4((b_block * 256 + b_host) as u32),
    ensures
        SubnetKey::spec_of(a) == SubnetKey::spec_of(b) <==> a_block == b_block,
{
}

/// Two IPv6 addresses lie in one block exactly if their first three groups agree, and an IPv4
/// address never lies in one block with an IPv6 address.
pub proof fn law_ipv6_blocks_share_three_groups(
    a: SocketAddr,
    b: SocketAddr,
    c: SocketAddr,
    a_block: u64,
    a_host: u128,
    b_block: u64,
    b_host: u128,
)
    requires
        a_block < 0x1_0000_0000_0000,
        b_block < 0x1_0000_0000_0000,
        a_host < 0x1_0000_0000_0000_0000_0000,
        b_host < 0x1_0000_0000_0000_0000_0000,
        a.ip == IpAddr::V6((a_block * 0x1_0000_0000_0000_0000_0000 + a_host) as u128),
        b.ip == IpAddr::V6((b_block * 0x1_0000_0000_0000_0000_0000 + b_host) as u128),
        c.ip is V4,
    ensures
        SubnetKey::spec_of(a) == SubnetKey::spec_of(b) <==> a_block == b_block,
        SubnetKey::spec_of(a) != SubnetKey::spec_of(c),
{
}

} // verus!

//! IP and socket addresses as plain values, with the classification rules of
//! `std::net` that the announcement logic depends on.

use vstd::prelude::*;

verus! {

/// An IP address: IPv4 as its 32 bit value, IPv6 as its 128 bit value.
#[derive(Debug, Clone, Copy, PartialEq, Eq, Structural)]
pub enum IpAddress {
    V4(u32),
    V6(u128),
}

/// A socket address: an IP address and a port.
#[derive(Debug, Clone, Copy, PartialEq, Eq, Structural)]
pub struct SocketAddress {
    pub ip: IpAddress,
    pub port: u16,
}

/// `0.0.0.0` or `::`.
pub open spec fn spec_is_unspecified(ip: IpAddress) -> bool {
    match ip {
        IpAddress::V4(a) => a == 0,
        IpAddress::V6(a) => a == 0,
    }
}

/// `127.0.0.0/8` or `::1`.
pub open spec fn spec_is_loopback(ip: IpAddress) -> bool {
    match ip {
        IpAddress::V4(a) => a / 0x100_0000 == 127,
        IpAddress::V6(a) => a == 1,
    }
}

/// An IPv4-mapped IPv6 address `::ffff:a.b.c.d` becomes `a.b.c.d`; every
/// other address stays as it is.
pub open spec fn spec_to_canonical(ip: IpAddress) -> IpAddress {
    match ip {
        IpAddress::V4(a) => ip,
        IpAddress::V6(a) => if a / 0x1_0000_0000 == 0xffff {
            IpAddress::V4((a % 0x1_0000_0000) as u32)
        } else {
            ip
        },
    }
}

impl IpAddress {
    pub fn is_unspecified(&self) -> (b: bool)
        ensures
            b == spec_is_unspecified(*self),
    {
        match self {
            IpAddress::V4(a) => *a == 0,
            IpAddress::V6(a) => *a == 0,
        }
    }

    pub fn is_loopback(&self) -> (b: bool)
        ensures
            b == spec_is_loopback(*self),
    {
        match self {
            IpAddress::V4(a) => *a / 0x100_0000 == 127,
            IpAddress::V6(a) => *a == 1,
        }
    }

    pub fn is_ipv4(&self) -> (b: bool)
        ensures
            b == (*self is V4),
    {
        match self {
            IpAddress::V4(_) => true,
            IpAddress::V6(_) => false,
        }
    }

    pub fn is_ipv6(&self) -> (b: bool)
        ensures
            b == (*self is V6),
    {
        match self {
            IpAddress::V4(_) => false,
            IpAddress::V6(_) => true,
        }
    }

    pub fn to_canonical(&self) -> (r: IpAddress)
        ensures
            r == spec_to_canonical(*self),
    {
        match self {
            IpAddress::V4(a) => IpAddress::V4(*a),
            IpAddress::V6(a) => if *a / 0x1_0000_0000 == 0xffff {
                IpAddress::V4((*a % 0x1_0000_0000) as u32)
            } else {
                IpAddress::V6(*a)
            },
        }
    }
}

/// Taking the canonical form twice changes nothing more than once: an
/// address is announced by one form only.
pub proof fn lemma_canonical_idempotent(ip: IpAddress)
    ensures
        spec_to_canonical(spec_to_canonical(ip)) == spec_to_canonical(ip),
        spec_to_canonical(ip) is V6 ==> spec_to_canonical(ip) == ip,
{
}

} // verus!

//! IP addresses held as plain numeric values, together with the address
//! family selector that is threaded through every solver operation.

use vstd::prelude::*;

verus! {

/// Which IP address family a solver is asked to resolve.
#[derive(Debug, Clone, Copy, PartialEq, Eq, Structural)]
pub enum AddressKind {
    IPv4,
    IPv6,
}

/// An IP address, stored as its numeric value in big-endian integer form:
/// 32 bits for IPv4, 128 bits for IPv6.
#[derive(Debug, Clone, Copy, PartialEq, Eq, Structural)]
pub enum IpAddress {
    V4(u32),
    V6(u128),
}

impl AddressKind {
    /// The family's conventional name, "IPv4" or "IPv6".
    pub fn as_str(&self) -> (r: &'static str)
        ensures
            *self == AddressKind::IPv4 ==> r@ == "IPv4"@,
            *self == AddressKind::IPv6 ==> r@ == "IPv6"@,
    {
        match self {
            AddressKind::IPv4 => "IPv4",
            AddressKind::IPv6 => "IPv6",
        }
    }
}

impl IpAddress {
    /// The family this address belongs to.
    pub open spec fn spec_family(self) -> AddressKind {
        match self {
            IpAddress::V4(_) => AddressKind::IPv4,
            IpAddress::V6(_) => AddressKind::IPv6,
        }
    }

    pub fn family(&self) -> (k: AddressKind)
        ensures
            k == self.spec_family(),
    {
        match self {
            IpAddress::V4(_) => AddressKind::IPv4,
            IpAddress::V6(_) => AddressKind::IPv6,
        }
    }

    pub fn is_ipv4(&self) -> (r: bool)
        ensures
            r == (self.spec_family() == AddressKind::IPv4),
    {
        match self {
            IpAddress::V4(_) => true,
            IpAddress::V6(_) => false,
        }
    }

    pub fn is_ipv6(&self) -> (r: bool)
        ensures
            r == (self.spec_family() == AddressKind::IPv6),
    {
        match self {
            IpAddress::V4(_) => false,
            IpAddress::V6(_) => true,
        }
    }

    /// The numeric value of the address, widened to 128 bits.
    pub open spec fn spec_bits(self) -> u128 {
        match self {
            IpAddress::V4(v) => v as u128,
            IpAddress::V6(v) => v,
        }
    }

    pub fn bits(&self) -> (r: u128)
        ensures
            r == self.spec_bits(),
    {
        match self {
            IpAddress::V4(v) => *v as u128,
            IpAddress::V6(v) => *v,
        }
    }
}

} // verus!

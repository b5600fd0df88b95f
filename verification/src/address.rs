//! IPv4 and IPv6 addresses as numbers.

use vstd::prelude::*;

verus! {

/// An IPv4 address; `bits` is its value in network order, first octet highest.
#[derive(Clone, Copy, Debug, PartialEq, Eq, Hash, Structural)]
pub struct Ipv4Addr {
    pub bits: u32,
}

/// An IPv6 address; `bits` is its value in network order, first group highest.
#[derive(Clone, Copy, Debug, PartialEq, Eq, Hash, Structural)]
pub struct Ipv6Addr {
    pub bits: u128,
}

/// An address of either family.
#[derive(Clone, Copy, Debug, PartialEq, Eq, Hash, Structural)]
pub enum IpAddr {
    V4(Ipv4Addr),
    V6(Ipv6Addr),
}

/// The value of the IPv4 address that is written `a.b.c.d`.
pub open spec fn dotted(a: u8, b: u8, c: u8, d: u8) -> u32 {
    (a * 0x100_0000 + b * 0x1_0000 + c * 0x100 + d) as u32
}

/// The address that is written `a.b.c.d`.
pub open spec fn v4(a: u8, b: u8, c: u8, d: u8) -> IpAddr {
    IpAddr::V4(Ipv4Addr { bits: dotted(a, b, c, d) })
}

impl Ipv4Addr {
    /// The address that is written `a.b.c.d`.
    pub fn new(a: u8, b: u8, c: u8, d: u8) -> (address: Ipv4Addr)
        ensures
            address.bits == dotted(a, b, c, d),
            IpAddr::V4(address) == v4(a, b, c, d),
    {
        Ipv4Addr {
            bits: a as u32 * 0x100_0000 + b as u32 * 0x1_0000 + c as u32 * 0x100 + d as u32,
        }
    }
}

/// An IPv4 address has one dotted form: equal addresses have equal octets.
pub proof fn law_dotted_form_is_unique(
    a: u8,
    b: u8,
    c: u8,
    d: u8,
    e: u8,
    f: u8,
    g: u8,
    h: u8,
)
    requires
        v4(a, b, c, d) == v4(e, f, g, h),
    ensures
        a == e,
        b == f,
        c == g,
        d == h,
{
}

/// The dotted form of an address can be read off its value: each octet is one of its four
/// bytes, the first the highest.
pub proof fn law_dotted_form_is_read_off_the_value(a: u8, b: u8, c: u8, d: u8)
    ensures
        v4(a, b, c, d) matches IpAddr::V4(ip) && ip.bits as int / 0x100_0000 == a && ip.bits as int
            / 0x1_0000 % 0x100 == b && ip.bits as int / 0x100 % 0x100 == c && ip.bits as int % 0x100
            == d,
{
}

} // verus!

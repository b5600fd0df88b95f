//! Subnets in CIDR notation and the addresses in them.

use crate::address::{IpAddr, Ipv4Addr, Ipv6Addr};
use crate::error::{ErrorModel, FactoryError};
use std::str::FromStr;
use vstd::arithmetic::power2::{lemma_pow2_pos, pow2};
use vstd::prelude::*;

verus! {

/// A subnet: an address in it and the number of leading bits that its addresses
/// share.
#[derive(Clone, Copy, Debug, PartialEq, Eq, Structural)]
pub enum Subnet {
    V4 { addr: u32, prefix_len: u8 },
    V6 { addr: u128, prefix_len: u8 },
}

/// `addr` with the lowest `host_bits` bits cleared.
pub open spec fn lowest(addr: nat, host_bits: nat) -> nat {
    (addr - addr % pow2(host_bits)) as nat
}

impl Subnet {
    /// Whether the prefix is no longer than an address.
    pub open spec fn wf(self) -> bool {
        match self {
            Subnet::V4 { addr: _, prefix_len } => prefix_len <= 32,
            Subnet::V6 { addr: _, prefix_len } => prefix_len <= 128,
        }
    }

    /// The number of addresses in the subnet.
    pub open spec fn size(self) -> nat {
        match self {
            Subnet::V4 { addr: _, prefix_len } => pow2((32 - prefix_len) as nat),
            Subnet::V6 { addr: _, prefix_len } => pow2((128 - prefix_len) as nat),
        }
    }

    /// All addresses in the subnet in ascending order, the lowest (network) and
    /// the highest (broadcast) address included.
    pub open spec fn addresses(self) -> Seq<IpAddr> {
        match self {
            Subnet::V4 { addr, prefix_len } => {
                let start = lowest(addr as nat, (32 - prefix_len) as nat);
                Seq::new(
                    self.size(),
                    |i: int| IpAddr::V4(Ipv4Addr { bits: (start + i) as u32 }),
                )
            },
            Subnet::V6 { addr, prefix_len } => {
                let start = lowest(addr as nat, (128 - prefix_len) as nat);
                Seq::new(
                    self.size(),
                    |i: int| IpAddr::V6(Ipv6Addr { bits: (start + i) as u128 }),
                )
            },
        }
    }
}

/// What `ipnet::IpNet::from_str` reads `text` as; `None` where it refuses it.
pub uninterp spec fn parsed_subnet(text: Seq<char>) -> Option<Subnet>;

#[verifier::external_type_specification]
#[verifier::external_body]
pub struct ExAddrParseError(ipnet::AddrParseError);

/// Calls `ipnet::IpNet::from_str`, which reads CIDR notation of either family.
/// Claimed: what it returns depends on the text alone, and an accepted prefix is
/// no longer than an address of its family. Which texts it accepts is not stated.
#[verifier::external_body]
fn parse_subnet(text: &str) -> (subnet: Result<Subnet, ipnet::AddrParseError>)
    ensures
        match subnet {
            Ok(subnet) => parsed_subnet(text@) == Some(subnet) && subnet.wf(),
            Err(_) => parsed_subnet(text@) is None,
        },
{
    match ipnet::IpNet::from_str(text) {
        Ok(ipnet::IpNet::V4(net)) => Ok(
            Subnet::V4 { addr: net.addr().into(), prefix_len: net.prefix_len() },
        ),
        Ok(ipnet::IpNet::V6(net)) => Ok(
            Subnet::V6 { addr: net.addr().into(), prefix_len: net.prefix_len() },
        ),
        Err(error) => Err(error),
    }
}

/// Calls `ipnet::Ipv4Net::network`. Claimed: it clears the bits of `addr` behind
/// the prefix.
#[verifier::external_body]
fn v4_network(addr: u32, prefix_len: u8) -> (network: u32)
    requires
        prefix_len <= 32,
    ensures
        network == lowest(addr as nat, (32 - prefix_len) as nat),
{
    ipnet::Ipv4Net::new(addr.into(), prefix_len).unwrap().network().into()
}

/// Calls `ipnet::Ipv4Net::broadcast`. Claimed: it sets the bits of `addr` behind
/// the prefix.
#[verifier::external_body]
fn v4_broadcast(addr: u32, prefix_len: u8) -> (broadcast: u32)
    requires
        prefix_len <= 32,
    ensures
        broadcast == lowest(addr as nat, (32 - prefix_len) as nat) + pow2(
            (32 - prefix_len) as nat,
        ) - 1,
{
    ipnet::Ipv4Net::new(addr.into(), prefix_len).unwrap().broadcast().into()
}

#[verifier::external_type_specification]
#[verifier::external_body]
pub struct ExIpv6AddrRange(ipnet::Ipv6AddrRange);

/// The addresses that an `ipnet::Ipv6AddrRange` has yet to yield, in order.
pub uninterp spec fn left_in_range(range: ipnet::Ipv6AddrRange) -> Seq<u128>;

/// Calls `ipnet::Ipv6Net::hosts`. Claimed: the range yields all addresses in the
/// subnet in ascending order.
#[verifier::external_body]
fn v6_hosts(addr: u128, prefix_len: u8) -> (range: ipnet::Ipv6AddrRange)
    requires
        prefix_len <= 128,
    ensures
        left_in_range(range) == Seq::new(
            pow2((128 - prefix_len) as nat),
            |i: int| (lowest(addr as nat, (128 - prefix_len) as nat) + i) as u128,
        ),
{
    ipnet::Ipv6Net::new(addr.into(), prefix_len).unwrap().hosts()
}

/// Calls `ipnet::Ipv6AddrRange::next`. Claimed: it takes the first address that is
/// left, and yields nothing where none is left.
#[verifier::external_body]
fn next_in_range(range: &mut ipnet::Ipv6AddrRange) -> (next: Option<u128>)
    ensures
        match next {
            Some(bits) => left_in_range(*old(range)).len() > 0 && bits == left_in_range(
                *old(range),
            )[0] && left_in_range(*final(range)) == left_in_range(*old(range)).drop_first(),
            None => left_in_range(*old(range)).len() == 0 && left_in_range(*final(range)).len()
                == 0,
        },
{
    range.next().map(u128::from)
}

/// A number whose lowest bits are cleared leaves room for them.
proof fn lemma_lowest_leaves_room(addr: nat, bits: nat, host_bits: nat)
    requires
        addr < pow2(bits),
        host_bits <= bits,
    ensures
        lowest(addr, host_bits) + pow2(host_bits) <= pow2(bits),
        lowest(addr, host_bits) <= addr,
        addr < lowest(addr, host_bits) + pow2(host_bits),
{
    let block = pow2(host_bits) as int;
    let blocks = pow2((bits - host_bits) as nat) as int;
    lemma_pow2_pos(host_bits);
    vstd::arithmetic::power2::lemma_pow2_adds(host_bits, (bits - host_bits) as nat);
    vstd::arithmetic::div_mod::lemma_fundamental_div_mod(addr as int, block);
    let quotient = addr as int / block;
    let remainder = addr as int % block;
    assert(0 <= remainder < block) by {
        vstd::arithmetic::div_mod::lemma_mod_bound(addr as int, block);
    }
    assert(lowest(addr, host_bits) == block * quotient);
    assert(quotient < blocks) by (nonlinear_arith)
        requires
            addr == block * quotient + remainder,
            0 <= remainder,
            addr < block * blocks,
            block > 0,
    ;
    assert(block * quotient + block <= block * blocks) by (nonlinear_arith)
        requires
            quotient < blocks,
            block > 0,
    ;
}

/// All addresses in a subnet. A subnet that is larger than memory ends the program
/// as any other allocation of that size does.
pub fn subnet_hosts(subnet: Subnet) -> (hosts: Vec<IpAddr>)
    requires
        subnet.wf(),
    ensures
        hosts@ == subnet.addresses(),
{
    match subnet {
        Subnet::V4 { addr, prefix_len } => {
            let start: u32 = v4_network(addr, prefix_len);
            let end: u32 = v4_broadcast(addr, prefix_len);
            let mut hosts: Vec<IpAddr> = Vec::new();
            let mut next: u32 = start;
            proof {
                lemma_pow2_pos((32 - prefix_len) as nat);
            }
            while next < end
                invariant
                    start <= next <= end,
                    subnet == (Subnet::V4 { addr, prefix_len }),
                    start == lowest(addr as nat, (32 - prefix_len) as nat),
                    end == start + subnet.size() - 1,
                    hosts@ == subnet.addresses().take(next - start),
                decreases end - next,
            {
                hosts.push(IpAddr::V4(Ipv4Addr { bits: next }));
                assert(subnet.addresses().take(next + 1 - start) =~= hosts@);
                next = next + 1;
            }
            hosts.push(IpAddr::V4(Ipv4Addr { bits: next }));
            assert(hosts@ =~= subnet.addresses());
            hosts
        },
        Subnet::V6 { addr, prefix_len } => {
            let mut range = v6_hosts(addr, prefix_len);
            let ghost all = left_in_range(range);
            let mut hosts: Vec<IpAddr> = Vec::new();
            loop
                invariant
                    subnet == (Subnet::V6 { addr, prefix_len }),
                    all == Seq::new(
                        pow2((128 - prefix_len) as nat),
                        |i: int| (lowest(addr as nat, (128 - prefix_len) as nat) + i) as u128,
                    ),
                    hosts@.len() <= all.len(),
                    left_in_range(range) == all.skip(hosts@.len() as int),
                    hosts@ == subnet.addresses().take(hosts@.len() as int),
                ensures
                    hosts@ == subnet.addresses(),
                decreases left_in_range(range).len(),
            {
                match next_in_range(&mut range) {
                    Some(bits) => {
                        let ghost k = hosts@.len() as int;
                        hosts.push(IpAddr::V6(Ipv6Addr { bits }));
                        assert(all.skip(k).drop_first() =~= all.skip(k + 1));
                        assert(subnet.addresses().take(k + 1) =~= hosts@);
                    },
                    None => {
                        assert(subnet.addresses().take(hosts@.len() as int)
                            =~= subnet.addresses());
                        break;
                    },
                }
            }
            hosts
        },
    }
}

impl Subnet {
    /// Whether `ip` is of the subnet's family and shares its prefix.
    pub open spec fn covers(self, ip: IpAddr) -> bool {
        match (self, ip) {
            (Subnet::V4 { addr, prefix_len }, IpAddr::V4(ip)) => ip.bits as nat / pow2(
                (32 - prefix_len) as nat,
            ) == addr as nat / pow2((32 - prefix_len) as nat),
            (Subnet::V6 { addr, prefix_len }, IpAddr::V6(ip)) => ip.bits as nat / pow2(
                (128 - prefix_len) as nat,
            ) == addr as nat / pow2((128 - prefix_len) as nat),
            _ => false,
        }
    }
}

/// The numbers that share a prefix with `addr` are those from `lowest` on.
proof fn lemma_prefix_block(addr: nat, host_bits: nat, bits: nat)
    ensures
        bits / pow2(host_bits) == addr / pow2(host_bits) <==> lowest(addr, host_bits) <= bits
            < lowest(addr, host_bits) + pow2(host_bits),
{
    let block = pow2(host_bits) as int;
    lemma_pow2_pos(host_bits);
    vstd::arithmetic::div_mod::lemma_fundamental_div_mod(addr as int, block);
    vstd::arithmetic::div_mod::lemma_fundamental_div_mod(bits as int, block);
    vstd::arithmetic::div_mod::lemma_mod_bound(addr as int, block);
    vstd::arithmetic::div_mod::lemma_mod_bound(bits as int, block);
    let a = addr as int / block;
    let b = bits as int / block;
    let r = bits as int % block;
    assert(lowest(addr, host_bits) == block * a);
    assert(a == b <==> block * a <= block * b + r < block * a + block) by (nonlinear_arith)
        requires
            0 <= r < block,
    ;
}

/// An address is in a subnet exactly when it is of the subnet's family and shares
/// its prefix.
pub proof fn law_subnet_members(subnet: Subnet, ip: IpAddr)
    requires
        subnet.wf(),
    ensures
        subnet.addresses().contains(ip) <==> subnet.covers(ip),
{
    let all = subnet.addresses();
    match subnet {
        Subnet::V4 { addr, prefix_len } => {
            let host_bits = (32 - prefix_len) as nat;
            lemma_u32_fits(addr);
            lemma_lowest_leaves_room(addr as nat, 32, host_bits);
            let start = lowest(addr as nat, host_bits);
            vstd::arithmetic::power2::lemma2_to64();
            if let IpAddr::V4(v4) = ip {
                lemma_prefix_block(addr as nat, host_bits, v4.bits as nat);
                if subnet.covers(ip) {
                    assert(all[v4.bits - start] == ip);
                }
            }
            if all.contains(ip) {
                let i = choose|i: int| 0 <= i < all.len() && all[i] == ip;
                assert(ip == IpAddr::V4(Ipv4Addr { bits: (start + i) as u32 }));
            }
        },
        Subnet::V6 { addr, prefix_len } => {
            let host_bits = (128 - prefix_len) as nat;
            lemma_u128_fits(addr);
            lemma_lowest_leaves_room(addr as nat, 128, host_bits);
            let start = lowest(addr as nat, host_bits);
            if let IpAddr::V6(v6) = ip {
                lemma_prefix_block(addr as nat, host_bits, v6.bits as nat);
                if subnet.covers(ip) {
                    assert(all[v6.bits - start] == ip);
                }
            }
            if all.contains(ip) {
                let i = choose|i: int| 0 <= i < all.len() && all[i] == ip;
                assert(ip == IpAddr::V6(Ipv6Addr { bits: (start + i) as u128 }));
            }
        },
    }
}

proof fn lemma_u32_fits(addr: u32)
    ensures
        (addr as nat) < pow2(32),
        pow2(32) == u32::MAX + 1,
{
    vstd::arithmetic::power2::lemma2_to64();
}

proof fn lemma_u128_fits(addr: u128)
    ensures
        (addr as nat) < pow2(128),
        pow2(128) == u128::MAX + 1,
{
    vstd::arithmetic::power2::lemma2_to64();
    vstd::arithmetic::power2::lemma_pow2_adds(64, 64);
    assert(pow2(64) * pow2(64) == u128::MAX + 1);
}

/// A subnet holds each of its addresses once, and there are as many as its prefix
/// leaves bits for; the address that it was written with is among them.
pub proof fn law_subnet_addresses_are_distinct(subnet: Subnet)
    requires
        subnet.wf(),
    ensures
        subnet.addresses().no_duplicates(),
        subnet.addresses().len() == subnet.size(),
        subnet.size() > 0,
        match subnet {
            Subnet::V4 { addr, prefix_len: _ } => subnet.addresses().contains(
                IpAddr::V4(Ipv4Addr { bits: addr }),
            ),
            Subnet::V6 { addr, prefix_len: _ } => subnet.addresses().contains(
                IpAddr::V6(Ipv6Addr { bits: addr }),
            ),
        },
{
    match subnet {
        Subnet::V4 { addr, prefix_len } => {
            lemma_u32_fits(addr);
            lemma_lowest_leaves_room(addr as nat, 32, (32 - prefix_len) as nat);
            lemma_pow2_pos((32 - prefix_len) as nat);
            law_subnet_members(subnet, IpAddr::V4(Ipv4Addr { bits: addr }));
        },
        Subnet::V6 { addr, prefix_len } => {
            lemma_u128_fits(addr);
            lemma_lowest_leaves_room(addr as nat, 128, (128 - prefix_len) as nat);
            lemma_pow2_pos((128 - prefix_len) as nat);
            law_subnet_members(subnet, IpAddr::V6(Ipv6Addr { bits: addr }));
        },
    }
}

/// The addresses that a subnet in CIDR notation holds.
pub open spec fn subnet_selects(text: Seq<char>) -> Result<Seq<IpAddr>, ErrorModel> {
    match parsed_subnet(text) {
        Some(subnet) => Ok(subnet.addresses()),
        None => Err(ErrorModel::Subnet),
    }
}

/// The addresses that a subnet in CIDR notation holds, of either family.
pub fn hosts_from_subnet(subnet: &str) -> (hosts: Result<Vec<IpAddr>, FactoryError>)
    ensures
        match hosts {
            Ok(hosts) => subnet_selects(subnet@) == Ok::<Seq<IpAddr>, ErrorModel>(hosts@),
            Err(error) => subnet_selects(subnet@) == Err::<Seq<IpAddr>, ErrorModel>(error@),
        },
        parsed_subnet(subnet@) matches Some(network) ==> network.wf(),
{
    match parse_subnet(subnet) {
        Ok(network) => Ok(subnet_hosts(network)),
        Err(_) => Err(FactoryError::Subnet),
    }
}

/// A subnet of version four holds, in ascending order, exactly the addresses that agree
/// with the one that it was written with in all bits but the last ones.
pub proof fn law_v4_subnet_by_prefix(addr: u32, prefix_len: u8, bits: u32)
    requires
        prefix_len <= 32,
    ensures
        ({
            let all = (Subnet::V4 { addr, prefix_len }).addresses();
            let block = pow2((32 - prefix_len) as nat);
            &&& all.len() == block
            &&& all.contains(IpAddr::V4(Ipv4Addr { bits })) <==> bits as nat / block == addr as nat
                / block
            &&& forall|i: int|
                0 <= i < all.len() ==> ((#[trigger] all[i]) matches IpAddr::V4(ip) && ip.bits
                    == addr as nat / block * block + i)
        }),
{
    let subnet = Subnet::V4 { addr, prefix_len };
    let host_bits = (32 - prefix_len) as nat;
    let block = pow2(host_bits);
    law_subnet_members(subnet, IpAddr::V4(Ipv4Addr { bits }));
    lemma_u32_fits(addr);
    lemma_lowest_leaves_room(addr as nat, 32, host_bits);
    lemma_lowest_is_a_multiple(addr as nat, host_bits);
    assert forall|i: int| 0 <= i < subnet.addresses().len() implies (
    (#[trigger] subnet.addresses()[i]) matches IpAddr::V4(ip) && ip.bits == addr as nat / block
        * block + i) by {
        assert(lowest(addr as nat, host_bits) + i <= u32::MAX);
    }
}

/// A subnet of version six holds, in ascending order, exactly the addresses that agree
/// with the one that it was written with in all bits but the last ones.
pub proof fn law_v6_subnet_by_prefix(addr: u128, prefix_len: u8, bits: u128)
    requires
        prefix_len <= 128,
    ensures
        ({
            let all = (Subnet::V6 { addr, prefix_len }).addresses();
            let block = pow2((128 - prefix_len) as nat);
            &&& all.len() == block
            &&& all.contains(IpAddr::V6(Ipv6Addr { bits })) <==> bits as nat / block == addr as nat
                / block
            &&& forall|i: int|
                0 <= i < all.len() ==> ((#[trigger] all[i]) matches IpAddr::V6(ip) && ip.bits
                    == addr as nat / block * block + i)
        }),
{
    let subnet = Subnet::V6 { addr, prefix_len };
    let host_bits = (128 - prefix_len) as nat;
    let block = pow2(host_bits);
    law_subnet_members(subnet, IpAddr::V6(Ipv6Addr { bits }));
    lemma_u128_fits(addr);
    lemma_lowest_leaves_room(addr as nat, 128, host_bits);
    lemma_lowest_is_a_multiple(addr as nat, host_bits);
    assert forall|i: int| 0 <= i < subnet.addresses().len() implies (
    (#[trigger] subnet.addresses()[i]) matches IpAddr::V6(ip) && ip.bits == addr as nat / block
        * block + i) by {
        assert(lowest(addr as nat, host_bits) + i <= u128::MAX);
    }
}

proof fn lemma_lowest_is_a_multiple(addr: nat, host_bits: nat)
    ensures
        lowest(addr, host_bits) == addr / pow2(host_bits) * pow2(host_bits),
{
    lemma_pow2_pos(host_bits);
    vstd::arithmetic::div_mod::lemma_fundamental_div_mod(addr as int, pow2(host_bits) as int);
    vstd::arithmetic::mul::lemma_mul_is_commutative(
        pow2(host_bits) as int,
        addr as int / pow2(host_bits) as int,
    );
}

/// A text that reads as a subnet selects the addresses of that subnet, and any other text
/// is refused.
pub proof fn law_text_selects_its_subnet(text: Seq<char>)
    ensures
        match parsed_subnet(text) {
            Some(subnet) => subnet_selects(text) is Ok && subnet_selects(text)->Ok_0
                == subnet.addresses(),
            None => subnet_selects(text) == Err::<Seq<IpAddr>, ErrorModel>(ErrorModel::Subnet),
        },
{
}

} // verus!

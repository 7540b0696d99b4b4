//! Network addresses as numbers, and the subnets they fall in.

use crate::text::{decimal, push_decimal};
use vstd::prelude::*;

verus! {

/// An IPv4 address, the first octet in the highest bits.
#[derive(Debug, Clone, Copy, PartialEq, Eq, Structural)]
pub struct Ipv4Addr {
    pub bits: u32,
}

/// An IP address.
#[derive(Debug, Clone, Copy, PartialEq, Eq, Structural)]
pub enum IpAddr {
    V4(Ipv4Addr),
    V6(u128),
}

/// A network interface with an IPv4 address.
#[derive(Debug, Clone, Copy, PartialEq, Eq)]
pub struct LocalIpv4Interface {
    pub ip: Ipv4Addr,
    pub netmask: Ipv4Addr,
    pub broadcast: Option<Ipv4Addr>,
}

impl Ipv4Addr {
    /// The address with the four octets.
    pub open spec fn of(a: u8, b: u8, c: u8, d: u8) -> Ipv4Addr {
        Ipv4Addr { bits: (a * 0x100_0000 + b * 0x1_0000 + c * 0x100 + d) as u32 }
    }

    /// Octet number `i`, from the left.
    pub open spec fn octet(self, i: int) -> nat {
        (if i == 0 {
            self.bits as nat / 0x100_0000
        } else if i == 1 {
            self.bits as nat / 0x1_0000 % 0x100
        } else if i == 2 {
            self.bits as nat / 0x100 % 0x100
        } else {
            self.bits as nat % 0x100
        })
    }

    /// The usual notation: the four octets in decimal, between dots.
    pub open spec fn dotted(self) -> Seq<char> {
        decimal(self.octet(0)) + "."@ + decimal(self.octet(1)) + "."@ + decimal(self.octet(2))
            + "."@ + decimal(self.octet(3))
    }

    /// Addresses of the device itself: 127.0.0.0/8.
    pub open spec fn loopback(self) -> bool {
        self.octet(0) == 127
    }

    /// Addresses without a router: 169.254.0.0/16.
    pub open spec fn link_local(self) -> bool {
        self.octet(0) == 169 && self.octet(1) == 254
    }

    /// The address 0.0.0.0.
    pub open spec fn unspecified(self) -> bool {
        self.bits == 0
    }

    /// Whether other devices can be reached at the address.
    pub open spec fn usable(self) -> bool {
        !self.loopback() && !self.link_local() && !self.unspecified()
    }

    /// The address with the four octets.
    pub fn new(a: u8, b: u8, c: u8, d: u8) -> (r: Self)
        ensures
            r == Ipv4Addr::of(a, b, c, d),
            r.octet(0) == a,
            r.octet(1) == b,
            r.octet(2) == c,
            r.octet(3) == d,
    {
        proof {
            lemma_octets(a as int, b as int, c as int, d as int);
        }
        Ipv4Addr { bits: a as u32 * 0x100_0000 + b as u32 * 0x1_0000 + c as u32 * 0x100 + d as u32 }
    }

    /// Whether the address is one of the device itself.
    pub fn is_loopback(&self) -> (r: bool)
        ensures
            r == self.loopback(),
    {
        self.bits / 0x100_0000 == 127
    }

    /// Whether the address is one without a router.
    pub fn is_link_local(&self) -> (r: bool)
        ensures
            r == self.link_local(),
    {
        self.bits / 0x100_0000 == 169 && self.bits / 0x1_0000 % 0x100 == 254
    }

    /// Whether the address is 0.0.0.0.
    pub fn is_unspecified(&self) -> (r: bool)
        ensures
            r == self.unspecified(),
    {
        self.bits == 0
    }

    /// The usual notation.
    pub fn to_text(&self) -> (r: String)
        ensures
            r@ == self.dotted(),
    {
        let mut r = String::new();
        push_decimal(&mut r, (self.bits / 0x100_0000) as u64);
        r.append(".");
        push_decimal(&mut r, (self.bits / 0x1_0000 % 0x100) as u64);
        r.append(".");
        push_decimal(&mut r, (self.bits / 0x100 % 0x100) as u64);
        r.append(".");
        push_decimal(&mut r, (self.bits % 0x100) as u64);
        assert(r@ =~= self.dotted());
        r
    }
}

/// Four octets come out of the number that they make.
proof fn lemma_octets(a: int, b: int, c: int, d: int)
    requires
        0 <= a < 0x100,
        0 <= b < 0x100,
        0 <= c < 0x100,
        0 <= d < 0x100,
    ensures
        ({
            let n = a * 0x100_0000 + b * 0x1_0000 + c * 0x100 + d;
            &&& 0 <= n <= u32::MAX
            &&& n / 0x100_0000 == a
            &&& n / 0x1_0000 % 0x100 == b
            &&& n / 0x100 % 0x100 == c
            &&& n % 0x100 == d
        }),
{
    let n = a * 0x100_0000 + b * 0x1_0000 + c * 0x100 + d;
    let m = a * 0x1_0000 + b * 0x100 + c;
    let k = a * 0x100 + b;
    vstd::arithmetic::div_mod::lemma_fundamental_div_mod_converse(n, 0x100, m, d);
    vstd::arithmetic::div_mod::lemma_fundamental_div_mod_converse(m, 0x100, k, c);
    vstd::arithmetic::div_mod::lemma_fundamental_div_mod_converse(n, 0x1_0000, k, c * 0x100 + d);
    vstd::arithmetic::div_mod::lemma_fundamental_div_mod_converse(k, 0x100, a, b);
    vstd::arithmetic::div_mod::lemma_fundamental_div_mod_converse(
        n,
        0x100_0000,
        a,
        b * 0x1_0000 + c * 0x100 + d,
    );
}

/// Whether an interface with this address takes part.
pub fn is_usable_local_ipv4(ip: Ipv4Addr) -> (r: bool)
    ensures
        r == ip.usable(),
{
    !ip.is_loopback() && !ip.is_link_local() && !ip.is_unspecified()
}

/// Whether a broadcast can go to this address.
pub fn is_usable_broadcast(ip: Ipv4Addr) -> (r: bool)
    ensures
        r == ip.usable(),
{
    !ip.is_loopback() && !ip.is_link_local() && !ip.is_unspecified()
}

/// Whether two addresses agree where the mask has ones; under an empty mask none do.
pub open spec fn in_same_subnet(a: Ipv4Addr, b: Ipv4Addr, netmask: Ipv4Addr) -> bool {
    netmask.bits != 0 && a.bits & netmask.bits == b.bits & netmask.bits
}

/// Whether two addresses are in one subnet.
pub fn same_subnet(a: Ipv4Addr, b: Ipv4Addr, netmask: Ipv4Addr) -> (r: bool)
    ensures
        r == in_same_subnet(a, b, netmask),
{
    let mask: u32 = netmask.bits;
    mask != 0 && (a.bits & mask) == (b.bits & mask)
}

/// The address of the interface with ones where its mask has zeros, unless the mask is all zeros
/// or all ones.
pub open spec fn broadcast_of(iface: LocalIpv4Interface) -> Option<Ipv4Addr> {
    if iface.netmask.bits == 0 || iface.netmask.bits == u32::MAX {
        None
    } else {
        Some(Ipv4Addr { bits: iface.ip.bits | !iface.netmask.bits })
    }
}

/// The broadcast address that follows from an interface's address and mask.
pub fn directed_broadcast(iface: &LocalIpv4Interface) -> (r: Option<Ipv4Addr>)
    ensures
        r == broadcast_of(*iface),
{
    let mask: u32 = iface.netmask.bits;
    if mask == 0 || mask == u32::MAX {
        return None;
    }
    Some(Ipv4Addr { bits: iface.ip.bits | !mask })
}

/// The interfaces that take part, in order.
pub fn local_ipv4_interfaces(all: &Vec<LocalIpv4Interface>) -> (r: Vec<LocalIpv4Interface>)
    ensures
        r@ == all@.filter(|i: LocalIpv4Interface| i.ip.usable()),
{
    let ghost keep = |i: LocalIpv4Interface| i.ip.usable();
    let mut r: Vec<LocalIpv4Interface> = Vec::new();
    proof {
        reveal(Seq::filter);
        assert(all@.take(0).filter(keep) =~= Seq::<LocalIpv4Interface>::empty());
    }
    for i in 0..all.len()
        invariant
            keep == (|i: LocalIpv4Interface| i.ip.usable()),
            r@ == all@.take(i as int).filter(keep),
    {
        proof {
            crate::lists::lemma_filter_step(all@, keep, i as int);
        }
        let iface: LocalIpv4Interface = all[i];
        if is_usable_local_ipv4(iface.ip) {
            r.push(iface);
        }
    }
    assert(all@.take(all@.len() as int) =~= all@);
    r
}

/// The address of the first interface that is in the subnet of `remote`.
pub open spec fn first_near(ifaces: Seq<LocalIpv4Interface>, remote: Ipv4Addr) -> Option<Ipv4Addr>
    decreases ifaces.len(),
{
    if ifaces.len() == 0 {
        None
    } else if in_same_subnet(ifaces[0].ip, remote, ifaces[0].netmask) {
        Some(ifaces[0].ip)
    } else {
        first_near(ifaces.drop_first(), remote)
    }
}

/// The own address by which an IPv4 remote reaches this device: that of the first participating
/// interface in the remote's subnet.
pub open spec fn local_host_for(ifaces: Seq<LocalIpv4Interface>, remote: IpAddr) -> Option<Ipv4Addr> {
    match remote {
        IpAddr::V4(ip) => first_near(ifaces, ip),
        IpAddr::V6(_) => None,
    }
}

/// The own address by which `remote` reaches this device.
pub fn best_local_host_for_remote(ifaces: &Vec<LocalIpv4Interface>, remote: IpAddr) -> (r: Option<
    Ipv4Addr,
>)
    ensures
        r == local_host_for(ifaces@, remote),
{
    let ip: Ipv4Addr = match remote {
        IpAddr::V4(ip) => ip,
        IpAddr::V6(_) => {
            return None;
        },
    };
    assert(ifaces@.skip(0) =~= ifaces@);
    for i in 0..ifaces.len()
        invariant
            remote == IpAddr::V4(ip),
            first_near(ifaces@, ip) == first_near(ifaces@.skip(i as int), ip),
    {
        let iface: LocalIpv4Interface = ifaces[i];
        assert(ifaces@.skip(i as int).drop_first() =~= ifaces@.skip(i + 1));
        if same_subnet(iface.ip, ip, iface.netmask) {
            return Some(iface.ip);
        }
    }
    None
}

/// The first IPv4 address of a list that is neither the device's own nor without a router; all
/// others are passed over.
pub open spec fn first_routable(list: Seq<IpAddr>) -> Option<Ipv4Addr>
    decreases list.len(),
{
    if list.len() == 0 {
        None
    } else {
        match list[0] {
            IpAddr::V4(ip) if !ip.loopback() && !ip.link_local() => Some(ip),
            _ => first_routable(list.drop_first()),
        }
    }
}

/// The first IPv4 address of a list that is neither the device's own nor without a router.
pub fn first_routable_ipv4(list: &Vec<IpAddr>) -> (r: Option<Ipv4Addr>)
    ensures
        r == first_routable(list@),
{
    assert(list@.skip(0) =~= list@);
    for i in 0..list.len()
        invariant
            first_routable(list@) == first_routable(list@.skip(i as int)),
    {
        assert(list@.skip(i as int).drop_first() =~= list@.skip(i + 1));
        match list[i] {
            IpAddr::V4(ip) => {
                if !ip.is_loopback() && !ip.is_link_local() {
                    return Some(ip);
                }
            },
            IpAddr::V6(_) => {},
        }
    }
    None
}

/// Being in one subnet is an equivalence: every address is in its own, and it does not matter
/// which of two is named first or through which third address they are related.
pub proof fn subnets_are_classes(a: Ipv4Addr, b: Ipv4Addr, c: Ipv4Addr, netmask: Ipv4Addr)
    ensures
        netmask.bits != 0 ==> in_same_subnet(a, a, netmask),
        in_same_subnet(a, b, netmask) ==> in_same_subnet(b, a, netmask),
        in_same_subnet(a, b, netmask) && in_same_subnet(b, c, netmask) ==> in_same_subnet(
            a,
            c,
            netmask,
        ),
{
}

/// The directed broadcast address lies in the subnet of the interface, and has a one in every
/// place that the mask leaves to hosts.
pub proof fn directed_broadcast_is_last_of_subnet(iface: LocalIpv4Interface)
    ensures
        broadcast_of(iface) matches Some(b) ==> in_same_subnet(iface.ip, b, iface.netmask) && b.bits
            & !iface.netmask.bits == !iface.netmask.bits,
{
    let ip = iface.ip.bits;
    let mask = iface.netmask.bits;
    assert(ip & mask == (ip | !mask) & mask) by (bit_vector);
    assert((ip | !mask) & !mask == !mask) by (bit_vector);
}

/// What is said of an address goes by its octets: its notation, whether it is the device's own, has no
/// router, or is that of nobody, and whether other devices can be reached at it.
pub proof fn address_goes_by_its_octets(a: u8, b: u8, c: u8, d: u8)
    ensures
        ({
            let ip = Ipv4Addr::of(a, b, c, d);
            &&& ip.dotted() == decimal(a as nat) + "."@ + decimal(b as nat) + "."@ + decimal(c as nat)
                + "."@ + decimal(d as nat)
            &&& ip.loopback() <==> a == 127
            &&& ip.link_local() <==> a == 169 && b == 254
            &&& ip.unspecified() <==> a == 0 && b == 0 && c == 0 && d == 0
            &&& ip.usable() <==> a != 127 && !(a == 169 && b == 254) && !(a == 0 && b == 0 && c == 0
                && d == 0)
        }),
{
    lemma_octets(a as int, b as int, c as int, d as int);
}

/// Two addresses are in one subnet just when they differ in no place of the mask, and the mask has one.
pub proof fn subnet_is_what_the_mask_keeps(a: Ipv4Addr, b: Ipv4Addr, netmask: Ipv4Addr)
    ensures
        in_same_subnet(a, b, netmask) <==> netmask.bits != 0 && (a.bits ^ b.bits) & netmask.bits == 0,
{
    let x = a.bits;
    let y = b.bits;
    let m = netmask.bits;
    assert((x & m == y & m) <==> ((x ^ y) & m == 0)) by (bit_vector);
}

/// An interface has a directed broadcast address unless its mask leaves all or nothing to hosts, and
/// that differs from its own address in no place of the mask.
pub proof fn directed_broadcast_is_there(iface: LocalIpv4Interface)
    ensures
        broadcast_of(iface) is Some <==> 0 < iface.netmask.bits < 0xffff_ffff,
        broadcast_of(iface) matches Some(b) ==> (b.bits ^ iface.ip.bits) & iface.netmask.bits == 0 && b.bits
            | iface.netmask.bits == 0xffff_ffff,
{
    let ip = iface.ip.bits;
    let mask = iface.netmask.bits;
    assert(((ip | !mask) ^ ip) & mask == 0) by (bit_vector);
    assert((ip | !mask) | mask == 0xffff_ffff) by (bit_vector);
}

/// The own address for a remote one is that of an interface in its subnet, and of the first such; there
/// is none just when no interface is in its subnet.
pub proof fn nearest_interface_is_found(ifaces: Seq<LocalIpv4Interface>, remote: Ipv4Addr)
    ensures
        match first_near(ifaces, remote) {
            Some(ip) => exists|i: int|
                0 <= i < ifaces.len() && (#[trigger] ifaces[i]).ip == ip && in_same_subnet(
                    ip,
                    remote,
                    ifaces[i].netmask,
                ) && forall|j: int|
                    0 <= j < i ==> !in_same_subnet(
                        (#[trigger] ifaces[j]).ip,
                        remote,
                        ifaces[j].netmask,
                    ),
            None => forall|j: int|
                0 <= j < ifaces.len() ==> !in_same_subnet(
                    (#[trigger] ifaces[j]).ip,
                    remote,
                    ifaces[j].netmask,
                ),
        },
    decreases ifaces.len(),
{
    if ifaces.len() > 0 {
        let first = ifaces[0];
        if in_same_subnet(first.ip, remote, first.netmask) {
            assert(ifaces[0].ip == first_near(ifaces, remote)->0);
        } else {
            let rest = ifaces.drop_first();
            nearest_interface_is_found(rest, remote);
            match first_near(rest, remote) {
                Some(ip) => {
                    let i = choose|i: int|
                        0 <= i < rest.len() && (#[trigger] rest[i]).ip == ip && in_same_subnet(
                            ip,
                            remote,
                            rest[i].netmask,
                        ) && forall|j: int|
                            0 <= j < i ==> !in_same_subnet(
                                (#[trigger] rest[j]).ip,
                                remote,
                                rest[j].netmask,
                            );
                    assert(ifaces[i + 1] == rest[i]);
                    assert forall|j: int| 0 <= j < i + 1 implies !in_same_subnet(
                        (#[trigger] ifaces[j]).ip,
                        remote,
                        ifaces[j].netmask,
                    ) by {
                        if j > 0 {
                            assert(ifaces[j] == rest[j - 1]);
                        }
                    }
                    assert(ifaces[i + 1].ip == ip);
                },
                None => {
                    assert forall|j: int| 0 <= j < ifaces.len() implies !in_same_subnet(
                        (#[trigger] ifaces[j]).ip,
                        remote,
                        ifaces[j].netmask,
                    ) by {
                        if j > 0 {
                            assert(ifaces[j] == rest[j - 1]);
                        }
                    }
                },
            }
        }
    }
}

/// Whether other devices can route to the address: an IPv4 one that is neither the device's own nor
/// without a router.
pub open spec fn is_routable(ip: IpAddr) -> bool {
    match ip {
        IpAddr::V4(v4) => v4.octet(0) != 127 && !(v4.octet(0) == 169 && v4.octet(1) == 254),
        IpAddr::V6(_) => false,
    }
}

/// The address that is picked from a list is the first routable one; there is none just when the list
/// has none.
pub proof fn first_routable_is_first(list: Seq<IpAddr>)
    ensures
        match first_routable(list) {
            Some(ip) => exists|i: int|
                0 <= i < list.len() && #[trigger] list[i] == IpAddr::V4(ip) && is_routable(list[i])
                    && forall|j: int| 0 <= j < i ==> !is_routable(#[trigger] list[j]),
            None => forall|j: int| 0 <= j < list.len() ==> !is_routable(#[trigger] list[j]),
        },
    decreases list.len(),
{
    if list.len() > 0 {
        if is_routable(list[0]) {
            assert(list[0] == IpAddr::V4(first_routable(list)->0));
        } else {
            let rest = list.drop_first();
            first_routable_is_first(rest);
            match first_routable(rest) {
                Some(ip) => {
                    let i = choose|i: int|
                        0 <= i < rest.len() && #[trigger] rest[i] == IpAddr::V4(ip) && is_routable(
                            rest[i],
                        ) && forall|j: int| 0 <= j < i ==> !is_routable(#[trigger] rest[j]);
                    assert forall|j: int| 0 <= j < i + 1 implies !is_routable(#[trigger] list[j]) by {
                        if j > 0 {
                            assert(list[j] == rest[j - 1]);
                        }
                    }
                    assert(list[i + 1] == IpAddr::V4(ip));
                },
                None => {
                    assert forall|j: int| 0 <= j < list.len() implies !is_routable(
                        #[trigger] list[j],
                    ) by {
                        if j > 0 {
                            assert(list[j] == rest[j - 1]);
                        }
                    }
                },
            }
        }
    }
}

} // verus!

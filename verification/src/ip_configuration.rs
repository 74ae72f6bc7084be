//! The structured configuration records read from the modem tool's
//! output, and the aggregation that folds a sequence of records into
//! one IP configuration: addresses and DNS servers accumulate in
//! document order, while the per-family gateway and the shared
//! transaction id are last-seen-wins.

use vstd::prelude::*;
use crate::addr::{ipv4_zero, ipv6_zero, IpAddress, Ipv4Address, Ipv6Address};

verus! {

/// An address of either family with its prefix length, as read from
/// an `IP` record.
#[derive(Clone, Copy, PartialEq, Eq, Structural, Debug)]
pub struct IpAddrWithMask {
    pub addr: IpAddress,
    pub mask: u8,
}

/// An IPv4 address with its prefix length.
#[derive(Clone, Copy, PartialEq, Eq, Structural, Debug)]
pub struct Ipv4AddrWithMask {
    pub addr: Ipv4Address,
    pub mask: u8,
}

/// An IPv6 address with its prefix length.
#[derive(Clone, Copy, PartialEq, Eq, Structural, Debug)]
pub struct Ipv6AddrWithMask {
    pub addr: Ipv6Address,
    pub mask: u8,
}

/// One recognized record of the tool's output: an address with mask,
/// a gateway, a DNS server, a transaction id, or a recognized line
/// that carries no field of interest.
#[derive(Clone, Copy, PartialEq, Eq, Structural, Debug)]
pub enum ConfigEntry {
    Ip(IpAddrWithMask),
    Gw(IpAddress),
    Dns(IpAddress),
    TRID(u64),
    NoValue,
}

/// The IPv4 side of a configuration: addresses in document order
/// (duplicates retained), the last-seen gateway, DNS servers in
/// document order.
#[derive(Clone, Debug)]
pub struct Ipv4Configuration {
    pub ip: Vec<Ipv4AddrWithMask>,
    pub gw: Ipv4Address,
    pub dns: Vec<Ipv4Address>,
}

/// The IPv6 side of a configuration.
#[derive(Clone, Debug)]
pub struct Ipv6Configuration {
    pub ip: Vec<Ipv6AddrWithMask>,
    pub gw: Ipv6Address,
    pub dns: Vec<Ipv6Address>,
}

/// A full configuration: both families and the shared transaction id
/// (zero when no transaction id record was seen).
#[derive(Clone, Debug)]
pub struct IpConfiguration {
    pub ipv4: Ipv4Configuration,
    pub ipv6: Ipv6Configuration,
    pub trid: u64,
}

/// The IPv4 addresses among `es`, in order.
pub open spec fn ipv4_addrs_of(es: Seq<ConfigEntry>) -> Seq<Ipv4AddrWithMask>
    decreases es.len(),
{
    if es.len() == 0 {
        Seq::empty()
    } else {
        let rest = ipv4_addrs_of(es.drop_last());
        match es.last() {
            ConfigEntry::Ip(IpAddrWithMask { addr: IpAddress::V4(a), mask }) => rest.push(
                Ipv4AddrWithMask { addr: a, mask },
            ),
            _ => rest,
        }
    }
}

/// The IPv6 addresses among `es`, in order.
pub open spec fn ipv6_addrs_of(es: Seq<ConfigEntry>) -> Seq<Ipv6AddrWithMask>
    decreases es.len(),
{
    if es.len() == 0 {
        Seq::empty()
    } else {
        let rest = ipv6_addrs_of(es.drop_last());
        match es.last() {
            ConfigEntry::Ip(IpAddrWithMask { addr: IpAddress::V6(a), mask }) => rest.push(
                Ipv6AddrWithMask { addr: a, mask },
            ),
            _ => rest,
        }
    }
}

/// The IPv4 DNS servers among `es`, in order.
pub open spec fn dns4_of(es: Seq<ConfigEntry>) -> Seq<Ipv4Address>
    decreases es.len(),
{
    if es.len() == 0 {
        Seq::empty()
    } else {
        let rest = dns4_of(es.drop_last());
        match es.last() {
            ConfigEntry::Dns(IpAddress::V4(a)) => rest.push(a),
            _ => rest,
        }
    }
}

/// The IPv6 DNS servers among `es`, in order.
pub open spec fn dns6_of(es: Seq<ConfigEntry>) -> Seq<Ipv6Address>
    decreases es.len(),
{
    if es.len() == 0 {
        Seq::empty()
    } else {
        let rest = dns6_of(es.drop_last());
        match es.last() {
            ConfigEntry::Dns(IpAddress::V6(a)) => rest.push(a),
            _ => rest,
        }
    }
}

/// The last IPv4 gateway among `es`, or the zero address.
pub open spec fn gw4_of(es: Seq<ConfigEntry>) -> Ipv4Address
    decreases es.len(),
{
    if es.len() == 0 {
        ipv4_zero()
    } else {
        match es.last() {
            ConfigEntry::Gw(IpAddress::V4(a)) => a,
            _ => gw4_of(es.drop_last()),
        }
    }
}

/// The last IPv6 gateway among `es`, or the zero address.
pub open spec fn gw6_of(es: Seq<ConfigEntry>) -> Ipv6Address
    decreases es.len(),
{
    if es.len() == 0 {
        ipv6_zero()
    } else {
        match es.last() {
            ConfigEntry::Gw(IpAddress::V6(a)) => a,
            _ => gw6_of(es.drop_last()),
        }
    }
}

/// The last transaction id among `es`, or zero.
pub open spec fn trid_of(es: Seq<ConfigEntry>) -> u64
    decreases es.len(),
{
    if es.len() == 0 {
        0
    } else {
        match es.last() {
            ConfigEntry::TRID(t) => t,
            _ => trid_of(es.drop_last()),
        }
    }
}

/// A configuration is the fold of an entry sequence when each of its
/// fields is the corresponding aggregate.
pub open spec fn is_fold_of(c: IpConfiguration, es: Seq<ConfigEntry>) -> bool {
    c.ipv4.ip@ == ipv4_addrs_of(es) && c.ipv4.gw == gw4_of(es) && c.ipv4.dns@ == dns4_of(es)
        && c.ipv6.ip@ == ipv6_addrs_of(es) && c.ipv6.gw == gw6_of(es) && c.ipv6.dns@ == dns6_of(es)
        && c.trid == trid_of(es)
}

impl IpConfiguration {
    /// Folds the entry sequence into one configuration in a single
    /// left-to-right pass: addresses and DNS servers accumulate in
    /// order, the per-family gateway and the transaction id are
    /// overwritten by each later occurrence.
    pub fn from_entries(entries: &Vec<ConfigEntry>) -> (c: IpConfiguration)
        ensures
            is_fold_of(c, entries@),
    {
        let mut ip4: Vec<Ipv4AddrWithMask> = Vec::new();
        let mut gw4 = Ipv4Address { a: 0, b: 0, c: 0, d: 0 };
        let mut dns4: Vec<Ipv4Address> = Vec::new();
        let mut ip6: Vec<Ipv6AddrWithMask> = Vec::new();
        let mut gw6 = Ipv6Address { s0: 0, s1: 0, s2: 0, s3: 0, s4: 0, s5: 0, s6: 0, s7: 0 };
        let mut dns6: Vec<Ipv6Address> = Vec::new();
        let mut trid: u64 = 0;
        let n = entries.len();
        let mut i: usize = 0;
        while i < n
            invariant
                0 <= i <= n,
                n == entries@.len(),
                ip4@ == ipv4_addrs_of(entries@.take(i as int)),
                gw4 == gw4_of(entries@.take(i as int)),
                dns4@ == dns4_of(entries@.take(i as int)),
                ip6@ == ipv6_addrs_of(entries@.take(i as int)),
                gw6 == gw6_of(entries@.take(i as int)),
                dns6@ == dns6_of(entries@.take(i as int)),
                trid == trid_of(entries@.take(i as int)),
            decreases n - i,
        {
            proof {
                crate::num::lemma_take_succ(entries@, i as int);
            }
            match entries[i] {
                ConfigEntry::Ip(IpAddrWithMask { addr: IpAddress::V4(a), mask }) => {
                    ip4.push(Ipv4AddrWithMask { addr: a, mask });
                },
                ConfigEntry::Ip(IpAddrWithMask { addr: IpAddress::V6(a), mask }) => {
                    ip6.push(Ipv6AddrWithMask { addr: a, mask });
                },
                ConfigEntry::Gw(IpAddress::V4(a)) => {
                    gw4 = a;
                },
                ConfigEntry::Gw(IpAddress::V6(a)) => {
                    gw6 = a;
                },
                ConfigEntry::Dns(IpAddress::V4(a)) => {
                    dns4.push(a);
                },
                ConfigEntry::Dns(IpAddress::V6(a)) => {
                    dns6.push(a);
                },
                ConfigEntry::TRID(t) => {
                    trid = t;
                },
                ConfigEntry::NoValue => {},
            }
            i = i + 1;
        }
        proof {
            assert(entries@.take(n as int) =~= entries@);
        }
        IpConfiguration {
            ipv4: Ipv4Configuration { ip: ip4, gw: gw4, dns: dns4 },
            ipv6: Ipv6Configuration { ip: ip6, gw: gw6, dns: dns6 },
            trid,
        }
    }
}

/// Last wins for the IPv4 gateway: when position `j` holds an IPv4
/// gateway record and no later position does, the aggregate gateway
/// is the one at `j` — in particular, of two gateway records for the
/// family, the second decides.
pub proof fn lemma_gateway4_last_wins(es: Seq<ConfigEntry>, j: int)
    requires
        0 <= j < es.len(),
        es[j] matches ConfigEntry::Gw(IpAddress::V4(_)),
        forall|k: int|
            j < k < es.len() ==> !(#[trigger] es[k] matches ConfigEntry::Gw(IpAddress::V4(_))),
    ensures
        gw4_of(es) == es[j]->Gw_0->V4_0,
    decreases es.len(),
{
    if j == es.len() - 1 {
    } else {
        lemma_gateway4_last_wins(es.drop_last(), j);
    }
}

/// Last wins for the IPv6 gateway.
pub proof fn lemma_gateway6_last_wins(es: Seq<ConfigEntry>, j: int)
    requires
        0 <= j < es.len(),
        es[j] matches ConfigEntry::Gw(IpAddress::V6(_)),
        forall|k: int|
            j < k < es.len() ==> !(#[trigger] es[k] matches ConfigEntry::Gw(IpAddress::V6(_))),
    ensures
        gw6_of(es) == es[j]->Gw_0->V6_0,
    decreases es.len(),
{
    if j == es.len() - 1 {
    } else {
        lemma_gateway6_last_wins(es.drop_last(), j);
    }
}

/// Last wins for the transaction id during full aggregation — in
/// contrast with the isolated transaction-id scan, which takes the
/// first occurrence.
pub proof fn lemma_trid_last_wins(es: Seq<ConfigEntry>, j: int)
    requires
        0 <= j < es.len(),
        es[j] matches ConfigEntry::TRID(_),
        forall|k: int| j < k < es.len() ==> !(#[trigger] es[k] matches ConfigEntry::TRID(_)),
    ensures
        trid_of(es) == es[j]->TRID_0,
    decreases es.len(),
{
    if j == es.len() - 1 {
    } else {
        lemma_trid_last_wins(es.drop_last(), j);
    }
}

} // verus!

//! Argument lists of the interface-configuration commands run after
//! a configuration is obtained: flush the interface's addresses,
//! bring it up, add each resolved address, and add the default route.
//! The caller hands each list to the external `ip` tool.

use vstd::prelude::*;
use vstd::slice::slice_to_vec;
use crate::addr::{render_ipv4, spec_ipv4_str, Ipv4Address};
use crate::bytes::{views_of, SLASH};
use crate::ip_configuration::Ipv4AddrWithMask;
use crate::num::{dec_str, render_dec_u64};

verus! {

/// The word `addr`.
pub open spec fn w_addr() -> Seq<u8> {
    seq![97u8, 100u8, 100u8, 114u8]
}

/// The word `flush`.
pub open spec fn w_flush() -> Seq<u8> {
    seq![102u8, 108u8, 117u8, 115u8, 104u8]
}

/// The word `dev`.
pub open spec fn w_dev() -> Seq<u8> {
    seq![100u8, 101u8, 118u8]
}

/// The word `link`.
pub open spec fn w_link() -> Seq<u8> {
    seq![108u8, 105u8, 110u8, 107u8]
}

/// The word `set`.
pub open spec fn w_set() -> Seq<u8> {
    seq![115u8, 101u8, 116u8]
}

/// The word `up`.
pub open spec fn w_up() -> Seq<u8> {
    seq![117u8, 112u8]
}

/// The word `add`.
pub open spec fn w_add() -> Seq<u8> {
    seq![97u8, 100u8, 100u8]
}

/// The word `route`.
pub open spec fn w_route() -> Seq<u8> {
    seq![114u8, 111u8, 117u8, 116u8, 101u8]
}

/// The word `default`.
pub open spec fn w_default() -> Seq<u8> {
    seq![100u8, 101u8, 102u8, 97u8, 117u8, 108u8, 116u8]
}

/// The word `via`.
pub open spec fn w_via() -> Seq<u8> {
    seq![118u8, 105u8, 97u8]
}

/// The word `src`.
pub open spec fn w_src() -> Seq<u8> {
    seq![115u8, 114u8, 99u8]
}

fn addr_bytes() -> (r: Vec<u8>)
    ensures
        r@ == w_addr(),
{
    let mut v: Vec<u8> = Vec::new();
    v.push(97);
    v.push(100);
    v.push(100);
    v.push(114);
    proof {
        assert(v@ =~= w_addr());
    }
    v
}

fn flush_bytes() -> (r: Vec<u8>)
    ensures
        r@ == w_flush(),
{
    let mut v: Vec<u8> = Vec::new();
    v.push(102);
    v.push(108);
    v.push(117);
    v.push(115);
    v.push(104);
    proof {
        assert(v@ =~= w_flush());
    }
    v
}

fn dev_bytes() -> (r: Vec<u8>)
    ensures
        r@ == w_dev(),
{
    let mut v: Vec<u8> = Vec::new();
    v.push(100);
    v.push(101);
    v.push(118);
    proof {
        assert(v@ =~= w_dev());
    }
    v
}

fn link_bytes() -> (r: Vec<u8>)
    ensures
        r@ == w_link(),
{
    let mut v: Vec<u8> = Vec::new();
    v.push(108);
    v.push(105);
    v.push(110);
    v.push(107);
    proof {
        assert(v@ =~= w_link());
    }
    v
}

fn set_bytes() -> (r: Vec<u8>)
    ensures
        r@ == w_set(),
{
    let mut v: Vec<u8> = Vec::new();
    v.push(115);
    v.push(101);
    v.push(116);
    proof {
        assert(v@ =~= w_set());
    }
    v
}

fn up_bytes() -> (r: Vec<u8>)
    ensures
        r@ == w_up(),
{
    let mut v: Vec<u8> = Vec::new();
    v.push(117);
    v.push(112);
    proof {
        assert(v@ =~= w_up());
    }
    v
}

fn add_bytes() -> (r: Vec<u8>)
    ensures
        r@ == w_add(),
{
    let mut v: Vec<u8> = Vec::new();
    v.push(97);
    v.push(100);
    v.push(100);
    proof {
        assert(v@ =~= w_add());
    }
    v
}

fn route_bytes() -> (r: Vec<u8>)
    ensures
        r@ == w_route(),
{
    let mut v: Vec<u8> = Vec::new();
    v.push(114);
    v.push(111);
    v.push(117);
    v.push(116);
    v.push(101);
    proof {
        assert(v@ =~= w_route());
    }
    v
}

fn default_bytes() -> (r: Vec<u8>)
    ensures
        r@ == w_default(),
{
    let mut v: Vec<u8> = Vec::new();
    v.push(100);
    v.push(101);
    v.push(102);
    v.push(97);
    v.push(117);
    v.push(108);
    v.push(116);
    proof {
        assert(v@ =~= w_default());
    }
    v
}

fn via_bytes() -> (r: Vec<u8>)
    ensures
        r@ == w_via(),
{
    let mut v: Vec<u8> = Vec::new();
    v.push(118);
    v.push(105);
    v.push(97);
    proof {
        assert(v@ =~= w_via());
    }
    v
}

fn src_bytes() -> (r: Vec<u8>)
    ensures
        r@ == w_src(),
{
    let mut v: Vec<u8> = Vec::new();
    v.push(115);
    v.push(114);
    v.push(99);
    proof {
        assert(v@ =~= w_src());
    }
    v
}

/// The `<addr>/<mask>` text of a resolved address.
pub open spec fn spec_ipv4_with_mask_str(x: Ipv4AddrWithMask) -> Seq<u8> {
    spec_ipv4_str(x.addr) + seq![SLASH] + dec_str(x.mask as nat)
}

/// Renders a resolved address as `<addr>/<mask>`.
pub fn render_ipv4_with_mask(x: &Ipv4AddrWithMask) -> (r: Vec<u8>)
    ensures
        r@ == spec_ipv4_with_mask_str(*x),
{
    let mut v = render_ipv4(&x.addr);
    v.push(SLASH);
    let mut m = render_dec_u64(x.mask as u64);
    v.append(&mut m);
    v
}

/// `addr flush dev <interface>`: drop the interface's addresses.
pub fn ip_flush_args(dev: &[u8]) -> (r: Vec<Vec<u8>>)
    ensures
        views_of(r@) == seq![w_addr(), w_flush(), w_dev(), dev@],
{
    let mut args: Vec<Vec<u8>> = Vec::new();
    args.push(addr_bytes());
    args.push(flush_bytes());
    args.push(dev_bytes());
    args.push(slice_to_vec(dev));
    proof {
        assert(views_of(args@) =~= seq![w_addr(), w_flush(), w_dev(), dev@]);
    }
    args
}

/// `link set <interface> up`: bring the interface up.
pub fn ip_link_up_args(dev: &[u8]) -> (r: Vec<Vec<u8>>)
    ensures
        views_of(r@) == seq![w_link(), w_set(), dev@, w_up()],
{
    let mut args: Vec<Vec<u8>> = Vec::new();
    args.push(link_bytes());
    args.push(set_bytes());
    args.push(slice_to_vec(dev));
    args.push(up_bytes());
    proof {
        assert(views_of(args@) =~= seq![w_link(), w_set(), dev@, w_up()]);
    }
    args
}

/// `addr add <addr>/<mask> dev <interface>`: add one resolved
/// address.
pub fn ip_addr_add_args(x: &Ipv4AddrWithMask, dev: &[u8]) -> (r: Vec<Vec<u8>>)
    ensures
        views_of(r@) == seq![w_addr(), w_add(), spec_ipv4_with_mask_str(*x), w_dev(), dev@],
{
    let mut args: Vec<Vec<u8>> = Vec::new();
    args.push(addr_bytes());
    args.push(add_bytes());
    args.push(render_ipv4_with_mask(x));
    args.push(dev_bytes());
    args.push(slice_to_vec(dev));
    proof {
        assert(views_of(args@) =~= seq![
            w_addr(),
            w_add(),
            spec_ipv4_with_mask_str(*x),
            w_dev(),
            dev@,
        ]);
    }
    args
}

/// `route add default via <gateway> dev <interface> src <first
/// address>`: install the default route through the resolved
/// gateway.
pub fn ip_route_add_args(gw: &Ipv4Address, dev: &[u8], source: &Ipv4Address) -> (r: Vec<
    Vec<u8>,
>)
    ensures
        views_of(r@) == seq![
            w_route(),
            w_add(),
            w_default(),
            w_via(),
            spec_ipv4_str(*gw),
            w_dev(),
            dev@,
            w_src(),
            spec_ipv4_str(*source),
        ],
{
    let mut args: Vec<Vec<u8>> = Vec::new();
    args.push(route_bytes());
    args.push(add_bytes());
    args.push(default_bytes());
    args.push(via_bytes());
    args.push(render_ipv4(gw));
    args.push(dev_bytes());
    args.push(slice_to_vec(dev));
    args.push(src_bytes());
    args.push(render_ipv4(source));
    proof {
        assert(views_of(args@) =~= seq![
            w_route(),
            w_add(),
            w_default(),
            w_via(),
            spec_ipv4_str(*gw),
            w_dev(),
            dev@,
            w_src(),
            spec_ipv4_str(*source),
        ]);
    }
    args
}

} // verus!

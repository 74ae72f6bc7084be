//! IP addresses as plain values, with their standard textual forms:
//! the dotted-quad form for IPv4 and the colon-separated hex-group
//! form (with one optional `::` gap) for IPv6. Each family has a
//! reader for the textual form, a canonical renderer, and a proof
//! that rendering an address reads back to the same address.

use vstd::prelude::*;
use vstd::slice::slice_subrange;
use crate::bytes::{
    split_bytes, split_bytes_exec, views_of, lemma_split_bytes_head, lemma_split_bytes_whole,
    COLON, DOT,
};
use crate::num::{
    dec_str, dec_val, hex_str, hex_val, is_hex_digit, is_hex_group, is_octet_text, lemma_dec_str,
    lemma_hex_str, lemma_take_succ, parse_hex_group, parse_octet,
};

verus! {

/// An IPv4 address: four octets, most significant first.
#[derive(Clone, Copy, PartialEq, Eq, Structural, Debug)]
pub struct Ipv4Address {
    pub a: u8,
    pub b: u8,
    pub c: u8,
    pub d: u8,
}

/// An IPv6 address: eight sixteen-bit groups, most significant first.
#[derive(Clone, Copy, PartialEq, Eq, Structural, Debug)]
pub struct Ipv6Address {
    pub s0: u16,
    pub s1: u16,
    pub s2: u16,
    pub s3: u16,
    pub s4: u16,
    pub s5: u16,
    pub s6: u16,
    pub s7: u16,
}

/// An address of either family. The family is never ambiguous: the
/// two textual grammars are disjoint.
#[derive(Clone, Copy, PartialEq, Eq, Structural, Debug)]
pub enum IpAddress {
    V4(Ipv4Address),
    V6(Ipv6Address),
}

/// The all-zero IPv4 address, the gateway default before any gateway
/// record is seen.
pub open spec fn ipv4_zero() -> Ipv4Address {
    Ipv4Address { a: 0, b: 0, c: 0, d: 0 }
}

/// The all-zero IPv6 address.
pub open spec fn ipv6_zero() -> Ipv6Address {
    Ipv6Address { s0: 0, s1: 0, s2: 0, s3: 0, s4: 0, s5: 0, s6: 0, s7: 0 }
}

// ------------------------------------------------------------------
// IPv4
// ------------------------------------------------------------------

/// What reading `s` as dotted-quad IPv4 text yields: exactly four
/// octet texts separated by dots.
pub open spec fn spec_parse_ipv4(s: Seq<u8>) -> Option<Ipv4Address> {
    let ps = split_bytes(s, DOT);
    if ps.len() == 4 && is_octet_text(ps[0]) && is_octet_text(ps[1]) && is_octet_text(ps[2])
        && is_octet_text(ps[3]) {
        Some(
            Ipv4Address {
                a: dec_val(ps[0]) as u8,
                b: dec_val(ps[1]) as u8,
                c: dec_val(ps[2]) as u8,
                d: dec_val(ps[3]) as u8,
            },
        )
    } else {
        None
    }
}

pub fn parse_ipv4(s: &[u8]) -> (r: Option<Ipv4Address>)
    ensures
        r == spec_parse_ipv4(s@),
{
    let parts = split_bytes_exec(s, DOT);
    if parts.len() != 4 {
        return None;
    }
    let pa = parse_octet(parts[0].as_slice());
    let pb = parse_octet(parts[1].as_slice());
    let pc = parse_octet(parts[2].as_slice());
    let pd = parse_octet(parts[3].as_slice());
    match (pa, pb, pc, pd) {
        (Some(a), Some(b), Some(c), Some(d)) => Some(Ipv4Address { a, b, c, d }),
        _ => None,
    }
}

/// Dotted rendering of a run of octet values, dots between them.
pub open spec fn ipv4_tail(vs: Seq<u8>) -> Seq<u8>
    decreases vs.len(),
{
    if vs.len() == 0 {
        Seq::empty()
    } else if vs.len() == 1 {
        dec_str(vs[0] as nat)
    } else {
        dec_str(vs[0] as nat) + seq![DOT] + ipv4_tail(vs.skip(1))
    }
}

/// Canonical dotted-quad text of `a`.
pub open spec fn spec_ipv4_str(a: Ipv4Address) -> Seq<u8> {
    ipv4_tail(seq![a.a, a.b, a.c, a.d])
}

/// Splitting the dotted rendering recovers the octet texts.
proof fn lemma_split_ipv4_tail(vs: Seq<u8>)
    requires
        vs.len() >= 1,
    ensures
        split_bytes(ipv4_tail(vs), DOT) == vs.map_values(|v: u8| dec_str(v as nat)),
    decreases vs.len(),
{
    lemma_dec_str(vs[0] as nat);
    let h = dec_str(vs[0] as nat);
    if vs.len() == 1 {
        lemma_split_bytes_whole(h, DOT);
        assert(split_bytes(ipv4_tail(vs), DOT) =~= vs.map_values(|v: u8| dec_str(v as nat)));
    } else {
        lemma_split_ipv4_tail(vs.skip(1));
        lemma_split_bytes_head(h, ipv4_tail(vs.skip(1)), DOT);
        assert(vs.skip(1).map_values(|v: u8| dec_str(v as nat)) =~= vs.map_values(
            |v: u8| dec_str(v as nat),
        ).skip(1));
        assert(split_bytes(ipv4_tail(vs), DOT) =~= vs.map_values(|v: u8| dec_str(v as nat)));
    }
}

/// Every byte of the dotted rendering is a digit or a dot.
proof fn lemma_ipv4_tail_chars(vs: Seq<u8>)
    ensures
        forall|j: int|
            0 <= j < ipv4_tail(vs).len() ==> (crate::num::is_digit(ipv4_tail(vs)[j]) || ipv4_tail(
                vs,
            )[j] == DOT),
    decreases vs.len(),
{
    if vs.len() == 0 {
    } else if vs.len() == 1 {
        lemma_dec_str(vs[0] as nat);
    } else {
        lemma_dec_str(vs[0] as nat);
        lemma_ipv4_tail_chars(vs.skip(1));
        let h = dec_str(vs[0] as nat);
        let t = ipv4_tail(vs.skip(1));
        let s = ipv4_tail(vs);
        assert(s == h + seq![DOT] + t);
        assert forall|j: int| 0 <= j < s.len() implies (crate::num::is_digit(s[j]) || s[j]
            == DOT) by {
            if j < h.len() {
                assert(s[j] == h[j]);
            } else if j == h.len() {
                assert(s[j] == DOT);
            } else {
                assert(s[j] == t[j - h.len() - 1]);
            }
        }
    }
}

/// Rendering an IPv4 address and reading the text back yields the
/// same address.
pub proof fn lemma_ipv4_round_trip(a: Ipv4Address)
    ensures
        spec_parse_ipv4(spec_ipv4_str(a)) == Some(a),
{
    let vs = seq![a.a, a.b, a.c, a.d];
    lemma_split_ipv4_tail(vs);
    let ps = vs.map_values(|v: u8| dec_str(v as nat));
    lemma_dec_str(a.a as nat);
    lemma_dec_str(a.b as nat);
    lemma_dec_str(a.c as nat);
    lemma_dec_str(a.d as nat);
    assert(is_octet_text(ps[0]));
    assert(is_octet_text(ps[1]));
    assert(is_octet_text(ps[2]));
    assert(is_octet_text(ps[3]));
}

/// Renders a run of octet values with dots between them.
fn render_octets(vs: &[u8]) -> (r: Vec<u8>)
    ensures
        r@ == ipv4_tail(vs@),
    decreases vs@.len(),
{
    if vs.len() == 0 {
        let v: Vec<u8> = Vec::new();
        proof {
            assert(v@ =~= ipv4_tail(vs@));
        }
        v
    } else if vs.len() == 1 {
        let v = crate::num::render_dec_u64(vs[0] as u64);
        v
    } else {
        let mut v = crate::num::render_dec_u64(vs[0] as u64);
        v.push(DOT);
        let mut rest = render_octets(slice_subrange(vs, 1, vs.len()));
        v.append(&mut rest);
        proof {
            assert(v@ =~= ipv4_tail(vs@));
        }
        v
    }
}

/// Renders `a` as canonical dotted-quad text.
pub fn render_ipv4(a: &Ipv4Address) -> (r: Vec<u8>)
    ensures
        r@ == spec_ipv4_str(*a),
{
    let mut vs: Vec<u8> = Vec::new();
    vs.push(a.a);
    vs.push(a.b);
    vs.push(a.c);
    vs.push(a.d);
    proof {
        assert(vs@ =~= seq![a.a, a.b, a.c, a.d]);
    }
    render_octets(vs.as_slice())
}

// ------------------------------------------------------------------
// IPv6
// ------------------------------------------------------------------

/// Number of empty pieces among the colon-separated pieces.
pub open spec fn count_empty(ps: Seq<Seq<u8>>) -> nat
    decreases ps.len(),
{
    if ps.len() == 0 {
        0
    } else {
        count_empty(ps.drop_last()) + if ps.last().len() == 0 {
            1nat
        } else {
            0nat
        }
    }
}

/// Index of the first empty piece, or -1 when none is empty.
pub open spec fn first_empty_idx(ps: Seq<Seq<u8>>) -> int
    decreases ps.len(),
{
    if ps.len() == 0 {
        -1
    } else {
        let r = first_empty_idx(ps.drop_last());
        if r >= 0 {
            r
        } else if ps.last().len() == 0 {
            ps.len() - 1
        } else {
            -1
        }
    }
}

/// Index of the last empty piece, or -1 when none is empty.
pub open spec fn last_empty_idx(ps: Seq<Seq<u8>>) -> int
    decreases ps.len(),
{
    if ps.len() == 0 {
        -1
    } else if ps.last().len() == 0 {
        ps.len() - 1
    } else {
        last_empty_idx(ps.drop_last())
    }
}

/// All pieces are hex groups.
pub open spec fn all_groups(ps: Seq<Seq<u8>>) -> bool {
    forall|i: int| 0 <= i < ps.len() ==> is_hex_group(ps[i])
}

/// The groups' values.
pub open spec fn group_vals(ps: Seq<Seq<u8>>) -> Seq<u16> {
    ps.map_values(|g: Seq<u8>| hex_val(g) as u16)
}

/// A run of zero groups.
pub open spec fn zeros16(k: nat) -> Seq<u16> {
    Seq::new(k, |i: int| 0u16)
}

/// The two groups an embedded dotted-quad tail stands for: its high
/// and low sixteen bits.
pub open spec fn v4_tail_groups(a: Ipv4Address) -> Seq<u16> {
    seq![(a.a * 256 + a.b) as u16, (a.c * 256 + a.d) as u16]
}

/// The group values of a run of pieces whose last piece may be an
/// embedded dotted-quad (worth two groups), as the standard textual
/// form admits at the very end of an address; every earlier piece
/// must be a hex group.
pub open spec fn tail_vals(ps: Seq<Seq<u8>>) -> Option<Seq<u16>> {
    if ps.len() == 0 {
        Some(Seq::empty())
    } else if all_groups(ps.drop_last()) {
        if is_hex_group(ps.last()) {
            Some(group_vals(ps))
        } else {
            match spec_parse_ipv4(ps.last()) {
                Some(a) => Some(group_vals(ps.drop_last()) + v4_tail_groups(a)),
                None => None,
            }
        }
    } else {
        None
    }
}

/// The eight groups read from explicit left and right piece runs
/// with a zero gap between them, when they are valid and leave room
/// for at least one elided zero group. Only the right run may end in
/// an embedded dotted-quad.
pub open spec fn segs_with_gap(l: Seq<Seq<u8>>, r: Seq<Seq<u8>>) -> Option<Seq<u16>> {
    if all_groups(l) {
        match tail_vals(r) {
            Some(rv) => if l.len() + rv.len() <= 7 {
                Some(group_vals(l) + zeros16((8 - l.len() - rv.len()) as nat) + rv)
            } else {
                None
            },
            None => None,
        }
    } else {
        None
    }
}

/// The eight groups encoded by the colon-separated pieces of an IPv6
/// text: either eight explicit groups, or a single `::` gap written
/// as empty pieces — in the middle, at the front, at the back, or
/// standing alone.
pub open spec fn ipv6_segs(ps: Seq<Seq<u8>>) -> Option<Seq<u16>> {
    let n = ps.len() as int;
    let ce = count_empty(ps) as int;
    let fe = first_empty_idx(ps);
    let le = last_empty_idx(ps);
    if ce == 0 {
        match tail_vals(ps) {
            Some(gs) => if gs.len() == 8 {
                Some(gs)
            } else {
                None
            },
            None => None,
        }
    } else if ce == 1 && 0 < fe && fe < n - 1 {
        segs_with_gap(ps.subrange(0, fe), ps.subrange(fe + 1, n))
    } else if ce == 2 && fe == 0 && le == 1 && n >= 3 {
        segs_with_gap(ps.subrange(0, 0), ps.subrange(2, n))
    } else if ce == 2 && fe == n - 2 && le == n - 1 && n >= 3 {
        segs_with_gap(ps.subrange(0, n - 2), ps.subrange(n, n))
    } else if ce == 3 && n == 3 {
        segs_with_gap(ps.subrange(0, 0), ps.subrange(3, 3))
    } else {
        None
    }
}

/// An address from its eight groups.
pub open spec fn ipv6_of_segs(gs: Seq<u16>) -> Ipv6Address {
    Ipv6Address {
        s0: gs[0],
        s1: gs[1],
        s2: gs[2],
        s3: gs[3],
        s4: gs[4],
        s5: gs[5],
        s6: gs[6],
        s7: gs[7],
    }
}

/// The eight groups of an address.
pub open spec fn segs_of(a: Ipv6Address) -> Seq<u16> {
    seq![a.s0, a.s1, a.s2, a.s3, a.s4, a.s5, a.s6, a.s7]
}

/// What reading `s` as IPv6 text yields.
pub open spec fn spec_parse_ipv6(s: Seq<u8>) -> Option<Ipv6Address> {
    match ipv6_segs(split_bytes(s, COLON)) {
        None => None,
        Some(gs) => Some(ipv6_of_segs(gs)),
    }
}

/// Reads the pieces `lo..hi` as hex groups, appending their values.
fn parse_groups_into(parts: &Vec<Vec<u8>>, lo: usize, hi: usize, segs: &mut Vec<u16>) -> (ok:
    bool)
    requires
        lo <= hi <= parts@.len(),
    ensures
        ok ==> all_groups(views_of(parts@).subrange(lo as int, hi as int)) && final(segs)@ == old(
            segs,
        )@ + group_vals(views_of(parts@).subrange(lo as int, hi as int)),
        !ok ==> !all_groups(views_of(parts@).subrange(lo as int, hi as int)),
{
    let ghost range = views_of(parts@).subrange(lo as int, hi as int);
    let mut k: usize = lo;
    while k < hi
        invariant
            lo <= k <= hi <= parts@.len(),
            range == views_of(parts@).subrange(lo as int, hi as int),
            all_groups(range.take(k - lo)),
            segs@ == old(segs)@ + group_vals(range.take(k - lo)),
        decreases hi - k,
    {
        let ghost pre = segs@;
        match parse_hex_group(parts[k].as_slice()) {
            None => {
                assert(range[k - lo] == parts@[k as int]@);
                assert(!is_hex_group(range[k - lo]));
                return false;
            },
            Some(v) => {
                segs.push(v);
                proof {
                    assert(range[k - lo] == parts@[k as int]@);
                    lemma_take_succ(range, k - lo);
                    assert(group_vals(range.take(k - lo + 1)) =~= group_vals(
                        range.take(k - lo),
                    ).push(hex_val(range[k - lo]) as u16));
                    assert(segs@ =~= old(segs)@ + group_vals(range.take(k - lo + 1)));
                }
            },
        }
        k = k + 1;
    }
    proof {
        assert(range.take(hi - lo) =~= range);
    }
    true
}

/// Reads a piece list without a gap: every piece carries values and
/// they must amount to exactly eight groups.
fn parse_full_groups(parts: &Vec<Vec<u8>>) -> (r: Option<Ipv6Address>)
    ensures
        match tail_vals(views_of(parts@)) {
            Some(gs) => r == (if gs.len() == 8 {
                Some(ipv6_of_segs(gs))
            } else {
                None::<Ipv6Address>
            }),
            None => r is None,
        },
{
    let ghost pv = views_of(parts@);
    let n = parts.len();
    if n == 0 {
        return None;
    }
    let last = parts[n - 1].as_slice();
    proof {
        assert(last@ == pv.last());
        assert(pv.drop_last() =~= pv.subrange(0, n - 1));
    }
    match parse_hex_group(last) {
        Some(h) => {
            if n != 8 {
                return None;
            }
            let mut segs: Vec<u16> = Vec::new();
            if !parse_groups_into(parts, 0, n - 1, &mut segs) {
                return None;
            }
            segs.push(h);
            proof {
                assert(segs@ =~= group_vals(pv.drop_last()).push(hex_val(pv.last()) as u16));
                assert(segs@ =~= group_vals(pv));
                assert(tail_vals(pv) == Some(group_vals(pv)));
            }
            let a = Ipv6Address {
                s0: segs[0],
                s1: segs[1],
                s2: segs[2],
                s3: segs[3],
                s4: segs[4],
                s5: segs[5],
                s6: segs[6],
                s7: segs[7],
            };
            proof {
                assert(a == ipv6_of_segs(segs@));
            }
            Some(a)
        },
        None => match parse_ipv4(last) {
            Some(quad) => {
                if n != 7 {
                    return None;
                }
                let mut segs: Vec<u16> = Vec::new();
                if !parse_groups_into(parts, 0, n - 1, &mut segs) {
                    return None;
                }
                let hi: u16 = (quad.a as u16) * 256 + (quad.b as u16);
                let lo: u16 = (quad.c as u16) * 256 + (quad.d as u16);
                segs.push(hi);
                segs.push(lo);
                proof {
                    assert(segs@ =~= group_vals(pv.drop_last()) + v4_tail_groups(quad));
                    assert(tail_vals(pv) == Some(segs@));
                    assert(segs@.len() == 8);
                }
                let a = Ipv6Address {
                    s0: segs[0],
                    s1: segs[1],
                    s2: segs[2],
                    s3: segs[3],
                    s4: segs[4],
                    s5: segs[5],
                    s6: segs[6],
                    s7: segs[7],
                };
                proof {
                    assert(a == ipv6_of_segs(segs@));
                }
                Some(a)
            },
            None => None,
        },
    }
}

/// Reads a piece list split by a gap into the pieces before and from
/// `r_lo` on, filling the elided groups with zeros.
#[verifier::rlimit(40)]
fn parse_gap_groups(parts: &Vec<Vec<u8>>, l_hi: usize, r_lo: usize) -> (r: Option<Ipv6Address>)
    requires
        l_hi <= parts@.len(),
        r_lo <= parts@.len(),
    ensures
        match segs_with_gap(
            views_of(parts@).subrange(0, l_hi as int),
            views_of(parts@).subrange(r_lo as int, parts@.len() as int),
        ) {
            Some(gs) => r == Some(ipv6_of_segs(gs)),
            None => r is None,
        },
{
    let ghost pv = views_of(parts@);
    let n = parts.len();
    let ghost left = pv.subrange(0, l_hi as int);
    let ghost right = pv.subrange(r_lo as int, n as int);
    let lcnt = l_hi;
    let rcnt = n - r_lo;
    if rcnt > 7 {
        // more explicit pieces than an address can hold
        proof {
            assert(right.len() == rcnt);
            match tail_vals(right) {
                Some(rv) => {
                    assert(rv.len() >= rcnt);
                },
                None => {},
            }
        }
        return None;
    }
    // how many group values the right run carries, and what its
    // final piece contributes
    let mut tail_hex: Option<u16> = None;
    let mut tail_quad: Option<Ipv4Address> = None;
    let rvals: usize;
    if rcnt == 0 {
        rvals = 0;
        proof {
            assert(right =~= Seq::<Seq<u8>>::empty());
            assert(tail_vals(right) == Some(Seq::<u16>::empty()));
        }
    } else {
        let last = parts[n - 1].as_slice();
        proof {
            assert(last@ == right.last());
            assert(right.drop_last() =~= pv.subrange(r_lo as int, n - 1));
        }
        match parse_hex_group(last) {
            Some(h) => {
                tail_hex = Some(h);
                rvals = rcnt;
            },
            None => match parse_ipv4(last) {
                Some(quad) => {
                    tail_quad = Some(quad);
                    rvals = rcnt + 1;
                },
                None => {
                    return None;
                },
            },
        }
    }
    if lcnt > 7 || rvals > 7 || lcnt + rvals > 7 {
        return None;
    }
    let mut segs: Vec<u16> = Vec::new();
    if !parse_groups_into(parts, 0, l_hi, &mut segs) {
        return None;
    }
    let gap = 8 - lcnt - rvals;
    let mut z: usize = 0;
    while z < gap
        invariant
            0 <= z <= gap,
            gap == 8 - lcnt - rvals,
            lcnt + rvals <= 7,
            segs@ == group_vals(left) + zeros16(z as nat),
            left == pv.subrange(0, lcnt as int),
            all_groups(left),
        decreases gap - z,
    {
        segs.push(0u16);
        proof {
            assert(segs@ =~= group_vals(left) + zeros16((z + 1) as nat));
        }
        z = z + 1;
    }
    if rcnt > 0 {
        if !parse_groups_into(parts, r_lo, n - 1, &mut segs) {
            return None;
        }
        match tail_hex {
            Some(h) => {
                segs.push(h);
                proof {
                    assert(tail_vals(right) == Some(
                        group_vals(right.drop_last()).push(hex_val(right.last()) as u16),
                    ));
                    assert(segs@ =~= group_vals(left) + zeros16(gap as nat) + (group_vals(
                        right.drop_last(),
                    ).push(hex_val(right.last()) as u16)));
                }
            },
            None => {
                let quad = tail_quad.unwrap();
                let hi: u16 = (quad.a as u16) * 256 + (quad.b as u16);
                let lo: u16 = (quad.c as u16) * 256 + (quad.d as u16);
                segs.push(hi);
                segs.push(lo);
                proof {
                    assert(tail_vals(right) == Some(
                        group_vals(right.drop_last()) + v4_tail_groups(quad),
                    ));
                    assert(segs@ =~= group_vals(left) + zeros16(gap as nat) + (group_vals(
                        right.drop_last(),
                    ) + v4_tail_groups(quad)));
                }
            },
        }
    } else {
        proof {
            assert(segs@ =~= group_vals(left) + zeros16(gap as nat) + Seq::<u16>::empty());
        }
    }
    proof {
        assert(segs@.len() == 8);
    }
    let a = Ipv6Address {
        s0: segs[0],
        s1: segs[1],
        s2: segs[2],
        s3: segs[3],
        s4: segs[4],
        s5: segs[5],
        s6: segs[6],
        s7: segs[7],
    };
    proof {
        assert(a == ipv6_of_segs(segs@));
    }
    Some(a)
}

pub fn parse_ipv6(s: &[u8]) -> (r: Option<Ipv6Address>)
    ensures
        r == spec_parse_ipv6(s@),
{
    let parts = split_bytes_exec(s, COLON);
    let ghost pv = views_of(parts@);
    let n = parts.len();
    assert(pv.len() == n);
    let mut i: usize = 0;
    let mut cnt: usize = 0;
    let mut fe: usize = n;
    let mut le: usize = n;
    while i < n
        invariant
            0 <= i <= n,
            n == pv.len(),
            pv == views_of(parts@),
            n == parts@.len(),
            cnt == count_empty(pv.take(i as int)),
            cnt <= i,
            cnt == 0 ==> fe == n && le == n && first_empty_idx(pv.take(i as int)) == -1
                && last_empty_idx(pv.take(i as int)) == -1,
            cnt > 0 ==> fe < i && le < i && fe as int == first_empty_idx(pv.take(i as int))
                && le as int == last_empty_idx(pv.take(i as int)),
        decreases n - i,
    {
        proof {
            lemma_take_succ(pv, i as int);
            assert(pv[i as int] == parts@[i as int]@);
        }
        if parts[i].len() == 0 {
            if cnt == 0 {
                fe = i;
            }
            le = i;
            cnt = cnt + 1;
        }
        i = i + 1;
    }
    proof {
        assert(pv.take(n as int) =~= pv);
    }
    if cnt == 0 {
        parse_full_groups(&parts)
    } else {
        let l_hi: usize;
        let r_lo: usize;
        if cnt == 1 && 0 < fe && fe < n - 1 {
            l_hi = fe;
            r_lo = fe + 1;
        } else if cnt == 2 && fe == 0 && le == 1 && n >= 3 {
            l_hi = 0;
            r_lo = 2;
        } else if cnt == 2 && n >= 3 && fe == n - 2 && le == n - 1 {
            l_hi = n - 2;
            r_lo = n;
        } else if cnt == 3 && n == 3 {
            l_hi = 0;
            r_lo = 3;
        } else {
            return None;
        }
        proof {
            assert(ipv6_segs(pv) == segs_with_gap(
                pv.subrange(0, l_hi as int),
                pv.subrange(r_lo as int, n as int),
            ));
        }
        parse_gap_groups(&parts, l_hi, r_lo)
    }
}

/// Colon-separated rendering of a run of group values.
pub open spec fn ipv6_tail(gs: Seq<u16>) -> Seq<u8>
    decreases gs.len(),
{
    if gs.len() == 0 {
        Seq::empty()
    } else if gs.len() == 1 {
        hex_str(gs[0] as nat)
    } else {
        hex_str(gs[0] as nat) + seq![COLON] + ipv6_tail(gs.skip(1))
    }
}

/// Canonical text of `a`: all eight groups written out, minimal
/// lower-case hex digits, no `::` elision.
pub open spec fn spec_ipv6_str(a: Ipv6Address) -> Seq<u8> {
    ipv6_tail(segs_of(a))
}

/// Splitting the rendering recovers the group texts.
proof fn lemma_split_ipv6_tail(gs: Seq<u16>)
    requires
        gs.len() >= 1,
    ensures
        split_bytes(ipv6_tail(gs), COLON) == gs.map_values(|g: u16| hex_str(g as nat)),
    decreases gs.len(),
{
    lemma_hex_str(gs[0] as nat);
    let h = hex_str(gs[0] as nat);
    if gs.len() == 1 {
        lemma_split_bytes_whole(h, COLON);
        assert(split_bytes(ipv6_tail(gs), COLON) =~= gs.map_values(|g: u16| hex_str(g as nat)));
    } else {
        lemma_split_ipv6_tail(gs.skip(1));
        lemma_split_bytes_head(h, ipv6_tail(gs.skip(1)), COLON);
        assert(gs.skip(1).map_values(|g: u16| hex_str(g as nat)) =~= gs.map_values(
            |g: u16| hex_str(g as nat),
        ).skip(1));
        assert(split_bytes(ipv6_tail(gs), COLON) =~= gs.map_values(|g: u16| hex_str(g as nat)));
    }
}

/// Every byte of the rendering is a hex digit or a colon.
proof fn lemma_ipv6_tail_chars(gs: Seq<u16>)
    ensures
        forall|j: int|
            0 <= j < ipv6_tail(gs).len() ==> (is_hex_digit(ipv6_tail(gs)[j]) || ipv6_tail(gs)[j]
                == COLON),
    decreases gs.len(),
{
    if gs.len() == 0 {
    } else if gs.len() == 1 {
        lemma_hex_str(gs[0] as nat);
    } else {
        lemma_hex_str(gs[0] as nat);
        lemma_ipv6_tail_chars(gs.skip(1));
        let h = hex_str(gs[0] as nat);
        let t = ipv6_tail(gs.skip(1));
        let s = ipv6_tail(gs);
        assert(s == h + seq![COLON] + t);
        assert forall|j: int| 0 <= j < s.len() implies (is_hex_digit(s[j]) || s[j] == COLON) by {
            if j < h.len() {
                assert(s[j] == h[j]);
            } else if j == h.len() {
                assert(s[j] == COLON);
            } else {
                assert(s[j] == t[j - h.len() - 1]);
            }
        }
    }
}

/// No piece of an all-nonempty piece list is empty.
proof fn lemma_count_empty_none(ps: Seq<Seq<u8>>)
    requires
        forall|i: int| 0 <= i < ps.len() ==> ps[i].len() > 0,
    ensures
        count_empty(ps) == 0,
    decreases ps.len(),
{
    if ps.len() > 0 {
        lemma_count_empty_none(ps.drop_last());
    }
}

/// Rendering an IPv6 address and reading the text back yields the
/// same address.
pub proof fn lemma_ipv6_round_trip(a: Ipv6Address)
    ensures
        spec_parse_ipv6(spec_ipv6_str(a)) == Some(a),
{
    let gs = segs_of(a);
    lemma_split_ipv6_tail(gs);
    let ps = gs.map_values(|g: u16| hex_str(g as nat));
    assert forall|i: int| 0 <= i < ps.len() implies ps[i].len() > 0 && is_hex_group(ps[i]) by {
        lemma_hex_str(gs[i] as nat);
    }
    lemma_count_empty_none(ps);
    assert(all_groups(ps.drop_last())) by {
        assert(forall|i: int| 0 <= i < ps.drop_last().len() ==> ps.drop_last()[i] == ps[i]);
    }
    assert(is_hex_group(ps.last()));
    assert(tail_vals(ps) == Some(group_vals(ps)));
    assert(group_vals(ps) =~= gs) by {
        assert forall|i: int| 0 <= i < ps.len() implies group_vals(ps)[i] == gs[i] by {
            lemma_hex_str(gs[i] as nat);
        }
    }
    assert(ipv6_of_segs(gs) == a);
}

/// The IPv4 reader rejects IPv6 text: it has no dots at all, so it
/// does not split into four pieces.
pub proof fn lemma_ipv4_rejects_ipv6_str(a: Ipv6Address)
    ensures
        spec_parse_ipv4(spec_ipv6_str(a)) is None,
{
    lemma_ipv6_tail_chars(segs_of(a));
    let s = spec_ipv6_str(a);
    assert forall|j: int| 0 <= j < s.len() implies s[j] != DOT by {
        assert(is_hex_digit(s[j]) || s[j] == COLON);
    }
    lemma_split_bytes_whole(s, DOT);
}

/// Renders a run of group values with colons between them.
fn render_groups(gs: &[u16]) -> (r: Vec<u8>)
    ensures
        r@ == ipv6_tail(gs@),
    decreases gs@.len(),
{
    if gs.len() == 0 {
        let v: Vec<u8> = Vec::new();
        proof {
            assert(v@ =~= ipv6_tail(gs@));
        }
        v
    } else if gs.len() == 1 {
        crate::num::render_hex_u16(gs[0])
    } else {
        let mut v = crate::num::render_hex_u16(gs[0]);
        v.push(COLON);
        let mut rest = render_groups(slice_subrange(gs, 1, gs.len()));
        v.append(&mut rest);
        proof {
            assert(v@ =~= ipv6_tail(gs@));
        }
        v
    }
}

/// Renders `a` as canonical IPv6 text.
pub fn render_ipv6(a: &Ipv6Address) -> (r: Vec<u8>)
    ensures
        r@ == spec_ipv6_str(*a),
{
    let mut gs: Vec<u16> = Vec::new();
    gs.push(a.s0);
    gs.push(a.s1);
    gs.push(a.s2);
    gs.push(a.s3);
    gs.push(a.s4);
    gs.push(a.s5);
    gs.push(a.s6);
    gs.push(a.s7);
    proof {
        assert(gs@ =~= segs_of(*a));
    }
    render_groups(gs.as_slice())
}

// ------------------------------------------------------------------
// Either family
// ------------------------------------------------------------------

/// What reading `s` as an address of either family yields: the IPv4
/// form is tried first, as the combined reader of the standard
/// library does.
pub open spec fn spec_parse_ip(s: Seq<u8>) -> Option<IpAddress> {
    match spec_parse_ipv4(s) {
        Some(a) => Some(IpAddress::V4(a)),
        None => match spec_parse_ipv6(s) {
            Some(a) => Some(IpAddress::V6(a)),
            None => None,
        },
    }
}

pub fn parse_ip(s: &[u8]) -> (r: Option<IpAddress>)
    ensures
        r == spec_parse_ip(s@),
{
    match parse_ipv4(s) {
        Some(a) => Some(IpAddress::V4(a)),
        None => match parse_ipv6(s) {
            Some(a) => Some(IpAddress::V6(a)),
            None => None,
        },
    }
}

/// Canonical text of an address of either family.
pub open spec fn spec_ip_str(addr: IpAddress) -> Seq<u8> {
    match addr {
        IpAddress::V4(a) => spec_ipv4_str(a),
        IpAddress::V6(a) => spec_ipv6_str(a),
    }
}

pub fn render_ip(addr: &IpAddress) -> (r: Vec<u8>)
    ensures
        r@ == spec_ip_str(*addr),
{
    match addr {
        IpAddress::V4(a) => render_ipv4(a),
        IpAddress::V6(a) => render_ipv6(a),
    }
}

/// No byte of an address rendering is a quote or a slash, so a
/// rendered address can stand inside a quoted `<addr>/<mask>` field
/// without disturbing its delimiters.
pub proof fn lemma_ip_str_no_quote_slash(addr: IpAddress)
    ensures
        forall|j: int|
            0 <= j < spec_ip_str(addr).len() ==> spec_ip_str(addr)[j] != crate::bytes::QUOTE
                && spec_ip_str(addr)[j] != crate::bytes::SLASH,
{
    match addr {
        IpAddress::V4(a) => {
            lemma_ipv4_tail_chars(seq![a.a, a.b, a.c, a.d]);
        },
        IpAddress::V6(a) => {
            lemma_ipv6_tail_chars(segs_of(a));
        },
    }
}

/// Rendering an address of either family and reading the text back
/// yields the same address.
pub proof fn lemma_ip_round_trip(addr: IpAddress)
    ensures
        spec_parse_ip(spec_ip_str(addr)) == Some(addr),
{
    match addr {
        IpAddress::V4(a) => {
            lemma_ipv4_round_trip(a);
        },
        IpAddress::V6(a) => {
            lemma_ipv4_rejects_ipv6_str(a);
            lemma_ipv6_round_trip(a);
        },
    }
}

} // verus!

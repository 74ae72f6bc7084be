//! The line-oriented parser over a captured output document. Each
//! line is a record of the shape `<prefix><Name>[ qualifier]: '<contents>'`;
//! lines that do not match the shape, and lines whose contents are
//! malformed, are skipped without aborting the scan. Two passes are
//! offered: full aggregation into one configuration, and the
//! isolated scan for the first transaction id.

use vstd::prelude::*;
use vstd::slice::slice_subrange;
use crate::ConfigError;
use crate::addr::{lemma_ip_round_trip, parse_ip, spec_ip_str, spec_parse_ip, IpAddress};
use crate::bytes::{
    bytes_eq, find_byte, find_byte_exec, first_word, first_word_exec, lemma_find_byte,
    lemma_find_byte_first, split_bytes, split_bytes_exec, trim_bytes, trim_bytes_exec, views_of,
    CARRIAGE_RETURN, COLON, NEWLINE, QUOTE, SLASH, SPACE,
};
use crate::ip_configuration::{is_fold_of, ConfigEntry, IpAddrWithMask, IpConfiguration};
use crate::num::{dec_str, lemma_take_succ, parse_u64, parse_u8_dec, spec_parse_u64, spec_parse_u8};

verus! {

/// The record name `IP`.
pub open spec fn name_ip() -> Seq<u8> {
    seq![73u8, 80u8]
}

/// The record name `Gateway`.
pub open spec fn name_gateway() -> Seq<u8> {
    seq![71u8, 97u8, 116u8, 101u8, 119u8, 97u8, 121u8]
}

/// The record name `DNS`.
pub open spec fn name_dns() -> Seq<u8> {
    seq![68u8, 78u8, 83u8]
}

/// The record name `TRID`.
pub open spec fn name_trid() -> Seq<u8> {
    seq![84u8, 82u8, 73u8, 68u8]
}

fn name_ip_bytes() -> (r: Vec<u8>)
    ensures
        r@ == name_ip(),
{
    let mut v: Vec<u8> = Vec::new();
    v.push(73);
    v.push(80);
    proof {
        assert(v@ =~= name_ip());
    }
    v
}

fn name_gateway_bytes() -> (r: Vec<u8>)
    ensures
        r@ == name_gateway(),
{
    let mut v: Vec<u8> = Vec::new();
    v.push(71);
    v.push(97);
    v.push(116);
    v.push(101);
    v.push(119);
    v.push(97);
    v.push(121);
    proof {
        assert(v@ =~= name_gateway());
    }
    v
}

fn name_dns_bytes() -> (r: Vec<u8>)
    ensures
        r@ == name_dns(),
{
    let mut v: Vec<u8> = Vec::new();
    v.push(68);
    v.push(78);
    v.push(83);
    proof {
        assert(v@ =~= name_dns());
    }
    v
}

fn name_trid_bytes() -> (r: Vec<u8>)
    ensures
        r@ == name_trid(),
{
    let mut v: Vec<u8> = Vec::new();
    v.push(84);
    v.push(82);
    v.push(73);
    v.push(68);
    proof {
        assert(v@ =~= name_trid());
    }
    v
}

/// The two tokens of a matching line: the record name — the first
/// space-separated word of the trimmed text before the first colon —
/// and the contents — the nonempty text between the first pair of
/// quotes at or after that colon. A line without a colon, without a
/// quoted substring after the colon, or with an empty quoted
/// substring matches nothing.
pub open spec fn spec_line_fields(line: Seq<u8>) -> Option<(Seq<u8>, Seq<u8>)> {
    match find_byte(line, COLON) {
        None => None,
        Some(ci) => if 0 <= ci < line.len() {
            let name = first_word(trim_bytes(line.subrange(0, ci)));
            let after = line.subrange(ci, line.len() as int);
            match find_byte(after, QUOTE) {
                None => None,
                Some(q1) => if 0 <= q1 < after.len() {
                    let rest = after.subrange(q1 + 1, after.len() as int);
                    match find_byte(rest, QUOTE) {
                        None => None,
                        Some(q2) => if q2 == 0 {
                            None
                        } else if 0 < q2 <= rest.len() {
                            Some((name, rest.subrange(0, q2)))
                        } else {
                            None
                        },
                    }
                } else {
                    None
                },
            }
        } else {
            None
        },
    }
}

fn line_fields<'a>(line: &'a [u8]) -> (r: Option<(&'a [u8], &'a [u8])>)
    ensures
        match r {
            Some(p) => spec_line_fields(line@) == Some((p.0@, p.1@)),
            None => spec_line_fields(line@) is None,
        },
{
    let ci = match find_byte_exec(line, COLON) {
        None => {
            return None;
        },
        Some(i) => i,
    };
    proof {
        lemma_find_byte(line@, COLON);
    }
    let llen = line.len();
    let prefix = slice_subrange(line, 0, ci);
    let name = first_word_exec(trim_bytes_exec(prefix));
    let after = slice_subrange(line, ci, llen);
    let q1 = match find_byte_exec(after, QUOTE) {
        None => {
            return None;
        },
        Some(i) => i,
    };
    proof {
        lemma_find_byte(after@, QUOTE);
    }
    let alen = after.len();
    let rest = slice_subrange(after, q1 + 1, alen);
    let q2 = match find_byte_exec(rest, QUOTE) {
        None => {
            return None;
        },
        Some(i) => i,
    };
    if q2 == 0 {
        return None;
    }
    proof {
        lemma_find_byte(rest@, QUOTE);
    }
    let contents = slice_subrange(rest, 0, q2);
    Some((name, contents))
}

/// The record a matching line's two tokens denote. `IP` contents are
/// split at the first slash into address and mask (with no slash the
/// mask text is the contents from position one on, and the address
/// text is empty — a malformed line either way, as the source
/// grammar has it); `Gateway` and `DNS` contents are an address;
/// `TRID` contents are an unsigned decimal. A malformed contents
/// text yields `None`; an unrecognized name yields `NoValue`.
pub open spec fn spec_entry_of(name: Seq<u8>, contents: Seq<u8>) -> Option<ConfigEntry> {
    if name == name_ip() {
        if contents.len() == 0 {
            None
        } else {
            let sep = match find_byte(contents, SLASH) {
                None => 0,
                Some(i) => if 0 <= i < contents.len() {
                    i
                } else {
                    0
                },
            };
            match spec_parse_u8(contents.subrange(sep + 1, contents.len() as int)) {
                None => None,
                Some(mask) => match spec_parse_ip(contents.subrange(0, sep)) {
                    None => None,
                    Some(addr) => Some(ConfigEntry::Ip(IpAddrWithMask { addr, mask })),
                },
            }
        }
    } else if name == name_gateway() {
        match spec_parse_ip(contents) {
            None => None,
            Some(addr) => Some(ConfigEntry::Gw(addr)),
        }
    } else if name == name_dns() {
        match spec_parse_ip(contents) {
            None => None,
            Some(addr) => Some(ConfigEntry::Dns(addr)),
        }
    } else if name == name_trid() {
        match spec_parse_u64(contents) {
            None => None,
            Some(t) => Some(ConfigEntry::TRID(t)),
        }
    } else {
        Some(ConfigEntry::NoValue)
    }
}

fn entry_of(name: &[u8], contents: &[u8]) -> (r: Option<ConfigEntry>)
    ensures
        r == spec_entry_of(name@, contents@),
{
    if bytes_eq(name, name_ip_bytes().as_slice()) {
        let clen = contents.len();
        if clen == 0 {
            return None;
        }
        let sep = match find_byte_exec(contents, SLASH) {
            None => 0,
            Some(i) => i,
        };
        proof {
            lemma_find_byte(contents@, SLASH);
        }
        let mask = match parse_u8_dec(slice_subrange(contents, sep + 1, clen)) {
            None => {
                return None;
            },
            Some(m) => m,
        };
        match parse_ip(slice_subrange(contents, 0, sep)) {
            None => None,
            Some(addr) => Some(ConfigEntry::Ip(IpAddrWithMask { addr, mask })),
        }
    } else if bytes_eq(name, name_gateway_bytes().as_slice()) {
        match parse_ip(contents) {
            None => None,
            Some(addr) => Some(ConfigEntry::Gw(addr)),
        }
    } else if bytes_eq(name, name_dns_bytes().as_slice()) {
        match parse_ip(contents) {
            None => None,
            Some(addr) => Some(ConfigEntry::Dns(addr)),
        }
    } else if bytes_eq(name, name_trid_bytes().as_slice()) {
        match parse_u64(contents) {
            None => None,
            Some(t) => Some(ConfigEntry::TRID(t)),
        }
    } else {
        Some(ConfigEntry::NoValue)
    }
}

/// What one line of the document denotes: `None` for a line that
/// matches no record shape or holds malformed contents, `Some` of a
/// record otherwise.
pub open spec fn spec_parse_line(line: Seq<u8>) -> Option<ConfigEntry> {
    match spec_line_fields(line) {
        None => None,
        Some(p) => spec_entry_of(p.0, p.1),
    }
}

/// Reads one line of the document.
pub fn parse_config_line(line: &[u8]) -> (r: Option<ConfigEntry>)
    ensures
        r == spec_parse_line(line@),
{
    match line_fields(line) {
        None => None,
        Some((name, contents)) => entry_of(name, contents),
    }
}

/// A line without its trailing carriage return, as the line reader
/// of the source tool chain strips one.
pub open spec fn strip_cr(l: Seq<u8>) -> Seq<u8> {
    if l.len() > 0 && l.last() == CARRIAGE_RETURN {
        l.drop_last()
    } else {
        l
    }
}

/// The document's lines: split on line feeds, each line without its
/// trailing carriage return.
pub open spec fn doc_lines(d: Seq<u8>) -> Seq<Seq<u8>> {
    split_bytes(d, NEWLINE).map_values(|l: Seq<u8>| strip_cr(l))
}

/// The usable records of a line sequence, in order: each line's
/// record, with unparseable lines and `NoValue` lines dropped.
pub open spec fn entries_of_lines(ls: Seq<Seq<u8>>) -> Seq<ConfigEntry>
    decreases ls.len(),
{
    if ls.len() == 0 {
        Seq::empty()
    } else {
        let rest = entries_of_lines(ls.drop_last());
        match spec_parse_line(ls.last()) {
            Some(e) => if e is NoValue {
                rest
            } else {
                rest.push(e)
            },
            None => rest,
        }
    }
}

/// The usable records of a whole document.
pub open spec fn spec_entries(d: Seq<u8>) -> Seq<ConfigEntry> {
    entries_of_lines(doc_lines(d))
}

/// Reads the whole document into its usable records, in document
/// order.
pub fn parse_entries(doc: &[u8]) -> (es: Vec<ConfigEntry>)
    ensures
        es@ == spec_entries(doc@),
{
    let lines = split_bytes_exec(doc, NEWLINE);
    let ghost dl = doc_lines(doc@);
    proof {
        assert(dl.len() == views_of(lines@).len());
    }
    let n = lines.len();
    let mut es: Vec<ConfigEntry> = Vec::new();
    let mut i: usize = 0;
    while i < n
        invariant
            0 <= i <= n,
            n == lines@.len(),
            dl == doc_lines(doc@),
            views_of(lines@) == split_bytes(doc@, NEWLINE),
            dl.len() == n,
            es@ == entries_of_lines(dl.take(i as int)),
        decreases n - i,
    {
        proof {
            lemma_take_succ(dl, i as int);
            assert(dl[i as int] == strip_cr(lines@[i as int]@));
        }
        let li = &lines[i];
        let llen = li.len();
        let stripped: &[u8] = if llen > 0 && li[llen - 1] == CARRIAGE_RETURN {
            let sl = slice_subrange(li.as_slice(), 0, llen - 1);
            proof {
                assert(sl@ =~= lines@[i as int]@.drop_last());
            }
            sl
        } else {
            li.as_slice()
        };
        proof {
            assert(stripped@ == dl[i as int]);
        }
        match parse_config_line(stripped) {
            Some(e) => {
                if !matches!(e, ConfigEntry::NoValue) {
                    es.push(e);
                }
            },
            None => {},
        }
        i = i + 1;
    }
    proof {
        assert(dl.take(n as int) =~= dl);
    }
    es
}

/// Full aggregation over a document. Succeeds exactly when more than
/// one usable record was found, and then returns their fold; with at
/// most one usable record the document is not trusted to be a real
/// configuration.
pub fn parse_ip_configuration(doc: &[u8]) -> (r: Result<IpConfiguration, ConfigError>)
    ensures
        r is Ok <==> spec_entries(doc@).len() > 1,
        r matches Ok(c) ==> is_fold_of(c, spec_entries(doc@)),
        r matches Err(e) ==> e is ConfigurationNotFound,
{
    let entries = parse_entries(doc);
    if entries.len() <= 1 {
        Err(ConfigError::ConfigurationNotFound)
    } else {
        Ok(IpConfiguration::from_entries(&entries))
    }
}

/// The first transaction id among the records, if any.
pub open spec fn first_trid_of(es: Seq<ConfigEntry>) -> Option<u64>
    decreases es.len(),
{
    if es.len() == 0 {
        None
    } else {
        match first_trid_of(es.drop_last()) {
            Some(t) => Some(t),
            None => match es.last() {
                ConfigEntry::TRID(t) => Some(t),
                _ => None,
            },
        }
    }
}

/// Records split as their lines split.
proof fn lemma_entries_concat(a: Seq<Seq<u8>>, b: Seq<Seq<u8>>)
    ensures
        entries_of_lines(a + b) == entries_of_lines(a) + entries_of_lines(b),
    decreases b.len(),
{
    if b.len() == 0 {
        assert(a + b =~= a);
        assert(entries_of_lines(a) + entries_of_lines(b) =~= entries_of_lines(a));
    } else {
        lemma_entries_concat(a, b.drop_last());
        assert((a + b).drop_last() =~= a + b.drop_last());
        assert((a + b).last() == b.last());
        match spec_parse_line(b.last()) {
            Some(e) => {
                if !(e is NoValue) {
                    assert((entries_of_lines(a) + entries_of_lines(b.drop_last())).push(e)
                        =~= entries_of_lines(a) + entries_of_lines(b.drop_last()).push(e));
                }
            },
            None => {},
        }
    }
}

/// The first transaction id of a concatenation: the left part wins
/// when it has one.
proof fn lemma_first_trid_concat(x: Seq<ConfigEntry>, y: Seq<ConfigEntry>)
    ensures
        first_trid_of(x + y) == (match first_trid_of(x) {
            Some(t) => Some(t),
            None => first_trid_of(y),
        }),
    decreases y.len(),
{
    if y.len() == 0 {
        assert(x + y =~= x);
    } else {
        lemma_first_trid_concat(x, y.drop_last());
        assert((x + y).drop_last() =~= x + y.drop_last());
        assert((x + y).last() == y.last());
    }
}

/// No transaction id among `es`.
proof fn lemma_first_trid_none(es: Seq<ConfigEntry>)
    requires
        forall|k: int| 0 <= k < es.len() ==> !(#[trigger] es[k] matches ConfigEntry::TRID(_)),
    ensures
        first_trid_of(es) is None,
    decreases es.len(),
{
    if es.len() > 0 {
        lemma_first_trid_none(es.drop_last());
    }
}

/// First wins for the isolated transaction-id scan: the id at the
/// earliest transaction-id record is the one returned, later ones
/// are ignored — in contrast with full aggregation, where the last
/// one wins.
pub proof fn lemma_trid_first_wins(es: Seq<ConfigEntry>, i: int)
    requires
        0 <= i < es.len(),
        es[i] matches ConfigEntry::TRID(_),
        forall|k: int| 0 <= k < i ==> !(#[trigger] es[k] matches ConfigEntry::TRID(_)),
    ensures
        first_trid_of(es) == Some(es[i]->TRID_0),
    decreases es.len(),
{
    if i == es.len() - 1 {
        lemma_first_trid_none(es.drop_last());
    } else {
        lemma_trid_first_wins(es.drop_last(), i);
    }
}

/// A line that parses to nothing, or to a record of no interest,
/// leaves the usable records of a document unchanged wherever it is
/// inserted: malformed lines never abort or disturb the scan of the
/// remaining document.
pub proof fn lemma_malformed_line_ignored(ls: Seq<Seq<u8>>, i: int, l: Seq<u8>)
    requires
        0 <= i <= ls.len(),
        spec_parse_line(l) is None || spec_parse_line(l) == Some(ConfigEntry::NoValue),
    ensures
        entries_of_lines(ls.insert(i, l)) == entries_of_lines(ls),
{
    let a = ls.take(i);
    let b = ls.skip(i);
    assert(ls.insert(i, l) =~= a + seq![l] + b);
    assert(ls =~= a + b);
    assert(entries_of_lines(seq![l]) =~= Seq::<ConfigEntry>::empty()) by {
        assert(seq![l].drop_last() =~= Seq::<Seq<u8>>::empty());
        assert(entries_of_lines(Seq::<Seq<u8>>::empty()) =~= Seq::<ConfigEntry>::empty());
        assert(seq![l].last() == l);
    }
    lemma_entries_concat(a, seq![l]);
    lemma_entries_concat(a + seq![l], b);
    lemma_entries_concat(a, b);
    assert(entries_of_lines(a) + entries_of_lines(seq![l]) =~= entries_of_lines(a));
}

/// A well-formed `IP` record line for an address and mask: the name,
/// a colon, and the quoted `<addr>/<mask>` field.
pub open spec fn spec_ip_line(addr: IpAddress, mask: u8) -> Seq<u8> {
    name_ip() + seq![COLON, SPACE, QUOTE] + spec_ip_str(addr) + seq![SLASH] + dec_str(
        mask as nat,
    ) + seq![QUOTE]
}

/// Round trip through the line grammar: a rendered `IP` record line
/// parses back to exactly the address and mask it was rendered from,
/// for every address of either family and every mask.
#[verifier::rlimit(60)]
pub proof fn lemma_ip_line_round_trip(addr: IpAddress, mask: u8)
    ensures
        spec_parse_line(spec_ip_line(addr, mask)) == Some(
            ConfigEntry::Ip(IpAddrWithMask { addr, mask }),
        ),
{
    let astr = spec_ip_str(addr);
    let mstr = dec_str(mask as nat);
    let alen = astr.len() as int;
    let mlen = mstr.len() as int;
    let line = spec_ip_line(addr, mask);
    let head = name_ip() + seq![COLON, SPACE, QUOTE];
    assert(head =~= seq![73u8, 80u8, 58u8, 32u8, 39u8]);
    lemma_ip_round_trip(addr);
    crate::addr::lemma_ip_str_no_quote_slash(addr);
    crate::num::lemma_dec_str(mask as nat);
    assert(line =~= head + astr + seq![SLASH] + mstr + seq![QUOTE]);
    assert(line.len() == 5 + alen + 1 + mlen + 1);
    assert forall|k: int| 0 <= k < alen implies line[5 + k] == astr[k] by {}
    assert(line[5 + alen] == SLASH);
    assert forall|k: int| 0 <= k < mlen implies line[5 + alen + 1 + k] == mstr[k] by {}
    assert(line[5 + alen + 1 + mlen] == QUOTE);
    // the record name: everything before the first colon, at index 2
    lemma_find_byte_first(line, COLON, 2);
    assert(line.subrange(0, 2) =~= name_ip());
    let prefix = line.subrange(0, 2);
    assert(trim_bytes(prefix) == prefix);
    crate::bytes::lemma_find_space_absent(prefix);
    assert(first_word(trim_bytes(prefix)) == prefix);
    // the quoted field: opened three bytes after the colon
    let after = line.subrange(2, line.len() as int);
    assert(after[0] == COLON && after[1] == SPACE && after[2] == QUOTE);
    assert forall|k: int| 0 <= k < alen implies after[3 + k] == astr[k] by {}
    assert(after[3 + alen] == SLASH);
    assert forall|k: int| 0 <= k < mlen implies after[3 + alen + 1 + k] == mstr[k] by {}
    assert(after[3 + alen + 1 + mlen] == QUOTE);
    lemma_find_byte_first(after, QUOTE, 2);
    let rest = after.subrange(3, after.len() as int);
    assert(rest =~= astr + seq![SLASH] + mstr + seq![QUOTE]);
    assert(rest[alen] == SLASH);
    lemma_find_byte_first(rest, QUOTE, alen + 1 + mlen);
    let q2 = alen + 1 + mlen;
    assert(q2 > 0);
    let contents = rest.subrange(0, q2);
    assert(spec_line_fields(line) == Some((name_ip(), contents)));
    // the contents: address, slash, mask
    assert(contents =~= astr + seq![SLASH] + mstr);
    lemma_find_byte_first(contents, SLASH, alen);
    assert(contents.subrange(0, alen) =~= astr);
    assert(contents.subrange(alen + 1, contents.len() as int) =~= mstr);
    assert(crate::num::is_digit(mstr[0]));
    assert(crate::num::strip_plus(mstr) == mstr);
    assert(crate::num::dec_val(mstr) == mask as nat);
    assert(spec_parse_u8(mstr) == Some(mask));
    assert(spec_parse_ip(astr) == Some(addr));
    assert(spec_entry_of(name_ip(), contents) == Some(
        ConfigEntry::Ip(IpAddrWithMask { addr, mask }),
    ));
}

/// The isolated scan for a transaction id: the first line anywhere
/// in the document that reads as a transaction-id record yields its
/// value; a document without one fails.
pub fn parse_trid(doc: &[u8]) -> (r: Result<u64, ConfigError>)
    ensures
        match r {
            Ok(t) => first_trid_of(spec_entries(doc@)) == Some(t),
            Err(e) => first_trid_of(spec_entries(doc@)) is None && e is TransactionIdNotFound,
        },
{
    let lines = split_bytes_exec(doc, NEWLINE);
    let ghost dl = doc_lines(doc@);
    let n = lines.len();
    let mut i: usize = 0;
    while i < n
        invariant
            0 <= i <= n,
            n == lines@.len(),
            dl == doc_lines(doc@),
            views_of(lines@) == split_bytes(doc@, NEWLINE),
            dl.len() == n,
            first_trid_of(entries_of_lines(dl.take(i as int))) is None,
        decreases n - i,
    {
        proof {
            lemma_take_succ(dl, i as int);
            assert(dl[i as int] == strip_cr(lines@[i as int]@));
        }
        let li = &lines[i];
        let llen = li.len();
        let stripped: &[u8] = if llen > 0 && li[llen - 1] == CARRIAGE_RETURN {
            let sl = slice_subrange(li.as_slice(), 0, llen - 1);
            proof {
                assert(sl@ =~= lines@[i as int]@.drop_last());
            }
            sl
        } else {
            li.as_slice()
        };
        proof {
            assert(stripped@ == dl[i as int]);
        }
        match parse_config_line(stripped) {
            Some(ConfigEntry::TRID(t)) => {
                proof {
                    let pre = entries_of_lines(dl.take(i as int));
                    let here = entries_of_lines(dl.take(i + 1));
                    assert(here == pre.push(ConfigEntry::TRID(t)));
                    assert(here.drop_last() =~= pre);
                    assert(first_trid_of(here) == Some(t));
                    assert(dl =~= dl.take(i + 1) + dl.skip(i + 1));
                    lemma_entries_concat(dl.take(i + 1), dl.skip(i + 1));
                    lemma_first_trid_concat(here, entries_of_lines(dl.skip(i + 1)));
                }
                return Ok(t);
            },
            _ => {
                proof {
                    let pre = entries_of_lines(dl.take(i as int));
                    match spec_parse_line(dl[i as int]) {
                        Some(e) => {
                            if !(e is NoValue) {
                                assert(entries_of_lines(dl.take(i + 1)) == pre.push(e));
                                assert(pre.push(e).drop_last() =~= pre);
                                assert(first_trid_of(entries_of_lines(dl.take(i + 1))) is None);
                            }
                        },
                        None => {},
                    }
                }
            },
        }
        i = i + 1;
    }
    proof {
        assert(dl.take(n as int) =~= dl);
    }
    Err(ConfigError::TransactionIdNotFound)
}

} // verus!

//! Byte-level text primitives shared by the record parser and the
//! address parsers: finding a byte, splitting on a separator byte,
//! trimming whitespace, and reading and rendering decimal and
//! hexadecimal numerals.

use vstd::prelude::*;
use vstd::slice::{slice_subrange, slice_to_vec};

verus! {

/// ASCII `'` (quote).
pub const QUOTE: u8 = 39;

/// ASCII `:` (colon).
pub const COLON: u8 = 58;

/// ASCII `/` (slash).
pub const SLASH: u8 = 47;

/// ASCII `.` (dot).
pub const DOT: u8 = 46;

/// ASCII `+` (plus).
pub const PLUS: u8 = 43;

/// ASCII space.
pub const SPACE: u8 = 32;

/// ASCII line feed.
pub const NEWLINE: u8 = 10;

/// ASCII carriage return.
pub const CARRIAGE_RETURN: u8 = 13;

/// ASCII whitespace, the characters that surrounding a record name are
/// ignored: tab through carriage return, and space.
pub open spec fn is_space(b: u8) -> bool {
    b == 32 || (9 <= b && b <= 13)
}

/// Index of the first occurrence of `b` in `s`, if any.
pub open spec fn find_byte(s: Seq<u8>, b: u8) -> Option<int>
    decreases s.len(),
{
    if s.len() == 0 {
        None
    } else if s[0] == b {
        Some(0)
    } else {
        match find_byte(s.subrange(1, s.len() as int), b) {
            None => None,
            Some(i) => Some(i + 1),
        }
    }
}

/// What `find_byte` returns is the first position holding `b`; `None`
/// means `b` does not occur.
pub proof fn lemma_find_byte(s: Seq<u8>, b: u8)
    ensures
        match find_byte(s, b) {
            Some(i) => 0 <= i < s.len() && s[i] == b && (forall|j: int| 0 <= j < i ==> s[j] != b),
            None => forall|j: int| 0 <= j < s.len() ==> s[j] != b,
        },
    decreases s.len(),
{
    if s.len() == 0 {
    } else if s[0] == b {
    } else {
        let t = s.subrange(1, s.len() as int);
        lemma_find_byte(t, b);
        match find_byte(t, b) {
            None => {
                assert forall|j: int| 0 <= j < s.len() implies s[j] != b by {
                    if j >= 1 {
                        assert(s[j] == t[j - 1]);
                    }
                }
            },
            Some(i) => {
                assert(s[i + 1] == t[i]);
                assert forall|j: int| 0 <= j < i + 1 implies s[j] != b by {
                    if j >= 1 {
                        assert(s[j] == t[j - 1]);
                    }
                }
            },
        }
    }
}

/// Converse direction: a position that holds `b` with no earlier
/// occurrence is what `find_byte` returns.
pub proof fn lemma_find_byte_first(s: Seq<u8>, b: u8, i: int)
    requires
        0 <= i < s.len(),
        s[i] == b,
        forall|j: int| 0 <= j < i ==> s[j] != b,
    ensures
        find_byte(s, b) == Some(i),
    decreases s.len(),
{
    if i == 0 {
    } else {
        lemma_find_byte_first(s.subrange(1, s.len() as int), b, i - 1);
    }
}

/// `b` absent from `s` altogether.
pub proof fn lemma_find_byte_absent(s: Seq<u8>, b: u8)
    requires
        forall|j: int| 0 <= j < s.len() ==> s[j] != b,
    ensures
        find_byte(s, b) is None,
{
    lemma_find_byte(s, b);
    if find_byte(s, b) is Some {
        let i = find_byte(s, b)->Some_0;
        assert(s[i] == b);
    }
}

pub fn find_byte_exec(s: &[u8], b: u8) -> (r: Option<usize>)
    ensures
        match r {
            Some(i) => find_byte(s@, b) == Some(i as int),
            None => find_byte(s@, b) is None,
        },
    decreases s@.len(),
{
    if s.len() == 0 {
        None
    } else if s[0] == b {
        Some(0)
    } else {
        let rest = slice_subrange(s, 1, s.len());
        match find_byte_exec(rest, b) {
            None => None,
            Some(i) => {
                proof {
                    lemma_find_byte(rest@, b);
                }
                Some(i + 1)
            },
        }
    }
}

/// The pieces of `s` between occurrences of `sep`, in order; a string
/// without the separator is one piece, and n separators give n + 1
/// pieces (empty pieces included).
pub open spec fn split_bytes(s: Seq<u8>, sep: u8) -> Seq<Seq<u8>>
    decreases s.len(),
{
    match find_byte(s, sep) {
        None => seq![s],
        Some(i) => if 0 <= i < s.len() {
            seq![s.subrange(0, i)] + split_bytes(s.subrange(i + 1, s.len() as int), sep)
        } else {
            // find_byte never returns an out-of-range index (lemma_find_byte)
            seq![s]
        },
    }
}

/// Splitting after a separator-free prefix: the prefix is the first
/// piece, and the rest splits on its own.
pub proof fn lemma_split_bytes_head(u: Seq<u8>, v: Seq<u8>, sep: u8)
    requires
        forall|j: int| 0 <= j < u.len() ==> u[j] != sep,
    ensures
        split_bytes(u + seq![sep] + v, sep) == seq![u] + split_bytes(v, sep),
{
    let s = u + seq![sep] + v;
    assert(s[u.len() as int] == sep);
    assert(forall|j: int| 0 <= j < u.len() ==> s[j] == u[j]);
    lemma_find_byte_first(s, sep, u.len() as int);
    assert(s.subrange(0, u.len() as int) =~= u);
    assert(s.subrange(u.len() as int + 1, s.len() as int) =~= v);
}

/// A separator-free string is a single piece.
pub proof fn lemma_split_bytes_whole(u: Seq<u8>, sep: u8)
    requires
        forall|j: int| 0 <= j < u.len() ==> u[j] != sep,
    ensures
        split_bytes(u, sep) == seq![u],
{
    lemma_find_byte_absent(u, sep);
}

/// The views of a sequence of byte vectors.
pub open spec fn views_of(vs: Seq<Vec<u8>>) -> Seq<Seq<u8>> {
    vs.map_values(|v: Vec<u8>| v@)
}

pub fn split_bytes_exec(s: &[u8], sep: u8) -> (r: Vec<Vec<u8>>)
    ensures
        views_of(r@) == split_bytes(s@, sep),
{
    let mut parts: Vec<Vec<u8>> = Vec::new();
    let mut rem: &[u8] = s;
    loop
        invariant_except_break
            views_of(parts@) + split_bytes(rem@, sep) =~= split_bytes(s@, sep),
        ensures
            views_of(parts@) =~= split_bytes(s@, sep),
        decreases rem@.len(),
    {
        match find_byte_exec(rem, sep) {
            None => {
                let ghost old_parts = parts@;
                parts.push(slice_to_vec(rem));
                proof {
                    assert(split_bytes(rem@, sep) == seq![rem@]);
                    assert(views_of(parts@) =~= views_of(old_parts).push(rem@));
                    assert(views_of(parts@) =~= split_bytes(s@, sep));
                }
                break;
            },
            Some(i) => {
                proof {
                    lemma_find_byte(rem@, sep);
                    assert((i as int) < rem@.len());
                }
                let ghost old_parts = parts@;
                let ghost old_rem = rem@;
                let len = rem.len();
                let head = slice_subrange(rem, 0, i);
                parts.push(slice_to_vec(head));
                rem = slice_subrange(rem, i + 1, len);
                proof {
                    assert(views_of(parts@) =~= views_of(old_parts).push(old_rem.subrange(0, i as int)));
                    assert(views_of(old_parts) + split_bytes(old_rem, sep) =~= views_of(parts@)
                        + split_bytes(rem@, sep));
                }
            },
        }
    }
    parts
}

/// `s` without its leading whitespace.
pub open spec fn trim_start(s: Seq<u8>) -> Seq<u8>
    decreases s.len(),
{
    if s.len() > 0 && is_space(s[0]) {
        trim_start(s.subrange(1, s.len() as int))
    } else {
        s
    }
}

/// `s` without its trailing whitespace.
pub open spec fn trim_end(s: Seq<u8>) -> Seq<u8>
    decreases s.len(),
{
    if s.len() > 0 && is_space(s.last()) {
        trim_end(s.drop_last())
    } else {
        s
    }
}

/// `s` without surrounding whitespace.
pub open spec fn trim_bytes(s: Seq<u8>) -> Seq<u8> {
    trim_end(trim_start(s))
}

fn trim_start_exec(s: &[u8]) -> (r: &[u8])
    ensures
        r@ == trim_start(s@),
    decreases s@.len(),
{
    if s.len() > 0 && (s[0] == 32 || (9 <= s[0] && s[0] <= 13)) {
        trim_start_exec(slice_subrange(s, 1, s.len()))
    } else {
        s
    }
}

fn trim_end_exec(s: &[u8]) -> (r: &[u8])
    ensures
        r@ == trim_end(s@),
    decreases s@.len(),
{
    if s.len() > 0 && (s[s.len() - 1] == 32 || (9 <= s[s.len() - 1] && s[s.len() - 1] <= 13)) {
        let rest = slice_subrange(s, 0, s.len() - 1);
        proof {
            assert(rest@ =~= s@.drop_last());
        }
        trim_end_exec(rest)
    } else {
        s
    }
}

pub fn trim_bytes_exec(s: &[u8]) -> (r: &[u8])
    ensures
        r@ == trim_bytes(s@),
{
    trim_end_exec(trim_start_exec(s))
}

/// Index of the first whitespace byte in `s`, if any.
pub open spec fn find_space(s: Seq<u8>) -> Option<int>
    decreases s.len(),
{
    if s.len() == 0 {
        None
    } else if is_space(s[0]) {
        Some(0)
    } else {
        match find_space(s.subrange(1, s.len() as int)) {
            None => None,
            Some(i) => Some(i + 1),
        }
    }
}

/// What `find_space` returns is the first whitespace position;
/// `None` means `s` holds no whitespace.
pub proof fn lemma_find_space(s: Seq<u8>)
    ensures
        match find_space(s) {
            Some(i) => 0 <= i < s.len() && is_space(s[i]) && (forall|j: int|
                0 <= j < i ==> !is_space(s[j])),
            None => forall|j: int| 0 <= j < s.len() ==> !is_space(s[j]),
        },
    decreases s.len(),
{
    if s.len() == 0 {
    } else if is_space(s[0]) {
    } else {
        let t = s.subrange(1, s.len() as int);
        lemma_find_space(t);
        match find_space(t) {
            None => {
                assert forall|j: int| 0 <= j < s.len() implies !is_space(s[j]) by {
                    if j >= 1 {
                        assert(s[j] == t[j - 1]);
                    }
                }
            },
            Some(i) => {
                assert(s[i + 1] == t[i]);
                assert forall|j: int| 0 <= j < i + 1 implies !is_space(s[j]) by {
                    if j >= 1 {
                        assert(s[j] == t[j - 1]);
                    }
                }
            },
        }
    }
}

/// Whitespace absent from `s` altogether.
pub proof fn lemma_find_space_absent(s: Seq<u8>)
    requires
        forall|j: int| 0 <= j < s.len() ==> !is_space(s[j]),
    ensures
        find_space(s) is None,
{
    lemma_find_space(s);
    if find_space(s) is Some {
        let i = find_space(s)->Some_0;
        assert(is_space(s[i]));
    }
}

fn find_space_exec(s: &[u8]) -> (r: Option<usize>)
    ensures
        match r {
            Some(i) => find_space(s@) == Some(i as int),
            None => find_space(s@) is None,
        },
    decreases s@.len(),
{
    if s.len() == 0 {
        None
    } else if s[0] == 32 || (9 <= s[0] && s[0] <= 13) {
        Some(0)
    } else {
        let rest = slice_subrange(s, 1, s.len());
        match find_space_exec(rest) {
            None => None,
            Some(i) => {
                proof {
                    lemma_find_space(rest@);
                }
                Some(i + 1)
            },
        }
    }
}

/// The first whitespace-delimited word of `s`: everything before the
/// first whitespace byte, or all of `s` when it has none.
pub open spec fn first_word(s: Seq<u8>) -> Seq<u8> {
    match find_space(s) {
        None => s,
        Some(i) => s.subrange(0, i),
    }
}

pub fn first_word_exec(s: &[u8]) -> (r: &[u8])
    ensures
        r@ == first_word(s@),
{
    match find_space_exec(s) {
        None => s,
        Some(i) => {
            proof {
                lemma_find_space(s@);
            }
            slice_subrange(s, 0, i)
        },
    }
}

/// Whether two byte strings hold the same bytes.
pub fn bytes_eq(a: &[u8], b: &[u8]) -> (r: bool)
    ensures
        r == (a@ == b@),
{
    if a.len() != b.len() {
        return false;
    }
    let n = a.len();
    let mut i: usize = 0;
    while i < n
        invariant
            0 <= i <= n,
            n == a@.len(),
            n == b@.len(),
            forall|j: int| 0 <= j < i ==> a@[j] == b@[j],
        decreases n - i,
    {
        if a[i] != b[i] {
            return false;
        }
        i = i + 1;
    }
    proof {
        assert(a@ =~= b@);
    }
    true
}

} // verus!

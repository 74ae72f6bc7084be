//! Decimal and hexadecimal numerals as byte strings: their values,
//! their canonical renderings, and executable readers matching the
//! numeric grammars the record parser depends on.

use vstd::prelude::*;
use vstd::arithmetic::div_mod::lemma_fundamental_div_mod;
use vstd::slice::slice_subrange;
use crate::bytes::PLUS;

verus! {

/// ASCII decimal digit.
pub open spec fn is_digit(b: u8) -> bool {
    48 <= b && b <= 57
}

pub open spec fn digit_val(b: u8) -> nat {
    (b - 48) as nat
}

pub open spec fn all_digits(s: Seq<u8>) -> bool {
    forall|i: int| 0 <= i < s.len() ==> is_digit(s[i])
}

/// Value of a digit string read in base ten.
pub open spec fn dec_val(s: Seq<u8>) -> nat
    decreases s.len(),
{
    if s.len() == 0 {
        0
    } else {
        dec_val(s.drop_last()) * 10 + digit_val(s.last())
    }
}

/// Canonical decimal rendering of `n`: minimal digits, no sign.
pub open spec fn dec_str(n: nat) -> Seq<u8>
    decreases n,
{
    if n < 10 {
        seq![(48 + n) as u8]
    } else {
        dec_str(n / 10).push((48 + n % 10) as u8)
    }
}

pub proof fn lemma_take_succ<A>(s: Seq<A>, i: int)
    requires
        0 <= i < s.len(),
    ensures
        s.take(i + 1).drop_last() == s.take(i),
        s.take(i + 1).last() == s[i],
{
    assert(s.take(i + 1).drop_last() =~= s.take(i));
}

/// Reading one more digit multiplies the value by ten and adds it.
pub proof fn lemma_dec_val_step(s: Seq<u8>, i: int)
    requires
        0 <= i < s.len(),
    ensures
        dec_val(s.take(i + 1)) == dec_val(s.take(i)) * 10 + digit_val(s[i]),
{
    lemma_take_succ(s, i);
}

/// A longer digit prefix never has a smaller value.
pub proof fn lemma_dec_val_mono(s: Seq<u8>, i: int, j: int)
    requires
        0 <= i <= j <= s.len(),
    ensures
        dec_val(s.take(i)) <= dec_val(s.take(j)),
    decreases j - i,
{
    if i < j {
        lemma_dec_val_mono(s, i, j - 1);
        lemma_dec_val_step(s, j - 1);
    }
}

/// The canonical rendering is made of digits, is nonempty, has no
/// leading zero (except for zero itself), and reads back to `n`.
pub proof fn lemma_dec_str(n: nat)
    ensures
        all_digits(dec_str(n)),
        dec_str(n).len() >= 1,
        dec_val(dec_str(n)) == n,
        n > 0 ==> dec_str(n)[0] != 48,
        n == 0 ==> dec_str(n) == seq![48u8],
        n < 10 ==> dec_str(n).len() == 1,
        n < 100 ==> dec_str(n).len() <= 2,
        n < 1000 ==> dec_str(n).len() <= 3,
    decreases n,
{
    if n < 10 {
        assert(dec_str(n) =~= seq![(48 + n) as u8]);
        assert(seq![(48 + n) as u8].drop_last() =~= Seq::<u8>::empty());
        assert(dec_val(Seq::<u8>::empty()) == 0);
        assert(dec_val(seq![(48 + n) as u8]) == digit_val((48 + n) as u8));
    } else {
        lemma_dec_str(n / 10);
        lemma_fundamental_div_mod(n as int, 10);
        let p = dec_str(n / 10);
        let d = (48 + n % 10) as u8;
        assert(p.push(d).drop_last() =~= p);
        assert(dec_val(p.push(d)) == dec_val(p) * 10 + digit_val(d));
        assert(dec_val(p.push(d)) == (n / 10) * 10 + n % 10);
        assert(p.push(d)[0] == p[0]);
    }
}

/// Strings accepted by the unsigned integer reader: an optional plus
/// sign and then the digits.
pub open spec fn strip_plus(s: Seq<u8>) -> Seq<u8> {
    if s.len() > 0 && s[0] == PLUS {
        s.subrange(1, s.len() as int)
    } else {
        s
    }
}

/// What reading `s` as an unsigned 64-bit decimal integer yields:
/// an optional leading plus, at least one digit, and a value that
/// fits; anything else is rejected.
pub open spec fn spec_parse_u64(s: Seq<u8>) -> Option<u64> {
    let t = strip_plus(s);
    if t.len() > 0 && all_digits(t) && dec_val(t) <= u64::MAX {
        Some(dec_val(t) as u64)
    } else {
        None
    }
}

/// Same grammar with the 8-bit bound, as a network mask is read.
pub open spec fn spec_parse_u8(s: Seq<u8>) -> Option<u8> {
    let t = strip_plus(s);
    if t.len() > 0 && all_digits(t) && dec_val(t) <= 255 {
        Some(dec_val(t) as u8)
    } else {
        None
    }
}

pub fn parse_u64(s: &[u8]) -> (r: Option<u64>)
    ensures
        r == spec_parse_u64(s@),
{
    let t: &[u8] = if s.len() > 0 && s[0] == PLUS {
        slice_subrange(s, 1, s.len())
    } else {
        s
    };
    proof {
        assert(t@ == strip_plus(s@));
    }
    let n = t.len();
    if n == 0 {
        return None;
    }
    let mut i: usize = 0;
    let mut val: u64 = 0;
    while i < n
        invariant
            0 <= i <= n,
            n == t@.len(),
            t@ == strip_plus(s@),
            n > 0,
            all_digits(t@.take(i as int)),
            val == dec_val(t@.take(i as int)),
        decreases n - i,
    {
        let b = t[i];
        if !(48 <= b && b <= 57) {
            assert(!all_digits(t@));
            return None;
        }
        let d = (b - 48) as u64;
        let wide: u128 = (val as u128) * 10 + (d as u128);
        if wide > u64::MAX as u128 {
            proof {
                lemma_dec_val_step(t@, i as int);
                lemma_dec_val_mono(t@, i + 1, n as int);
                assert(t@.take(n as int) =~= t@);
                assert(dec_val(t@) > u64::MAX);
            }
            return None;
        }
        val = val * 10 + (b - 48) as u64;
        proof {
            lemma_dec_val_step(t@, i as int);
        }
        i = i + 1;
    }
    proof {
        assert(t@.take(n as int) =~= t@);
    }
    Some(val)
}

pub fn parse_u8_dec(s: &[u8]) -> (r: Option<u8>)
    ensures
        r == spec_parse_u8(s@),
{
    match parse_u64(s) {
        Some(v) => if v <= 255 {
            Some(v as u8)
        } else {
            None
        },
        None => None,
    }
}

/// Text of one address octet: one to three digits, no leading zero
/// unless the octet is zero itself, value at most 255. This is the
/// strict dotted-quad grammar, which admits exactly the canonical
/// rendering of each value.
pub open spec fn is_octet_text(s: Seq<u8>) -> bool {
    1 <= s.len() <= 3 && all_digits(s) && dec_val(s) <= 255 && (s.len() > 1 ==> s[0] != 48)
}

pub open spec fn spec_parse_octet(s: Seq<u8>) -> Option<u8> {
    if is_octet_text(s) {
        Some(dec_val(s) as u8)
    } else {
        None
    }
}

pub fn parse_octet(s: &[u8]) -> (r: Option<u8>)
    ensures
        r == spec_parse_octet(s@),
{
    let n = s.len();
    if n < 1 || n > 3 {
        return None;
    }
    if n > 1 && s[0] == 48 {
        return None;
    }
    let mut i: usize = 0;
    let mut val: u32 = 0;
    while i < n
        invariant
            0 <= i <= n,
            n == s@.len(),
            n <= 3,
            all_digits(s@.take(i as int)),
            val == dec_val(s@.take(i as int)),
            val <= 999,
        decreases n - i,
    {
        let b = s[i];
        if !(48 <= b && b <= 57) {
            assert(!all_digits(s@));
            return None;
        }
        proof {
            lemma_dec_val_step(s@, i as int);
            lemma_dec_val_bound_3(s@, i as int);
        }
        val = val * 10 + (b - 48) as u32;
        i = i + 1;
    }
    proof {
        assert(s@.take(n as int) =~= s@);
    }
    if val <= 255 {
        Some(val as u8)
    } else {
        None
    }
}

/// A prefix of up to three digits has value under a thousand.
proof fn lemma_dec_val_bound_3(s: Seq<u8>, i: int)
    requires
        0 <= i <= s.len(),
        i <= 3,
        all_digits(s.take(i)),
    ensures
        i <= 0 ==> dec_val(s.take(i)) == 0,
        i <= 1 ==> dec_val(s.take(i)) <= 9,
        i <= 2 ==> dec_val(s.take(i)) <= 99,
        dec_val(s.take(i)) <= 999,
    decreases i,
{
    if i > 0 {
        assert(all_digits(s.take(i - 1))) by {
            assert(forall|j: int| 0 <= j < i - 1 ==> s.take(i - 1)[j] == s.take(i)[j]);
        }
        lemma_dec_val_bound_3(s, i - 1);
        lemma_dec_val_step(s, i - 1);
        assert(is_digit(s.take(i)[i - 1]));
        assert(digit_val(s[i - 1]) <= 9);
    } else {
        assert(s.take(0) =~= Seq::<u8>::empty());
    }
}

/// ASCII hexadecimal digit, either case.
pub open spec fn is_hex_digit(b: u8) -> bool {
    is_digit(b) || (97 <= b && b <= 102) || (65 <= b && b <= 70)
}

pub open spec fn hex_digit_val(b: u8) -> nat {
    if is_digit(b) {
        (b - 48) as nat
    } else if 97 <= b && b <= 102 {
        (b - 87) as nat
    } else {
        (b - 55) as nat
    }
}

pub open spec fn all_hex_digits(s: Seq<u8>) -> bool {
    forall|i: int| 0 <= i < s.len() ==> is_hex_digit(s[i])
}

/// Value of a hex digit string read in base sixteen.
pub open spec fn hex_val(s: Seq<u8>) -> nat
    decreases s.len(),
{
    if s.len() == 0 {
        0
    } else {
        hex_val(s.drop_last()) * 16 + hex_digit_val(s.last())
    }
}

/// Text of one address group: one to four hex digits.
pub open spec fn is_hex_group(s: Seq<u8>) -> bool {
    1 <= s.len() <= 4 && all_hex_digits(s)
}

pub proof fn lemma_hex_val_step(s: Seq<u8>, i: int)
    requires
        0 <= i < s.len(),
    ensures
        hex_val(s.take(i + 1)) == hex_val(s.take(i)) * 16 + hex_digit_val(s[i]),
{
    lemma_take_succ(s, i);
}

/// A prefix of up to four hex digits has value under 65536.
proof fn lemma_hex_val_bound_4(s: Seq<u8>, i: int)
    requires
        0 <= i <= s.len(),
        i <= 4,
        all_hex_digits(s.take(i)),
    ensures
        i <= 0 ==> hex_val(s.take(i)) == 0,
        i <= 1 ==> hex_val(s.take(i)) <= 15,
        i <= 2 ==> hex_val(s.take(i)) <= 255,
        i <= 3 ==> hex_val(s.take(i)) <= 4095,
        hex_val(s.take(i)) <= 65535,
    decreases i,
{
    if i > 0 {
        assert(all_hex_digits(s.take(i - 1))) by {
            assert(forall|j: int| 0 <= j < i - 1 ==> s.take(i - 1)[j] == s.take(i)[j]);
        }
        lemma_hex_val_bound_4(s, i - 1);
        lemma_hex_val_step(s, i - 1);
        assert(is_hex_digit(s.take(i)[i - 1]));
        assert(hex_digit_val(s[i - 1]) <= 15);
    } else {
        assert(s.take(0) =~= Seq::<u8>::empty());
    }
}

/// A whole group's value fits in sixteen bits.
pub proof fn lemma_hex_group_bound(s: Seq<u8>)
    requires
        is_hex_group(s),
    ensures
        hex_val(s) <= 65535,
{
    assert(s.take(s.len() as int) =~= s);
    lemma_hex_val_bound_4(s, s.len() as int);
}

pub fn parse_hex_group(s: &[u8]) -> (r: Option<u16>)
    ensures
        r == (if is_hex_group(s@) {
            Some(hex_val(s@) as u16)
        } else {
            None::<u16>
        }),
{
    let n = s.len();
    if n < 1 || n > 4 {
        return None;
    }
    let mut i: usize = 0;
    let mut val: u32 = 0;
    while i < n
        invariant
            0 <= i <= n,
            n == s@.len(),
            n <= 4,
            all_hex_digits(s@.take(i as int)),
            val == hex_val(s@.take(i as int)),
            val <= 65535,
        decreases n - i,
    {
        let b = s[i];
        let d: u32 = if 48 <= b && b <= 57 {
            (b - 48) as u32
        } else if 97 <= b && b <= 102 {
            (b - 87) as u32
        } else if 65 <= b && b <= 70 {
            (b - 55) as u32
        } else {
            assert(!all_hex_digits(s@));
            return None;
        };
        proof {
            lemma_hex_val_step(s@, i as int);
            lemma_hex_val_bound_4(s@, i as int);
        }
        val = val * 16 + d;
        proof {
            lemma_hex_val_bound_4(s@, i + 1);
        }
        i = i + 1;
    }
    proof {
        assert(s@.take(n as int) =~= s@);
        lemma_hex_group_bound(s@);
    }
    Some(val as u16)
}

/// Canonical hexadecimal rendering of `n`: minimal lower-case digits.
pub open spec fn hex_str(n: nat) -> Seq<u8>
    decreases n,
{
    if n < 16 {
        seq![hex_digit_chr(n)]
    } else {
        hex_str(n / 16).push(hex_digit_chr(n % 16))
    }
}

/// The lower-case hex digit for a value below sixteen.
pub open spec fn hex_digit_chr(d: nat) -> u8 {
    if d < 10 {
        (48 + d) as u8
    } else {
        (87 + d) as u8
    }
}

/// The canonical hex rendering is made of hex digits, is one to four
/// digits long for a sixteen-bit value, and reads back to `n`.
pub proof fn lemma_hex_str(n: nat)
    ensures
        all_hex_digits(hex_str(n)),
        hex_str(n).len() >= 1,
        hex_val(hex_str(n)) == n,
        n < 16 ==> hex_str(n).len() == 1,
        n < 256 ==> hex_str(n).len() <= 2,
        n < 4096 ==> hex_str(n).len() <= 3,
        n < 65536 ==> hex_str(n).len() <= 4,
    decreases n,
{
    if n < 16 {
        assert(hex_str(n) =~= seq![hex_digit_chr(n)]);
        assert(seq![hex_digit_chr(n)].drop_last() =~= Seq::<u8>::empty());
        assert(hex_val(Seq::<u8>::empty()) == 0);
        assert(hex_val(seq![hex_digit_chr(n)]) == hex_digit_val(hex_digit_chr(n)));
    } else {
        lemma_hex_str(n / 16);
        lemma_fundamental_div_mod(n as int, 16);
        let p = hex_str(n / 16);
        let d = hex_digit_chr(n % 16);
        assert(p.push(d).drop_last() =~= p);
        assert(hex_val(p.push(d)) == hex_val(p) * 16 + hex_digit_val(d));
        assert(hex_val(p.push(d)) == (n / 16) * 16 + n % 16);
    }
}

/// Renders `n` as canonical decimal digits.
pub fn render_dec_u64(n: u64) -> (r: Vec<u8>)
    ensures
        r@ == dec_str(n as nat),
    decreases n,
{
    if n < 10 {
        let mut v: Vec<u8> = Vec::new();
        v.push(48 + n as u8);
        proof {
            assert(v@ =~= dec_str(n as nat));
        }
        v
    } else {
        let mut v = render_dec_u64(n / 10);
        v.push(48 + (n % 10) as u8);
        v
    }
}

/// Renders `n` as canonical lower-case hex digits.
pub fn render_hex_u16(n: u16) -> (r: Vec<u8>)
    ensures
        r@ == hex_str(n as nat),
    decreases n,
{
    if n < 16 {
        let d: u8 = if n < 10 {
            48 + n as u8
        } else {
            87 + n as u8
        };
        let mut v: Vec<u8> = Vec::new();
        v.push(d);
        proof {
            assert(v@ =~= hex_str(n as nat));
        }
        v
    } else {
        let mut v = render_hex_u16(n / 16);
        let m = n % 16;
        let d: u8 = if m < 10 {
            48 + m as u8
        } else {
            87 + m as u8
        };
        v.push(d);
        v
    }
}

} // verus!

use vstd::prelude::*;

verus! {

use vstd::string::*;

/// Value of a digit character in radix up to 36; 99 for any other character.
pub open spec fn digit_value(c: char) -> int {
    if '0' <= c && c <= '9' {
        c as int - '0' as int
    } else if 'a' <= c && c <= 'z' {
        c as int - 'a' as int + 10
    } else if 'A' <= c && c <= 'Z' {
        c as int - 'A' as int + 10
    } else {
        99
    }
}

pub open spec fn all_digits(s: Seq<char>, radix: int) -> bool {
    forall|i: int| 0 <= i < s.len() ==> #[trigger] digit_value(s[i]) < radix
}

/// Positional value of a digit string, most significant digit first.
pub open spec fn digits_value(s: Seq<char>, radix: int) -> int
    decreases s.len(),
{
    if s.len() == 0 {
        0
    } else {
        digits_value(s.subrange(0, s.len() - 1), radix) * radix + digit_value(s[s.len() - 1])
    }
}

/// A non-empty run of digits of `radix`, read as a natural number.
pub open spec fn unsigned_value(s: Seq<char>, radix: int) -> Option<int> {
    if s.len() > 0 && all_digits(s, radix) {
        Some(digits_value(s, radix))
    } else {
        None
    }
}

/// Digits with an optional leading `+` or `-`, as integer parsing in a radix reads them.
pub open spec fn signed_value(s: Seq<char>, radix: int) -> Option<int> {
    if s.len() > 0 && s[0] == '-' {
        match unsigned_value(s.drop_first(), radix) {
            Some(m) => Some(-m),
            None => None,
        }
    } else if s.len() > 0 && s[0] == '+' {
        unsigned_value(s.drop_first(), radix)
    } else {
        unsigned_value(s, radix)
    }
}

/// Decimal digits with an optional leading `+`, as unsigned parsing reads them.
pub open spec fn decimal_value(s: Seq<char>) -> Option<int> {
    if s.len() > 0 && s[0] == '+' {
        unsigned_value(s.drop_first(), 10)
    } else {
        unsigned_value(s, 10)
    }
}

pub open spec fn fits_i64(v: int) -> bool {
    i64::MIN <= v <= i64::MAX
}

/// The integer that `s` denotes in `radix`: a radix from 2 to 36 and a result that fits.
pub open spec fn in_radix(s: Seq<char>, radix: int) -> Option<int> {
    if 2 <= radix <= 36 {
        match signed_value(s, radix) {
            Some(v) => if fits_i64(v) {
                Some(v)
            } else {
                None
            },
            None => None,
        }
    } else {
        None
    }
}

pub open spec fn no_b(s: Seq<char>) -> bool {
    forall|i: int| 0 <= i < s.len() ==> s[i] != 'b'
}

/// The value of a numeric literal: `<digits>` in the default base, or
/// `<digits>b<radix>` with the radix written in decimal.
pub open spec fn literal_value(s: Seq<char>, base: int) -> Option<int> {
    if no_b(s) {
        in_radix(s, base)
    } else {
        let p = choose|p: int| 0 <= p < s.len() && s[p] == 'b';
        if no_b(s.subrange(0, p)) && no_b(s.subrange(p + 1, s.len() as int)) {
            match decimal_value(s.subrange(p + 1, s.len() as int)) {
                Some(r) => in_radix(s.subrange(0, p), r),
                None => None,
            }
        } else {
            None
        }
    }
}

proof fn lemma_digits_nonneg(s: Seq<char>, radix: int)
    requires
        all_digits(s, radix),
        radix >= 1,
    ensures
        digits_value(s, radix) >= 0,
    decreases s.len(),
{
    if s.len() > 0 {
        let pre = s.subrange(0, s.len() - 1);
        assert forall|i: int| 0 <= i < pre.len() implies #[trigger] digit_value(pre[i]) < radix by {
            assert(pre[i] == s[i]);
        }
        lemma_digits_nonneg(pre, radix);
        let a = digits_value(pre, radix);
        assert(a * radix >= 0) by (nonlinear_arith)
            requires
                a >= 0,
                radix >= 1,
        ;
        assert(digit_value(s[s.len() - 1]) >= 0);
    }
}

/// A prefix of a digit string never has a larger value than the whole.
proof fn lemma_digits_prefix(s: Seq<char>, radix: int, n: int)
    requires
        all_digits(s, radix),
        radix >= 1,
        0 <= n <= s.len(),
    ensures
        digits_value(s.subrange(0, n), radix) <= digits_value(s, radix),
    decreases s.len(),
{
    if n < s.len() {
        let pre = s.subrange(0, s.len() - 1);
        assert forall|i: int| 0 <= i < pre.len() implies #[trigger] digit_value(pre[i]) < radix by {
            assert(pre[i] == s[i]);
        }
        lemma_digits_prefix(pre, radix, n);
        assert(pre.subrange(0, n) =~= s.subrange(0, n));
        lemma_digits_nonneg(pre, radix);
        let a = digits_value(pre, radix);
        assert(a * radix >= a) by (nonlinear_arith)
            requires
                a >= 0,
                radix >= 1,
        ;
        assert(digit_value(s[s.len() - 1]) >= 0);
    } else {
        assert(s.subrange(0, n) =~= s);
    }
}

/// The characters of `s`.
pub fn chars_of(s: &String) -> (r: Vec<char>)
    ensures
        r@ == s@,
{
    let t = s.as_str();
    let n = t.unicode_len();
    let mut r: Vec<char> = Vec::new();
    let mut i: usize = 0;
    while i < n
        invariant
            0 <= i <= n,
            n == t@.len(),
            t@ == s@,
            r@ == s@.subrange(0, i as int),
        decreases n - i,
    {
        r.push(t.get_char(i));
        i = i + 1;
        assert(r@ =~= s@.subrange(0, i as int));
    }
    assert(r@ =~= s@);
    r
}

fn digit_of(c: char) -> (d: u32)
    ensures
        d == digit_value(c),
{
    if '0' <= c && c <= '9' {
        (c as u32) - ('0' as u32)
    } else if 'a' <= c && c <= 'z' {
        (c as u32) - ('a' as u32) + 10
    } else if 'A' <= c && c <= 'Z' {
        (c as u32) - ('A' as u32) + 10
    } else {
        99
    }
}

/// The value of the digits `s[lo..hi]` in `radix`, when they are all digits,
/// there is at least one, and the value is at most 2^63.
fn magnitude(s: &Vec<char>, lo: usize, hi: usize, radix: u32) -> (r: Option<u64>)
    requires
        lo <= hi <= s@.len(),
        1 <= radix <= 36,
    ensures
        match unsigned_value(s@.subrange(lo as int, hi as int), radix as int) {
            Some(v) => if v <= 0x8000_0000_0000_0000 {
                r == Some(v as u64) && v >= 0
            } else {
                r is None
            },
            None => r is None,
        },
        r matches Some(m) ==> m <= 0x8000_0000_0000_0000,
{
    let ghost t = s@.subrange(lo as int, hi as int);
    if lo == hi {
        return None;
    }
    let mut acc: u64 = 0;
    let mut i: usize = lo;
    while i < hi
        invariant
            lo <= i <= hi <= s@.len(),
            1 <= radix <= 36,
            t == s@.subrange(lo as int, hi as int),
            all_digits(t.subrange(0, i - lo), radix as int),
            acc as int == digits_value(t.subrange(0, i - lo), radix as int),
            acc <= 0x8000_0000_0000_0000,
        decreases hi - i,
    {
        let d = digit_of(s[i]);
        let ghost pre = t.subrange(0, i - lo);
        let ghost next = t.subrange(0, i - lo + 1);
        assert(next.subrange(0, next.len() - 1) =~= pre);
        assert(next[next.len() - 1] == s@[i as int]);
        if d >= radix {
            assert(!all_digits(t, radix as int)) by {
                assert(t[i - lo] == s@[i as int]);
            }
            return None;
        }
        assert((acc as int) * (radix as int) <= 0x8000_0000_0000_0000 * 36) by (nonlinear_arith)
            requires
                acc <= 0x8000_0000_0000_0000,
                radix <= 36,
        ;
        let wide: u128 = (acc as u128) * (radix as u128) + (d as u128);
        assert(wide == digits_value(next, radix as int));
        assert forall|j: int| 0 <= j < next.len() implies #[trigger] digit_value(next[j])
            < radix by {
            if j < next.len() - 1 {
                assert(next[j] == pre[j]);
            }
        }
        if wide > 0x8000_0000_0000_0000u128 {
            proof {
                if all_digits(t, radix as int) {
                    lemma_digits_prefix(t, radix as int, i - lo + 1);
                }
            }
            return None;
        }
        acc = wide as u64;
        i = i + 1;
    }
    assert(t.subrange(0, hi - lo) =~= t);
    proof {
        lemma_digits_nonneg(t, radix as int);
    }
    Some(acc)
}

/// The value of `s[lo..hi]` read with an optional sign in `radix`, if it fits in `i64`.
fn parse_in_radix(s: &Vec<char>, lo: usize, hi: usize, radix: u32) -> (r: Option<i64>)
    requires
        lo <= hi <= s@.len(),
    ensures
        match in_radix(s@.subrange(lo as int, hi as int), radix as int) {
            Some(v) => r == Some(v as i64),
            None => r is None,
        },
{
    let ghost t = s@.subrange(lo as int, hi as int);
    if radix < 2 || radix > 36 {
        return None;
    }
    assert(lo < hi ==> t[0] == s@[lo as int]);
    if lo < hi && s[lo] == '-' {
        assert(t.drop_first() =~= s@.subrange(lo + 1, hi as int));
        match magnitude(s, lo + 1, hi, radix) {
            Some(m) => if m == 0x8000_0000_0000_0000 {
                Some(i64::MIN)
            } else {
                Some(-(m as i64))
            },
            None => None,
        }
    } else if lo < hi && s[lo] == '+' {
        assert(t.drop_first() =~= s@.subrange(lo + 1, hi as int));
        match magnitude(s, lo + 1, hi, radix) {
            Some(m) => if m <= 0x7fff_ffff_ffff_ffff {
                Some(m as i64)
            } else {
                None
            },
            None => None,
        }
    } else {
        match magnitude(s, lo, hi, radix) {
            Some(m) => if m <= 0x7fff_ffff_ffff_ffff {
                Some(m as i64)
            } else {
                None
            },
            None => None,
        }
    }
}

/// Reads a numeric literal: `<digits>` in `base`, or `<digits>b<radix>`.
pub fn parse_literal(text: &String, base: u32) -> (r: Option<i64>)
    ensures
        match literal_value(text@, base as int) {
            Some(v) => r == Some(v as i64),
            None => r is None,
        },
{
    let s = chars_of(text);
    let n = s.len();
    let mut count: usize = 0;
    let mut pos: usize = 0;
    let mut i: usize = 0;
    while i < n && count < 2
        invariant
            0 <= i <= n == s@.len(),
            s@ == text@,
            count <= 2,
            count == 0 ==> no_b(s@.subrange(0, i as int)),
            count >= 1 ==> pos < i && s@[pos as int] == 'b' && no_b(s@.subrange(0, pos as int)),
            count == 1 ==> no_b(s@.subrange(pos + 1, i as int)),
            count == 2 ==> !no_b(s@.subrange(pos + 1, n as int)),
        decreases n - i,
    {
        if s[i] == 'b' {
            if count == 0 {
                pos = i;
                count = 1;
                assert(s@.subrange(pos + 1, i + 1) =~= Seq::<char>::empty());
            } else {
                assert(s@.subrange(pos + 1, n as int)[i - pos - 1] == 'b');
                count = 2;
            }
        } else {
            proof {
                if count == 0 {
                    assert(forall|j: int|
                        0 <= j < i + 1 ==> #[trigger] s@.subrange(0, i + 1)[j] == s@[j]);
                } else {
                    assert(forall|j: int|
                        0 <= j < i - pos ==> #[trigger] s@.subrange(pos + 1, i + 1)[j] == s@[pos
                            + 1 + j]);
                }
            }
        }
        i = i + 1;
    }
    if count == 0 {
        assert(s@.subrange(0, n as int) =~= s@);
        return parse_in_radix(&s, 0, n, base);
    }
    proof {
        assert(s@[pos as int] == 'b');
        let p = choose|p: int| 0 <= p < s@.len() && s@[p] == 'b';
        if count == 1 {
            assert(s@.subrange(pos + 1, i as int) == s@.subrange(pos + 1, n as int));
            if p < pos {
                assert(s@.subrange(0, pos as int)[p] == 'b');
            } else if p > pos {
                assert(s@.subrange(pos + 1, n as int)[p - pos - 1] == 'b');
            }
            assert(p == pos);
        } else {
            if p < pos {
                assert(s@.subrange(0, pos as int)[p] == 'b');
            } else if p > pos {
                assert(s@.subrange(0, p)[pos as int] == 'b');
            }
        }
    }
    if count == 2 {
        return None;
    }
    let ghost rt = s@.subrange(pos + 1, n as int);
    assert(pos + 1 < n ==> rt[0] == s@[pos + 1]);
    let radix: Option<u64> = if pos + 1 < n && s[pos + 1] == '+' {
        assert(rt.drop_first() =~= s@.subrange(pos + 2, n as int));
        magnitude(&s, pos + 2, n, 10)
    } else {
        magnitude(&s, pos + 1, n, 10)
    };
    match radix {
        Some(r) => if r <= 36 {
            parse_in_radix(&s, 0, pos, r as u32)
        } else {
            None
        },
        None => None,
    }
}

} // verus!

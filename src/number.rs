//! The two kinds of number a label line holds: an integer class id and a
//! decimal coordinate.
use vstd::prelude::*;
use crate::text::{
    all_digits, chars_of, digits_value, is_digit, lemma_digits_value_bound,
    lemma_digits_value_prefix, lemma_pow10_monotone, pow10,
};

verus! {

/// A token without its leading sign: whether it was `-`, and the rest.
pub open spec fn sign_split(t: Seq<char>) -> (bool, Seq<char>) {
    if t.len() > 0 && t[0] == '-' {
        (true, t.drop_first())
    } else if t.len() > 0 && t[0] == '+' {
        (false, t.drop_first())
    } else {
        (false, t)
    }
}

/// An optional sign followed by one or more ASCII digits, and the integer it spells.
pub open spec fn integer_value(t: Seq<char>) -> Option<int> {
    let (neg, body) = sign_split(t);
    if body.len() > 0 && all_digits(body) {
        let v = digits_value(body) as int;
        Some(if neg { -v } else { v })
    } else {
        None
    }
}

/// What `str::parse::<isize>` gives for the token: its integer, when that fits.
pub open spec fn isize_value(t: Seq<char>) -> Option<isize> {
    match integer_value(t) {
        Some(v) => if isize::MIN <= v <= isize::MAX {
            Some(v as isize)
        } else {
            None
        },
        None => None,
    }
}

/// Units of a [`Decimal`] in one whole.
pub const ONE: i128 = 1_000_000_000_000_000_000;

/// The largest magnitude of a [`Decimal`], in units: 10^38, that is 10^20 wholes.
pub const CAP: u128 = 100_000_000_000_000_000_000_000_000_000_000_000_000;

/// The largest exponent magnitude that reading keeps apart; every exponent
/// beyond it gives the same number.
pub const EXPONENT_LIMIT: i128 = 1_000_000_000_000_000_000_000_000_000_000;

/// A decimal number, as a count of 10^-18 units.
#[derive(Clone, Copy, Debug, PartialEq, Eq, Structural)]
pub struct Decimal {
    pub units: i128,
}

/// The index of the first `c` in `s`, or its length where there is none.
pub open spec fn first_index_of(s: Seq<char>, c: char) -> nat
    decreases s.len(),
{
    if s.len() == 0 {
        0
    } else if s[0] == c {
        0
    } else {
        1 + first_index_of(s.drop_first(), c)
    }
}

/// The index of the first exponent mark (`e` or `E`) in `s`, or its length.
pub open spec fn exponent_index(s: Seq<char>) -> nat
    decreases s.len(),
{
    if s.len() == 0 {
        0
    } else if s[0] == 'e' || s[0] == 'E' {
        0
    } else {
        1 + exponent_index(s.drop_first())
    }
}

/// A number token as `str::parse::<f32>` reads it, in decimal notation: an
/// optional sign, digits with an optional point (at least one digit in all),
/// and an optional exponent (`e` or `E`, an optional sign, digits). It gives
/// the sign, the digits as one number `m`, and the power of ten `e`: the
/// value is ±m·10^e.
pub open spec fn decimal_parts(t: Seq<char>) -> Option<(bool, nat, int)> {
    let (neg, body) = sign_split(t);
    let x = exponent_index(body) as int;
    let mant = body.take(x);
    let d = first_index_of(mant, '.') as int;
    let whole = mant.take(d);
    let frac = if d < mant.len() {
        mant.skip(d + 1)
    } else {
        Seq::empty()
    };
    let exp = if x < body.len() {
        integer_value(body.skip(x + 1))
    } else {
        Some(0)
    };
    if all_digits(whole) && all_digits(frac) && whole.len() + frac.len() > 0 && exp is Some {
        Some((neg, digits_value(whole + frac), exp->0 - frac.len()))
    } else {
        None
    }
}

/// m·10^e in 10^-18 units, rounded half up, and at most 10^38.
pub open spec fn rounded_units(m: nat, e: int) -> nat {
    let k = e + 18;
    let u: int = if k >= 0 {
        (m * pow10(k as nat)) as int
    } else {
        ((m + pow10((-k) as nat) / 2) as int) / (pow10((-k) as nat) as int)
    };
    if u > pow10(38) {
        pow10(38)
    } else {
        u as nat
    }
}

/// The decimal that a number token stands for.
pub open spec fn decimal_of(t: Seq<char>) -> Option<Decimal> {
    match decimal_parts(t) {
        Some((neg, m, e)) => {
            let u = rounded_units(m, e) as int;
            Some(Decimal { units: (if neg { -u } else { u }) as i128 })
        },
        None => None,
    }
}

pub open spec fn clamp_exponent(v: int) -> int {
    if v > EXPONENT_LIMIT {
        EXPONENT_LIMIT as int
    } else if v < -EXPONENT_LIMIT {
        -EXPONENT_LIMIT
    } else {
        v
    }
}

pub proof fn lemma_first_index_of(s: Seq<char>, c: char, k: int)
    requires
        0 <= k <= s.len(),
        forall|j: int| 0 <= j < k ==> s[j] != c,
        k == s.len() || s[k] == c,
    ensures
        first_index_of(s, c) == k,
    decreases k,
{
    if k > 0 {
        lemma_first_index_of(s.drop_first(), c, k - 1);
    }
}

/// Where a token's digits begin, and whether its sign was `-`.
fn sign_prefix(t: &Vec<char>) -> (r: (bool, usize))
    ensures
        r.1 <= t@.len(),
        sign_split(t@) == (r.0, t@.skip(r.1 as int)),
{
    let n = t.len();
    if n > 0 && t[0] == '-' {
        assert(t@.drop_first() =~= t@.skip(1));
        (true, 1)
    } else if n > 0 && t[0] == '+' {
        assert(t@.drop_first() =~= t@.skip(1));
        (false, 1)
    } else {
        assert(t@ =~= t@.skip(0));
        (false, 0)
    }
}

pub proof fn lemma_exponent_index(s: Seq<char>, k: int)
    requires
        0 <= k <= s.len(),
        forall|j: int| 0 <= j < k ==> s[j] != 'e' && s[j] != 'E',
        k == s.len() || s[k] == 'e' || s[k] == 'E',
    ensures
        exponent_index(s) == k,
    decreases k,
{
    if k > 0 {
        lemma_exponent_index(s.drop_first(), k - 1);
    }
}

proof fn lemma_pow10_38()
    ensures
        pow10(38) == CAP,
        pow10(39) == 10 * pow10(38),
{
    reveal_with_fuel(pow10, 40);
}

/// Exponents beyond the limit give what the limit gives.
proof fn lemma_exponent_clamp(m: nat, v: int, f: nat, len: nat)
    requires
        m < pow10(len),
        len <= 0x1_0000_0000_0000_0000,
        f <= 0x1_0000_0000_0000_0000,
    ensures
        rounded_units(m, clamp_exponent(v) - f) == rounded_units(m, v - f),
{
    lemma_pow10_38();
    if v > EXPONENT_LIMIT {
        let k1 = (EXPONENT_LIMIT - f + 18) as nat;
        let k2 = (v - f + 18) as nat;
        if m > 0 {
            lemma_pow10_monotone(39, k1);
            lemma_pow10_monotone(39, k2);
            crate::text::lemma_scaled_at_least(m, k1);
            crate::text::lemma_scaled_at_least(m, k2);
        } else {
            assert(m * pow10(k1) == 0 && m * pow10(k2) == 0) by (nonlinear_arith)
                requires
                    m == 0,
            ;
        }
    } else if v < -EXPONENT_LIMIT {
        let j1 = (EXPONENT_LIMIT + f - 18) as nat;
        let j2 = (-v + f - 18) as nat;
        lemma_pow10_monotone(len, (j1 - 1) as nat);
        lemma_pow10_monotone(len, (j2 - 1) as nat);
        crate::text::lemma_round_small(m, j1);
        crate::text::lemma_round_small(m, j2);
    }
}

/// The first index from `lo` on, before `hi`, where `t` holds `c` or `c2`,
/// or `hi`.
fn find_char(t: &Vec<char>, lo: usize, hi: usize, c: char, c2: char) -> (r: usize)
    requires
        lo <= hi <= t@.len(),
    ensures
        lo <= r <= hi,
        forall|j: int| lo <= j < r ==> t@[j] != c && t@[j] != c2,
        r < hi ==> t@[r as int] == c || t@[r as int] == c2,
{
    let mut i = lo;
    while i < hi && t[i] != c && t[i] != c2
        invariant
            lo <= i <= hi,
            hi <= t@.len(),
            forall|j: int| lo <= j < i ==> t@[j] != c && t@[j] != c2,
        decreases hi - i,
    {
        i = i + 1;
    }
    i
}

/// Whether `t[lo..hi]` is all digits.
fn digits_in(t: &Vec<char>, lo: usize, hi: usize) -> (r: bool)
    requires
        lo <= hi <= t@.len(),
    ensures
        r == all_digits(t@.subrange(lo as int, hi as int)),
{
    let mut i = lo;
    while i < hi
        invariant
            lo <= i <= hi,
            hi <= t@.len(),
            forall|j: int| lo <= j < i ==> is_digit(t@[j]),
        decreases hi - i,
    {
        if !('0' <= t[i] && t[i] <= '9') {
            assert(t@.subrange(lo as int, hi as int)[i - lo] == t@[i as int]);
            return false;
        }
        i = i + 1;
    }
    assert forall|k: int| 0 <= k < hi - lo implies is_digit(
        #[trigger] t@.subrange(lo as int, hi as int)[k],
    ) by {
        assert(t@.subrange(lo as int, hi as int)[k] == t@[lo + k]);
    }
    true
}

/// The number that the first `hi` digits spell, at most `CAP`.
fn capped_digits(ds: &Vec<char>, hi: usize) -> (r: u128)
    requires
        hi <= ds@.len(),
        all_digits(ds@),
    ensures
        r == (if digits_value(ds@.take(hi as int)) > CAP {
            CAP as nat
        } else {
            digits_value(ds@.take(hi as int))
        }),
{
    let mut v: u128 = 0;
    let mut i: usize = 0;
    assert(ds@.take(0) =~= Seq::<char>::empty());
    while i < hi
        invariant
            i <= hi,
            hi <= ds@.len(),
            all_digits(ds@),
            v == (if digits_value(ds@.take(i as int)) > CAP {
                CAP as nat
            } else {
                digits_value(ds@.take(i as int))
            }),
        decreases hi - i,
    {
        assert(ds@.take(i + 1).drop_last() =~= ds@.take(i as int));
        assert(is_digit(ds@[i as int]));
        let d = (ds[i] as u32 - '0' as u32) as u128;
        assert(d <= 9);
        v = if v > CAP / 10 {
            CAP
        } else {
            let next = 10 * v + d;
            if next > CAP {
                CAP
            } else {
                next
            }
        };
        i = i + 1;
    }
    v
}

/// An exponent token: an optional sign and digits, its value kept within
/// `EXPONENT_LIMIT`.
fn read_exponent(t: &Vec<char>, lo: usize, hi: usize) -> (r: Option<i128>)
    requires
        lo <= hi <= t@.len(),
    ensures
        match integer_value(t@.subrange(lo as int, hi as int)) {
            Some(v) => r == Some(clamp_exponent(v) as i128),
            None => r is None,
        },
{
    let ghost s = t@.subrange(lo as int, hi as int);
    let mut i = lo;
    let mut neg = false;
    if i < hi && t[i] == '-' {
        neg = true;
        i = i + 1;
    } else if i < hi && t[i] == '+' {
        i = i + 1;
    }
    let ghost body = t@.subrange(i as int, hi as int);
    assert(sign_split(s) == (neg, body)) by {
        if i > lo {
            assert(s.drop_first() =~= body);
        } else {
            assert(s =~= body);
        }
    }
    if i == hi {
        return None;
    }
    let start = i;
    let mut v: u128 = 0;
    assert(body.take(0) =~= Seq::<char>::empty());
    while i < hi
        invariant
            start <= i <= hi,
            hi <= t@.len(),
            body == t@.subrange(start as int, hi as int),
            s == t@.subrange(lo as int, hi as int),
            sign_split(s) == (neg, body),
            all_digits(body.take(i - start)),
            v == (if digits_value(body.take(i - start)) > EXPONENT_LIMIT {
                EXPONENT_LIMIT as nat
            } else {
                digits_value(body.take(i - start))
            }),
        decreases hi - i,
    {
        let c = t[i];
        if !('0' <= c && c <= '9') {
            assert(body[i - start] == c);
            return None;
        }
        let ghost pre = body.take(i - start);
        let ghost next = body.take(i + 1 - start);
        assert(next.drop_last() =~= pre);
        assert(all_digits(next)) by {
            assert forall|k: int| 0 <= k < next.len() implies is_digit(#[trigger] next[k]) by {
                if k < pre.len() {
                    assert(next[k] == pre[k]);
                }
            }
        }
        let d = (c as u32 - '0' as u32) as u128;
        let n2 = 10 * v + d;
        v = if n2 > EXPONENT_LIMIT as u128 {
            EXPONENT_LIMIT as u128
        } else {
            n2
        };
        i = i + 1;
    }
    assert(body.take(hi - start) =~= body);
    let w = v as i128;
    if neg {
        Some(-w)
    } else {
        Some(w)
    }
}

/// m·10^e in units, rounded half up and at most `CAP`, `m` being spelled by
/// the digits `ds`.
fn round_units(ds: &Vec<char>, e: i128) -> (r: u128)
    requires
        ds@.len() >= 1,
        all_digits(ds@),
        -(EXPONENT_LIMIT + 0x1_0000_0000_0000_0000) <= e <= EXPONENT_LIMIT,
    ensures
        r == rounded_units(digits_value(ds@), e as int),
        r <= CAP,
{
    let ghost m = digits_value(ds@);
    let len = ds.len();
    proof {
        lemma_pow10_38();
        assert(ds@.take(len as int) =~= ds@);
    }
    let k = e + 18;
    if k >= 0 {
        let mut y = capped_digits(ds, len);
        let mut i: i128 = 0;
        assert(pow10(0) == 1);
        assert(m * 1 == m);
        while i < k && y != 0 && y < CAP
            invariant
                0 <= i <= k,
                y as nat == (if m * pow10(i as nat) > CAP {
                    CAP as nat
                } else {
                    m * pow10(i as nat)
                }),
            decreases k - i,
        {
            assert(pow10((i + 1) as nat) == 10 * pow10(i as nat));
            assert(m * pow10((i + 1) as nat) == 10 * (m * pow10(i as nat))) by (nonlinear_arith)
                requires
                    pow10((i + 1) as nat) == 10 * pow10(i as nat),
            ;
            y = if y > CAP / 10 {
                CAP
            } else {
                10 * y
            };
            i = i + 1;
        }
        if i < k {
            proof {
                if y == 0 {
                    crate::text::lemma_pow10_positive(i as nat);
                    assert(m == 0) by (nonlinear_arith)
                        requires
                            m * pow10(i as nat) == 0,
                            pow10(i as nat) >= 1,
                    ;
                    assert(m * pow10(k as nat) == 0);
                } else {
                    lemma_pow10_monotone(i as nat, k as nat);
                    assert(m * pow10(k as nat) >= m * pow10(i as nat)) by (nonlinear_arith)
                        requires
                            pow10(k as nat) >= pow10(i as nat),
                    ;
                }
            }
        }
        y
    } else {
        let j = (-k) as u128;
        if j > len as u128 {
            proof {
                lemma_digits_value_bound(ds@);
                lemma_pow10_monotone(len as nat, (j - 1) as nat);
                crate::text::lemma_round_small(m, j as nat);
            }
            0
        } else {
            let s = len - j as usize;
            let a = capped_digits(ds, s);
            let ghost head = ds@.take(s as int);
            let ghost tail = ds@.skip(s as int);
            proof {
                assert(ds@ =~= head + tail);
                crate::text::lemma_digits_value_concat(head, tail);
                assert(all_digits(tail)) by {
                    assert forall|q: int| 0 <= q < tail.len() implies is_digit(#[trigger] tail[q]) by {
                        assert(tail[q] == ds@[s + q]);
                    }
                }
                crate::text::lemma_round_at_digits(digits_value(head), tail);
                assert(tail[0] == ds@[s as int]);
                assert(is_digit(ds@[s as int]));
            }
            let up: u128 = if (ds[s] as u32 - '0' as u32) >= 5 {
                1
            } else {
                0
            };
            let u = a + up;
            if u > CAP {
                CAP
            } else {
                u
            }
        }
    }
}

/// The characters `t[a..b]` followed by `t[c..d]`.
fn join_digits(t: &Vec<char>, a: usize, b: usize, c: usize, d: usize) -> (r: Vec<char>)
    requires
        a <= b <= t@.len(),
        c <= d <= t@.len(),
    ensures
        r@ == t@.subrange(a as int, b as int) + t@.subrange(c as int, d as int),
{
    let mut ds: Vec<char> = Vec::new();
    for i in a..b
        invariant
            ds@ == t@.subrange(a as int, i as int),
            b <= t@.len(),
    {
        ds.push(t[i]);
        assert(ds@ =~= t@.subrange(a as int, i + 1));
    }
    let ghost first = ds@;
    for i in c..d
        invariant
            ds@ == first + t@.subrange(c as int, i as int),
            first == t@.subrange(a as int, b as int),
            d <= t@.len(),
    {
        ds.push(t[i]);
        assert(ds@ =~= first + t@.subrange(c as int, i + 1));
    }
    ds
}

impl Decimal {
    /// Reads a number token, as `decimal_of` describes it.
    #[verifier::rlimit(40)]
    pub fn parse_chars(t: &Vec<char>) -> (r: Option<Decimal>)
        ensures
            r == decimal_of(t@),
    {
        let n = t.len();
        let (neg, start) = sign_prefix(t);
        let ghost body = t@.skip(start as int);
        let x = find_char(t, start, n, 'e', 'E');
        proof {
            lemma_exponent_index(body, x - start);
        }
        let ghost mant = body.take(x - start);
        let d = find_char(t, start, x, '.', '.');
        proof {
            lemma_first_index_of(mant, '.', d - start);
        }
        let frac_start = if d < x {
            d + 1
        } else {
            x
        };
        let ghost whole = mant.take(d - start);
        let ghost frac = if d < x {
            mant.skip(d - start + 1)
        } else {
            Seq::<char>::empty()
        };
        assert(whole =~= t@.subrange(start as int, d as int));
        assert(frac =~= t@.subrange(frac_start as int, x as int));
        if (d - start) + (x - frac_start) == 0 {
            return None;
        }
        if !digits_in(t, start, d) || !digits_in(t, frac_start, x) {
            return None;
        }
        let ghost exp_spec = if x < n {
            integer_value(body.skip(x - start + 1))
        } else {
            Some(0int)
        };
        let e: i128 = if x < n {
            assert(body.skip(x - start + 1) =~= t@.subrange(x + 1, n as int));
            match read_exponent(t, x + 1, n) {
                Some(v) => v,
                None => return None,
            }
        } else {
            0
        };
        assert(e == clamp_exponent(exp_spec->0));
        let ds = join_digits(t, start, d, frac_start, x);
        assert(ds@ =~= whole + frac);
        assert(all_digits(ds@)) by {
            assert forall|q: int| 0 <= q < ds@.len() implies is_digit(#[trigger] ds@[q]) by {
                if q < whole.len() {
                    assert(ds@[q] == whole[q]);
                } else {
                    assert(ds@[q] == frac[q - whole.len()]);
                }
            }
        }
        let f = (x - frac_start) as i128;
        proof {
            lemma_digits_value_bound(ds@);
            lemma_exponent_clamp(
                digits_value(ds@),
                exp_spec->0,
                frac.len(),
                ds@.len(),
            );
        }
        let u = round_units(&ds, e - f) as i128;
        assert(decimal_parts(t@) == Some((neg, digits_value(ds@), exp_spec->0 - frac.len())));
        if neg {
            Some(Decimal { units: -u })
        } else {
            Some(Decimal { units: u })
        }
    }

    /// Reads a number written in decimal notation, as `decimal_of` describes it.
    pub fn parse(s: &str) -> (r: Option<Decimal>)
        ensures
            r == decimal_of(s@),
    {
        let chars = chars_of(s);
        Decimal::parse_chars(&chars)
    }

    /// Whether the number lies in [0, 1], ends included.
    pub fn in_unit_interval(&self) -> (r: bool)
        ensures
            r == (0 <= self.units <= ONE),
    {
        0 <= self.units && self.units <= ONE
    }
}

/// Reads an integer as `str::parse::<isize>` does.
pub fn parse_isize(s: &str) -> (r: Option<isize>)
    ensures
        r == isize_value(s@),
{
    let chars = chars_of(s);
    parse_isize_chars(&chars)
}

/// Reads an integer token as `str::parse::<isize>` does.
pub fn parse_isize_chars(t: &Vec<char>) -> (r: Option<isize>)
    ensures
        r == isize_value(t@),
{
    let n = t.len();
    let (neg, start) = sign_prefix(t);
    let ghost body = t@.skip(start as int);
    if start == n {
        return None;
    }
    let limit: u128 = 9_223_372_036_854_775_808;
    let mut v: u128 = 0;
    let mut j = start;
    while j < n
        invariant
            start <= j <= n,
            n == t@.len(),
            body =~= t@.skip(start as int),
            sign_split(t@) == (neg, body),
            limit == 9_223_372_036_854_775_808,
            all_digits(body.take(j - start)),
            v == digits_value(body.take(j - start)),
            v <= limit,
        decreases n - j,
    {
        let c = t[j];
        if !('0' <= c && c <= '9') {
            assert(!all_digits(body)) by {
                assert(body[j - start] == c);
            }
            assert(integer_value(t@) is None);
            return None;
        }
        let ghost pre = body.take(j - start);
        let ghost next = body.take(j + 1 - start);
        assert(next.drop_last() =~= pre);
        assert(all_digits(next)) by {
            assert forall|i: int| 0 <= i < next.len() implies is_digit(#[trigger] next[i]) by {
                if i < pre.len() {
                    assert(next[i] == pre[i]);
                }
            }
        }
        let digit = (c as u32 - '0' as u32) as u128;
        assert(digit <= 9);
        v = 10 * v + digit;
        j = j + 1;
        if v > limit {
            proof {
                lemma_digits_value_prefix(body, j - start);
                assert(isize::MIN >= -limit && isize::MAX < limit);
            }
            return None;
        }
    }
    assert(body.take(n - start) =~= body);
    let val: i128 = if neg {
        -(v as i128)
    } else {
        v as i128
    };
    if (isize::MIN as i128) <= val && val <= (isize::MAX as i128) {
        Some(val as isize)
    } else {
        None
    }
}

} // verus!

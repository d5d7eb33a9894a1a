//! Character-level helpers: splitting text into lines and fields, reading
//! decimal digits, and writing integers back as text.
use vstd::prelude::*;

verus! {

/// Splits `s` at every `sep`, keeping empty pieces, as `str::split` does.
pub open spec fn split_on(s: Seq<char>, sep: char) -> Seq<Seq<char>>
    decreases s.len(),
{
    if s.len() == 0 {
        seq![Seq::empty()]
    } else {
        let head = split_on(s.drop_last(), sep);
        if s.last() == sep {
            head.push(Seq::empty())
        } else {
            head.update(head.len() - 1, head.last().push(s.last()))
        }
    }
}

pub proof fn lemma_split_on_nonempty(s: Seq<char>, sep: char)
    ensures
        split_on(s, sep).len() >= 1,
    decreases s.len(),
{
    if s.len() > 0 {
        lemma_split_on_nonempty(s.drop_last(), sep);
    }
}

/// A piece without the carriage return that ends it, if any.
pub open spec fn strip_cr(l: Seq<char>) -> Seq<char> {
    if l.len() > 0 && l.last() == '\r' {
        l.drop_last()
    } else {
        l
    }
}

/// The lines of `s` as `str::lines` yields them: the pieces between newlines,
/// each without a carriage return that precedes its newline; the empty piece
/// after a final newline is no line.
pub open spec fn lines_of(s: Seq<char>) -> Seq<Seq<char>> {
    let p = split_on(s, '\n');
    let n = p.len() - 1;
    let body = Seq::new(n as nat, |i: int| strip_cr(p[i]));
    if p[n].len() == 0 {
        body
    } else {
        body.push(p[n])
    }
}

/// The fields of a line: the pieces between single spaces.
pub open spec fn fields_of(line: Seq<char>) -> Seq<Seq<char>> {
    split_on(line, ' ')
}

pub open spec fn views_of(v: Seq<Vec<char>>) -> Seq<Seq<char>> {
    v.map_values(|p: Vec<char>| p@)
}

/// The characters of `s`, one by one.
pub fn chars_of(s: &str) -> (r: Vec<char>)
    ensures
        r@ == s@,
{
    let mut r: Vec<char> = Vec::new();
    for c in it: s.chars()
        invariant
            r@ == it.seq().take(it.index() as int),
            it.seq() == s@,
    {
        r.push(c);
    }
    r
}

/// Splits `s` at every `sep`, keeping empty pieces.
pub fn split_chars(s: &Vec<char>, sep: char) -> (r: Vec<Vec<char>>)
    ensures
        views_of(r@) == split_on(s@, sep),
{
    let mut pieces: Vec<Vec<char>> = Vec::new();
    let mut cur: Vec<char> = Vec::new();
    let n = s.len();
    for i in 0..n
        invariant
            n == s@.len(),
            views_of(pieces@).push(cur@) == split_on(s@.take(i as int), sep),
    {
        let ghost before = s@.take(i as int);
        let ghost after = s@.take(i + 1);
        assert(after.drop_last() =~= before);
        proof {
            lemma_split_on_nonempty(before, sep);
        }
        if s[i] == sep {
            pieces.push(cur);
            cur = Vec::new();
            assert(views_of(pieces@).push(cur@) =~= split_on(after, sep));
        } else {
            cur.push(s[i]);
            assert(views_of(pieces@).push(cur@) =~= split_on(after, sep));
        }
    }
    assert(s@.take(n as int) =~= s@);
    pieces.push(cur);
    assert(views_of(pieces@) =~= split_on(s@, sep));
    pieces
}

/// The lines of `s`, as `lines_of` describes them.
pub fn split_lines(s: &Vec<char>) -> (r: Vec<Vec<char>>)
    ensures
        views_of(r@) == lines_of(s@),
{
    let pieces = split_chars(s, '\n');
    proof {
        lemma_split_on_nonempty(s@, '\n');
    }
    let ghost p = split_on(s@, '\n');
    let n = pieces.len() - 1;
    let mut lines: Vec<Vec<char>> = Vec::new();
    for i in 0..n
        invariant
            n == pieces@.len() - 1,
            views_of(pieces@) == p,
            views_of(lines@) =~= Seq::new(i as nat, |j: int| strip_cr(p[j])),
    {
        assert(pieces@[i as int]@ == p[i as int]);
        let piece = &pieces[i];
        let len = piece.len();
        let mut line: Vec<char> = Vec::new();
        let keep = if len > 0 && piece[len - 1] == '\r' {
            len - 1
        } else {
            len
        };
        for j in 0..keep
            invariant
                keep <= len,
                len == piece@.len(),
                line@ == piece@.take(j as int),
        {
            line.push(piece[j]);
            assert(line@ =~= piece@.take(j + 1));
        }
        assert(line@ =~= strip_cr(p[i as int]));
        let ghost old_lines = lines@;
        lines.push(line);
        assert(views_of(lines@) =~= views_of(old_lines).push(strip_cr(p[i as int])));
    }
    if pieces[n].len() > 0 {
        let last = pieces[n].clone();
        assert(last@ == p[n as int]);
        lines.push(last);
    }
    lines
}

pub open spec fn is_digit(c: char) -> bool {
    '0' <= c && c <= '9'
}

pub open spec fn digit_of(c: char) -> nat {
    (c as u32 - '0' as u32) as nat
}

pub open spec fn all_digits(s: Seq<char>) -> bool {
    forall|i: int| 0 <= i < s.len() ==> is_digit(#[trigger] s[i])
}

/// The number that a run of decimal digits spells.
pub open spec fn digits_value(s: Seq<char>) -> nat
    decreases s.len(),
{
    if s.len() == 0 {
        0
    } else {
        10 * digits_value(s.drop_last()) + digit_of(s.last())
    }
}

pub open spec fn pow10(n: nat) -> nat
    decreases n,
{
    if n == 0 {
        1
    } else {
        10 * pow10((n - 1) as nat)
    }
}

pub proof fn lemma_pow10_positive(n: nat)
    ensures
        pow10(n) >= 1,
    decreases n,
{
    if n > 0 {
        lemma_pow10_positive((n - 1) as nat);
    }
}

pub proof fn lemma_digits_value_bound(s: Seq<char>)
    requires
        all_digits(s),
    ensures
        digits_value(s) < pow10(s.len()),
    decreases s.len(),
{
    if s.len() > 0 {
        let d = s.drop_last();
        assert(all_digits(d)) by {
            assert forall|i: int| 0 <= i < d.len() implies is_digit(#[trigger] d[i]) by {
                assert(d[i] == s[i]);
            }
        }
        lemma_digits_value_bound(d);
        assert(is_digit(s[s.len() - 1]));
        let a = digits_value(d);
        let b = pow10(d.len());
        let c = digit_of(s.last());
        assert(c <= 9);
        assert(10 * a + c < 10 * b) by (nonlinear_arith)
            requires
                a < b,
                c <= 9,
        ;
    }
}

/// A digit string only grows when it is extended.
pub proof fn lemma_digits_value_prefix(s: Seq<char>, k: int)
    requires
        0 <= k <= s.len(),
    ensures
        digits_value(s.take(k)) <= digits_value(s),
    decreases s.len(),
{
    if k < s.len() {
        assert(s.drop_last().take(k) =~= s.take(k));
        lemma_digits_value_prefix(s.drop_last(), k);
    } else {
        assert(s.take(k) =~= s);
    }
}

pub proof fn lemma_pow10_monotone(a: nat, b: nat)
    requires
        a <= b,
    ensures
        pow10(a) <= pow10(b),
    decreases b,
{
    if a < b {
        lemma_pow10_monotone(a, (b - 1) as nat);
        lemma_pow10_positive((b - 1) as nat);
    }
}

pub open spec fn digit_char(d: nat) -> char {
    seq!['0', '1', '2', '3', '4', '5', '6', '7', '8', '9'][d as int]
}

/// The decimal digits of `n`, without leading zeros.
pub open spec fn nat_text(n: nat) -> Seq<char>
    decreases n,
{
    if n < 10 {
        seq![digit_char(n)]
    } else {
        nat_text(n / 10).push(digit_char(n % 10))
    }
}

/// An integer written in decimal, with a leading `-` when it is negative.
pub open spec fn int_text(v: int) -> Seq<char> {
    if v < 0 {
        seq!['-'] + nat_text((-v) as nat)
    } else {
        nat_text(v as nat)
    }
}

fn push_nat_text(n: u128, out: &mut Vec<char>)
    ensures
        final(out)@ == old(out)@ + nat_text(n as nat),
    decreases n,
{
    if n >= 10 {
        push_nat_text(n / 10, out);
    }
    let digits: [char; 10] = ['0', '1', '2', '3', '4', '5', '6', '7', '8', '9'];
    assert(digits@ =~= seq!['0', '1', '2', '3', '4', '5', '6', '7', '8', '9']);
    let ghost before = out@;
    out.push(digits[(n % 10) as usize]);
    assert(out@ =~= old(out)@ + nat_text(n as nat));
}

/// Relies on `String`'s `FromIterator<char>`: the string holds the characters in order.
#[verifier::external_body]
pub(crate) fn string_of(chars: &Vec<char>) -> (r: String)
    ensures
        r@ == chars@,
{
    chars.iter().collect()
}

/// `v` written in decimal.
pub fn int_string(v: i128) -> (r: String)
    requires
        v > i128::MIN,
    ensures
        r@ == int_text(v as int),
{
    let mut out: Vec<char> = Vec::new();
    if v < 0 {
        out.push('-');
        push_nat_text((-v) as u128, &mut out);
    } else {
        push_nat_text(v as u128, &mut out);
    }
    assert(out@ =~= int_text(v as int));
    string_of(&out)
}

/// A string literal's characters, as a `String`.
pub fn text(s: &str) -> (r: String)
    ensures
        r@ == s@,
{
    s.to_owned()
}

/// Digits written after others scale those by a power of ten.
pub proof fn lemma_digits_value_concat(a: Seq<char>, b: Seq<char>)
    ensures
        digits_value(a + b) == digits_value(a) * pow10(b.len()) + digits_value(b),
    decreases b.len(),
{
    if b.len() == 0 {
        assert(a + b =~= a);
        assert(pow10(0) == 1);
        assert(digits_value(a) * 1 == digits_value(a));
    } else {
        let b2 = b.drop_last();
        assert((a + b).drop_last() =~= a + b2);
        assert((a + b).last() == b.last());
        lemma_digits_value_concat(a, b2);
        assert(digits_value(a + b) == 10 * digits_value(a + b2) + digit_of(b.last()));
        assert(digits_value(b) == 10 * digits_value(b2) + digit_of(b.last()));
        let x = digits_value(a);
        let p = pow10(b2.len());
        assert(pow10(b.len()) == 10 * p);
        assert(10 * (x * p + digits_value(b2)) + digit_of(b.last()) == x * (10 * p) + (10
            * digits_value(b2) + digit_of(b.last()))) by (nonlinear_arith);
    }
}

/// A run of digits is its first digit times a power of ten plus the rest.
pub proof fn lemma_digits_value_front(s: Seq<char>)
    requires
        s.len() >= 1,
        all_digits(s),
    ensures
        digits_value(s) == digit_of(s[0]) * pow10((s.len() - 1) as nat) + digits_value(
            s.drop_first(),
        ),
        digits_value(s.drop_first()) < pow10((s.len() - 1) as nat),
        digit_of(s[0]) <= 9,
{
    assert(s =~= seq![s[0]] + s.drop_first());
    lemma_digits_value_concat(seq![s[0]], s.drop_first());
    assert(seq![s[0]].drop_last() =~= Seq::<char>::empty());
    assert(digits_value(Seq::<char>::empty()) == 0);
    assert(digits_value(seq![s[0]]) == 10 * digits_value(Seq::<char>::empty()) + digit_of(s[0]));
    assert(all_digits(s.drop_first())) by {
        assert forall|i: int| 0 <= i < s.drop_first().len() implies is_digit(
            #[trigger] s.drop_first()[i],
        ) by {
            assert(s.drop_first()[i] == s[i + 1]);
        }
    }
    lemma_digits_value_bound(s.drop_first());
    assert(is_digit(s[0]));
}

/// Rounding half up at a run of digits: the quotient grows by one exactly when
/// the run's first digit is 5 or more.
pub proof fn lemma_round_at_digits(a: nat, tail: Seq<char>)
    requires
        tail.len() >= 1,
        all_digits(tail),
    ensures
        ((a * pow10(tail.len()) + digits_value(tail) + pow10(tail.len()) / 2) as int) / (pow10(
            tail.len(),
        ) as int) == a + if digit_of(tail[0]) >= 5 {
            1int
        } else {
            0int
        },
{
    lemma_digits_value_front(tail);
    let q = pow10((tail.len() - 1) as nat) as int;
    let p = pow10(tail.len()) as int;
    let c = digit_of(tail[0]) as int;
    let r = digits_value(tail.drop_first()) as int;
    assert(p == 10 * q);
    lemma_pow10_positive((tail.len() - 1) as nat);
    assert(p / 2 == 5 * q);
    let x = a * p + (c * q + r) + p / 2;
    assert(x == (a * pow10(tail.len()) + digits_value(tail) + pow10(tail.len()) / 2) as int);
    if c >= 5 {
        assert(x == (a + 1) * p + ((c - 5) * q + r)) by (nonlinear_arith)
            requires
                x == a * p + (c * q + r) + p / 2,
                p == 10 * q,
                p / 2 == 5 * q,
        ;
        assert(0 <= (c - 5) * q + r < p) by (nonlinear_arith)
            requires
                5 <= c <= 9,
                0 <= r < q,
                p == 10 * q,
        ;
        vstd::arithmetic::div_mod::lemma_fundamental_div_mod_converse(x, p, a + 1int, (c - 5) * q
            + r);
    } else {
        assert(x == a * p + ((c + 5) * q + r)) by (nonlinear_arith)
            requires
                x == a * p + (c * q + r) + p / 2,
                p / 2 == 5 * q,
        ;
        assert(0 <= (c + 5) * q + r < p) by (nonlinear_arith)
            requires
                0 <= c < 5,
                0 <= r < q,
                p == 10 * q,
        ;
        vstd::arithmetic::div_mod::lemma_fundamental_div_mod_converse(x, p, a as int, (c + 5)
            * q + r);
    }
}

/// A number below a tenth of a power of ten rounds to nothing at it.
pub proof fn lemma_round_small(m: nat, j: nat)
    requires
        j >= 1,
        m < pow10((j - 1) as nat),
    ensures
        ((m + pow10(j) / 2) as int) / (pow10(j) as int) == 0,
{
    let q = pow10((j - 1) as nat) as int;
    let p = pow10(j) as int;
    assert(p == 10 * q);
    assert(p / 2 == 5 * q);
    vstd::arithmetic::div_mod::lemma_fundamental_div_mod_converse(m + p / 2, p, 0, m + p / 2);
}

/// A positive number times a power of ten is at least that power.
pub proof fn lemma_scaled_at_least(m: nat, k: nat)
    requires
        m >= 1,
    ensures
        m * pow10(k) >= pow10(k),
{
    assert(m * pow10(k) >= pow10(k)) by (nonlinear_arith)
        requires
            m >= 1,
    ;
}

} // verus!

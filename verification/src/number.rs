//! JSON numbers read exactly from their text.
//!
//! A number is `-? digits (. digits)? ([eE] [+-]? digits)?`; its value is read as an
//! exact decimal, so that truncating it, clamping it or comparing it with a bound
//! gives the answer that the exact value gives.

use vstd::prelude::*;
use vstd::arithmetic::power::{pow, lemma_pow_positive, lemma_pow_strictly_increases};
use vstd::arithmetic::div_mod::{lemma_div_denominator, lemma_basic_div, lemma_fundamental_div_mod_converse};
use vstd::arithmetic::mul::lemma_mul_inequality;
use crate::text::{is_digit, digits_value, lemma_digits_value_nonneg};

verus! {

/// The end of the run of digits that starts at `i`.
pub open spec fn digit_run_end(s: Seq<char>, i: int) -> int
    decreases s.len() - i,
{
    if 0 <= i < s.len() && is_digit(s[i]) {
        digit_run_end(s, i + 1)
    } else {
        i
    }
}

/// The number that the text `s` writes, as `(negative, m, e)`: its magnitude is
/// `m · 10^e`. Nothing when `s` is not a number.
pub open spec fn json_number(s: Seq<char>) -> Option<(bool, int, int)> {
    let negative = s.len() > 0 && s[0] == '-';
    let a: int = if negative { 1 } else { 0 };
    let i1 = digit_run_end(s, a);
    let has_fraction = i1 < s.len() && s[i1] == '.';
    let i2 = if has_fraction { digit_run_end(s, i1 + 1) } else { i1 };
    let has_exponent = i2 < s.len() && (s[i2] == 'e' || s[i2] == 'E');
    let signed = has_exponent && i2 + 1 < s.len() && (s[i2 + 1] == '+' || s[i2 + 1] == '-');
    let j = if signed { i2 + 2 } else if has_exponent { i2 + 1 } else { i2 };
    let i3 = if has_exponent { digit_run_end(s, j) } else { i2 };
    if i1 > a && (!has_fraction || i2 > i1 + 1) && (!has_exponent || i3 > j) && i3 == s.len() {
        let fraction = if has_fraction { s.subrange(i1 + 1, i2) } else { Seq::empty() };
        let magnitude = if has_exponent { digits_value(s.subrange(j, i3)) } else { 0 };
        let exponent = if signed && s[i2 + 1] == '-' { -magnitude } else { magnitude };
        Some((negative, digits_value(s.subrange(a, i1) + fraction), exponent - fraction.len()))
    } else {
        None
    }
}

/// `m · 10^p` with the fraction dropped.
pub open spec fn shifted(m: int, p: int) -> int {
    if p >= 0 {
        m * pow(10, p as nat)
    } else {
        m / pow(10, (-p) as nat)
    }
}

/// The smaller of two integers.
pub open spec fn at_most(x: int, cap: int) -> int {
    if x < cap {
        x
    } else {
        cap
    }
}

/// The number that `s` writes, as its sign and its magnitude times `10^k` with the
/// fraction dropped, held to at most `cap`.
pub open spec fn scaled_number(s: Seq<char>, k: nat, cap: int) -> Option<(bool, int)> {
    match json_number(s) {
        Some((negative, m, e)) => Some((negative, at_most(shifted(m, e + k), cap))),
        None => None,
    }
}

proof fn lemma_run(s: Seq<char>, i: int)
    requires
        0 <= i <= s.len(),
    ensures
        i <= digit_run_end(s, i) <= s.len(),
        forall|k: int| i <= k < digit_run_end(s, i) ==> is_digit(#[trigger] s[k]),
        digit_run_end(s, i) < s.len() ==> !is_digit(s[digit_run_end(s, i)]),
    decreases s.len() - i,
{
    if i < s.len() && is_digit(s[i]) {
        lemma_run(s, i + 1);
    }
}

/// The end of the run of digits that starts at `i`.
fn run_end(s: &str, n: usize, i: usize) -> (r: usize)
    requires
        n == s@.len(),
        i <= n,
    ensures
        r == digit_run_end(s@, i as int),
{
    let mut j = i;
    while j < n && is_digit_char(s.get_char(j))
        invariant
            n == s@.len(),
            i <= j <= n,
            digit_run_end(s@, i as int) == digit_run_end(s@, j as int),
        decreases n - j,
    {
        j += 1;
    }
    j
}

fn is_digit_char(c: char) -> (r: bool)
    ensures
        r == is_digit(c),
{
    '0' <= c && c <= '9'
}

proof fn lemma_digits_below(d: Seq<char>)
    requires
        forall|i: int| 0 <= i < d.len() ==> is_digit(#[trigger] d[i]),
    ensures
        0 <= digits_value(d) < pow(10, d.len()),
    decreases d.len(),
{
    reveal(pow);
    lemma_digits_value_nonneg(d);
    if d.len() > 0 {
        let rest = d.drop_last();
        lemma_digits_below(rest);
        assert(is_digit(d[d.len() - 1]));
        let v = digits_value(rest);
        let b = pow(10, rest.len());
        let r = d.last() as int - 48;
        assert(v * 10 + r < b * 10) by (nonlinear_arith)
            requires
                0 <= v < b,
                0 <= r < 10,
        ;
        assert(pow(10, d.len()) == 10 * pow(10, rest.len()));
    }
}

proof fn lemma_drop_digits(d: Seq<char>, q: nat)
    requires
        forall|i: int| 0 <= i < d.len() ==> is_digit(#[trigger] d[i]),
        q <= d.len(),
    ensures
        digits_value(d) / pow(10, q) == digits_value(d.take(d.len() - q)),
    decreases q,
{
    reveal(pow);
    lemma_digits_value_nonneg(d);
    if q == 0 {
        assert(d.take(d.len() as int) =~= d);
        assert(pow(10, 0) == 1);
    } else {
        lemma_drop_digits(d, (q - 1) as nat);
        let t = d.take(d.len() - q + 1);
        assert(t.drop_last() =~= d.take(d.len() - q));
        assert(is_digit(d[d.len() - q]));
        assert(t.last() == d[d.len() - q]);
        let v = digits_value(d.take(d.len() - q));
        let r = t.last() as int - 48;
        assert(digits_value(t) == v * 10 + r);
        lemma_fundamental_div_mod_converse(digits_value(t), 10, v, r);
        lemma_pow_positive(10, (q - 1) as nat);
        lemma_div_denominator(digits_value(d), pow(10, (q - 1) as nat), 10);
        assert(pow(10, q) == 10 * pow(10, (q - 1) as nat));
        assert(pow(10, (q - 1) as nat) * 10 == pow(10, q));
    }
}

/// Digits that drop more places than they have leave nothing.
proof fn lemma_drop_all_digits(d: Seq<char>, q: nat)
    requires
        forall|i: int| 0 <= i < d.len() ==> is_digit(#[trigger] d[i]),
        q >= d.len(),
    ensures
        digits_value(d) / pow(10, q) == 0,
{
    lemma_digits_below(d);
    if q > d.len() {
        lemma_pow_strictly_increases(10, d.len(), q);
    }
    lemma_basic_div(digits_value(d), pow(10, q));
}

/// A positive whole number shifted by twenty places or more is past any `u64`.
proof fn lemma_shift_past_u64(m: int, p: nat)
    requires
        m >= 1,
        p >= 20,
    ensures
        m * pow(10, p) > u64::MAX,
{
    assert(pow(10, 20) == 100000000000000000000int) by {
        reveal_with_fuel(pow, 21);
    }
    if p > 20 {
        lemma_pow_strictly_increases(10, 20, p);
    }
    lemma_mul_inequality(1, m, pow(10, p));
}

/// The digits `digits[..count]` as a number, held to at most `cap`.
fn accumulate(digits: &Vec<char>, count: usize, cap: u128) -> (r: u128)
    requires
        forall|i: int| 0 <= i < digits@.len() ==> is_digit(#[trigger] digits@[i]),
        count <= digits@.len(),
        cap <= 0x1_0000_0000_0000_0000_0000_0000_0000u128,
    ensures
        r == at_most(digits_value(digits@.take(count as int)), cap as int),
{
    let mut acc: u128 = 0;
    let mut t: usize = 0;
    assert(digits@.take(0) =~= Seq::<char>::empty());
    while t < count
        invariant
            forall|i: int| 0 <= i < digits@.len() ==> is_digit(#[trigger] digits@[i]),
            count <= digits@.len(),
            cap <= 0x1_0000_0000_0000_0000_0000_0000_0000u128,
            t <= count,
            acc == at_most(digits_value(digits@.take(t as int)), cap as int),
        decreases count - t,
    {
        let c = digits[t];
        assert(is_digit(digits@[t as int]));
        let d: u128 = (c as u32 - 48) as u128;
        proof {
            assert(digits@.take(t + 1).drop_last() =~= digits@.take(t as int));
            assert(digits@.take(t + 1).last() == c);
            lemma_digits_value_nonneg(digits@.take(t as int));
        }
        let next = acc * 10 + d;
        acc = if next < cap { next } else { cap };
        t += 1;
    }
    acc
}

/// The parts of a number's text: its sign, its significant digits (integer part then
/// fraction), how many of them are the fraction, and its exponent's sign and digits.
struct NumberParts {
    negative: bool,
    digits: Vec<char>,
    fraction_len: usize,
    exponent_negative: bool,
    exponent_digits: Vec<char>,
}

/// The value, as `m · 10^e`, that the parts denote.
spec fn parts_value(p: NumberParts) -> (bool, int, int) {
    let magnitude = digits_value(p.exponent_digits@);
    (
        p.negative,
        digits_value(p.digits@),
        (if p.exponent_negative { -magnitude } else { magnitude }) - p.fraction_len,
    )
}

/// Splits the text of a number into its parts.
fn number_parts(s: &str) -> (r: Option<NumberParts>)
    ensures
        r is None ==> json_number(s@) is None,
        r matches Some(p) ==> {
            &&& json_number(s@) == Some(parts_value(p))
            &&& forall|i: int| 0 <= i < p.digits@.len() ==> is_digit(#[trigger] p.digits@[i])
            &&& forall|i: int| 0 <= i < p.exponent_digits@.len() ==> is_digit(#[trigger] p.exponent_digits@[i])
            &&& p.digits@.len() <= s@.len()
            &&& p.fraction_len <= s@.len()
        },
{
    let ghost sv = s@;
    let n = s.unicode_len();
    let negative = n > 0 && s.get_char(0) == '-';
    let a: usize = if negative { 1 } else { 0 };
    let i1 = run_end(s, n, a);
    proof { lemma_run(sv, a as int); }
    if i1 == a {
        return None;
    }
    let has_fraction = i1 < n && s.get_char(i1) == '.';
    let i2 = if has_fraction { run_end(s, n, i1 + 1) } else { i1 };
    proof { if has_fraction { lemma_run(sv, i1 + 1); } }
    if has_fraction && i2 == i1 + 1 {
        return None;
    }
    let has_exponent = i2 < n && (s.get_char(i2) == 'e' || s.get_char(i2) == 'E');
    let signed = has_exponent && i2 + 1 < n && (s.get_char(i2 + 1) == '+' || s.get_char(i2 + 1) == '-');
    let exponent_negative = signed && s.get_char(i2 + 1) == '-';
    let j = if signed { i2 + 2 } else if has_exponent { i2 + 1 } else { i2 };
    let i3 = if has_exponent { run_end(s, n, j) } else { i2 };
    proof { if has_exponent { lemma_run(sv, j as int); } }
    if has_exponent && i3 == j {
        return None;
    }
    if i3 != n {
        return None;
    }
    let mut digits: Vec<char> = Vec::new();
    let mut t = a;
    while t < i1
        invariant
            sv == s@,
            n == sv.len(),
            a <= t <= i1 <= n,
            forall|q: int| a <= q < i1 ==> is_digit(#[trigger] sv[q]),
            digits@ =~= sv.subrange(a as int, t as int),
        decreases i1 - t,
    {
        digits.push(s.get_char(t));
        t += 1;
    }
    let ghost fraction = if has_fraction { sv.subrange(i1 + 1, i2 as int) } else { Seq::<char>::empty() };
    if has_fraction {
        let mut t = i1 + 1;
        while t < i2
            invariant
                sv == s@,
                n == sv.len(),
                a <= i1,
                i1 + 1 <= t <= i2 <= n,
                forall|q: int| i1 + 1 <= q < i2 ==> is_digit(#[trigger] sv[q]),
                digits@ =~= sv.subrange(a as int, i1 as int) + sv.subrange(i1 + 1, t as int),
            decreases i2 - t,
        {
            digits.push(s.get_char(t));
            t += 1;
        }
    }
    assert(digits@ =~= sv.subrange(a as int, i1 as int) + fraction);
    let fraction_len: usize = if has_fraction { i2 - i1 - 1 } else { 0 };
    let mut exponent_digits: Vec<char> = Vec::new();
    if has_exponent {
        let mut t = j;
        while t < i3
            invariant
                sv == s@,
                n == sv.len(),
                j <= t <= i3 <= n,
                forall|q: int| j <= q < i3 ==> is_digit(#[trigger] sv[q]),
                exponent_digits@ =~= sv.subrange(j as int, t as int),
            decreases i3 - t,
        {
            exponent_digits.push(s.get_char(t));
            t += 1;
        }
    }
    let parts = NumberParts { negative, digits, fraction_len, exponent_negative, exponent_digits };
    proof {
        if !has_exponent {
            assert(parts.exponent_digits@ =~= Seq::<char>::empty());
        }
        assert forall|i: int| 0 <= i < parts.digits@.len() implies is_digit(#[trigger] parts.digits@[i]) by {
            if i < i1 - a {
                assert(parts.digits@[i] == sv[a + i]);
            } else {
                assert(parts.digits@[i] == sv[i1 + 1 + (i - (i1 - a))]);
            }
        }
    }
    Some(parts)
}

/// `digits` as a number, times `10^p`, held to at most `cap`.
fn shift_up(digits: &Vec<char>, p: u128, cap: u128) -> (r: u128)
    requires
        forall|i: int| 0 <= i < digits@.len() ==> is_digit(#[trigger] digits@[i]),
        cap <= u64::MAX,
    ensures
        r == at_most(digits_value(digits@) * pow(10, p as nat), cap as int),
{
    let ghost m = digits_value(digits@);
    proof { lemma_digits_value_nonneg(digits@); }
    let mut acc = accumulate(digits, digits.len(), cap);
    assert(digits@.take(digits@.len() as int) =~= digits@);
    let mut i: u128 = 0;
    proof {
        reveal(pow);
        assert(m * pow(10, 0) == m);
    }
    while i < p && acc > 0 && acc < cap
        invariant
            m >= 0,
            cap <= u64::MAX,
            i <= p,
            acc == at_most(m * pow(10, i as nat), cap as int),
        decreases p - i,
    {
        proof {
            reveal(pow);
            assert(pow(10, (i + 1) as nat) == 10 * pow(10, i as nat));
            vstd::arithmetic::mul::lemma_mul_is_associative(m, pow(10, i as nat), 10);
            lemma_pow_positive(10, i as nat);
            lemma_mul_inequality(0, m, pow(10, i as nat));
        }
        acc = if acc * 10 < cap { acc * 10 } else { cap };
        i += 1;
    }
    proof {
        let pi = pow(10, i as nat);
        let pp = pow(10, p as nat);
        lemma_pow_positive(10, i as nat);
        lemma_pow_positive(10, p as nat);
        if i < p {
            lemma_pow_strictly_increases(10, i as nat, p as nat);
        }
        assert(0 <= m * pi <= m * pp) by (nonlinear_arith)
            requires
                m >= 0,
                0 < pi <= pp,
        ;
        assert(m > 0 ==> m * pi > 0) by (nonlinear_arith)
            requires
                pi > 0,
        ;
        if i == p {
            assert(acc == at_most(m * pp, cap as int));
        } else if acc == 0 {
            assert(m * pp >= 0);
            if cap > 0 {
                assert(m * pi == 0);
                assert(m == 0);
                assert(m * pp == 0) by (nonlinear_arith)
                    requires
                        m == 0,
                ;
            }
            assert(acc == at_most(m * pp, cap as int));
        } else {
            assert(acc >= cap);
            assert(acc == at_most(m * pp, cap as int));
        }
    }
    acc
}

/// `digits` as a number, divided by `10^q` with the fraction dropped, held to at most
/// `cap`.
fn shift_down(digits: &Vec<char>, q: u128, cap: u128) -> (r: u128)
    requires
        forall|i: int| 0 <= i < digits@.len() ==> is_digit(#[trigger] digits@[i]),
        cap <= u64::MAX,
    ensures
        r == at_most(digits_value(digits@) / pow(10, q as nat), cap as int),
{
    let len = digits.len();
    let take: usize = if q >= len as u128 { 0 } else { len - q as usize };
    let acc = accumulate(digits, take, cap);
    proof {
        if q >= len as u128 {
            lemma_drop_all_digits(digits@, q as nat);
            assert(digits@.take(0) =~= Seq::<char>::empty());
        } else {
            lemma_drop_digits(digits@, q as nat);
        }
    }
    acc
}

/// The number that `s` writes, as its sign and its magnitude times `10^k` with the
/// fraction dropped, held to at most `cap`; nothing when `s` is not a number.
pub fn read_scaled(s: &str, k: u32, cap: u128) -> (r: Option<(bool, u128)>)
    requires
        k <= 100,
        cap <= u64::MAX,
    ensures
        r matches Some((negative, v)) ==> scaled_number(s@, k as nat, cap as int) == Some((negative, v as int)),
        r is None ==> scaled_number(s@, k as nat, cap as int) is None,
{
    let parts = match number_parts(s) {
        Some(parts) => parts,
        None => return None,
    };
    let ghost (neg, m, e) = parts_value(parts);
    let e_cap: u128 = 0x10_0000_0000_0000_0000_0000_0000u128;
    let mag = accumulate(&parts.exponent_digits, parts.exponent_digits.len(), e_cap);
    proof {
        assert(parts.exponent_digits@.take(parts.exponent_digits@.len() as int) =~= parts.exponent_digits@);
        lemma_digits_value_nonneg(parts.exponent_digits@);
        lemma_digits_value_nonneg(parts.digits@);
    }
    let len = parts.digits.len();
    let fraction_len = parts.fraction_len;
    let p: i128 = (if parts.exponent_negative { -(mag as i128) } else { mag as i128 })
        - fraction_len as i128 + k as i128;
    let ghost p_true = e + k;
    let ghost magnitude = digits_value(parts.exponent_digits@);
    proof {
        if magnitude < e_cap {
            assert(p == p_true);
        } else {
            assert(mag == e_cap);
            if parts.exponent_negative {
                assert(p_true <= p);
                assert(-p > len);
            } else {
                assert(p_true >= p);
                assert(p >= 20);
            }
        }
    }
    if p >= 0 {
        let v = shift_up(&parts.digits, p as u128, cap);
        proof {
            if p_true != p && m >= 1 {
                lemma_shift_past_u64(m, p_true as nat);
                lemma_shift_past_u64(m, p as nat);
            }
            if p_true != p && m == 0 {
                assert(m * pow(10, p_true as nat) == 0);
                assert(m * pow(10, p as nat) == 0);
            }
            assert(v == at_most(shifted(m, p_true), cap as int));
            assert(json_number(s@) == Some((neg, m, e)));
        }
        Some((parts.negative, v))
    } else {
        let v = shift_down(&parts.digits, (-p) as u128, cap);
        proof {
            if p_true != p {
                lemma_drop_all_digits(parts.digits@, (-p_true) as nat);
                lemma_drop_all_digits(parts.digits@, (-p) as nat);
            }
            assert(v == at_most(shifted(m, p_true), cap as int));
        }
        Some((parts.negative, v))
    }
}

/// What a number reads as, scaled and held to `cap`, lies in `0..=cap`.
pub proof fn lemma_scaled_in_range(s: Seq<char>, k: nat, cap: int)
    requires
        cap >= 0,
    ensures
        scaled_number(s, k, cap) matches Some((_, v)) ==> 0 <= v <= cap,
{
    if let Some((negative, m, e)) = json_number(s) {
        let a: int = if negative { 1 } else { 0 };
        let i1 = digit_run_end(s, a);
        lemma_run(s, a);
        let has_fraction = i1 < s.len() && s[i1] == '.';
        let i2 = if has_fraction { digit_run_end(s, i1 + 1) } else { i1 };
        if has_fraction {
            lemma_run(s, i1 + 1);
        }
        let fraction = if has_fraction { s.subrange(i1 + 1, i2) } else { Seq::empty() };
        let d = s.subrange(a, i1) + fraction;
        assert forall|i: int| 0 <= i < d.len() implies is_digit(#[trigger] d[i]) by {
            if i < i1 - a {
                assert(d[i] == s[a + i]);
            } else {
                assert(d[i] == s[i1 + 1 + (i - (i1 - a))]);
            }
        }
        lemma_digits_value_nonneg(d);
        assert(m >= 0);
        let p = e + k;
        if p >= 0 {
            lemma_pow_positive(10, p as nat);
            lemma_mul_inequality(0, m, pow(10, p as nat));
        } else {
            lemma_pow_positive(10, (-p) as nat);
            vstd::arithmetic::div_mod::lemma_div_pos_is_pos(m, pow(10, (-p) as nat));
        }
    }
}

} // verus!

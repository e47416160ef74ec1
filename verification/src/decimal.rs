//! Decimal numbers as the files state them.
//!
//! A numeric field holds at most 19 columns, so its value is a sign, at most 19 digits and a
//! power of ten, and is held as exactly that.

use vstd::prelude::*;

use crate::binary::{
    double_of, double_words, is_rounded_up, lemma_rounds_integer, rounds_up, there_and_back,
    there_and_back_words,
};
use crate::text::{lemma_utf8_ascii, push, trim, trim_of, utf8};

verus! {

/// A decimal number: `digits` times ten to the `exponent`, negated where `negative`.
///
/// The constructors give every number one form: no trailing zero digit, and zero as no digits,
/// no exponent and no sign. Two numbers in that form are equal exactly where they are the same
/// number.
#[derive(Debug, Clone, Copy, PartialEq, Eq, Structural)]
pub struct Decimal {
    /// Whether the number is below zero.
    pub negative: bool,
    /// The digits, as an integer.
    pub digits: u128,
    /// The power of ten of the last digit.
    pub exponent: i32,
}

/// Ten to the `n`.
pub open spec fn pow10(n: nat) -> nat
    decreases n,
{
    if n == 0 {
        1
    } else {
        10 * pow10((n - 1) as nat)
    }
}

/// The number of decimal digits of `n`, 1 for zero.
pub open spec fn digit_count(n: nat) -> nat
    decreases n,
{
    if n < 10 {
        1
    } else {
        1 + digit_count(n / 10)
    }
}

/// Whether a byte is a decimal digit.
pub open spec fn digit(b: u8) -> bool {
    48 <= b <= 57
}

/// The first position at or after `i` that holds no digit.
pub open spec fn digit_run(b: Seq<u8>, i: int) -> int
    decreases b.len() - i,
{
    if 0 <= i < b.len() && digit(b[i]) {
        digit_run(b, i + 1)
    } else {
        i
    }
}

/// The number a text of digits states.
pub open spec fn natural(b: Seq<u8>) -> nat
    decreases b.len(),
{
    if b.len() == 0 {
        0
    } else {
        natural(b.drop_last()) * 10 + (b.last() - 48) as nat
    }
}

/// `digits` times ten to the `exponent` with the trailing zeros moved to the exponent.
pub open spec fn strip_zeros(digits: nat, exponent: int) -> (nat, int)
    decreases digits,
{
    if digits > 0 && digits % 10 == 0 {
        strip_zeros(digits / 10, exponent + 1)
    } else {
        (digits, exponent)
    }
}

/// The number zero.
pub open spec fn zero() -> Decimal {
    Decimal { negative: false, digits: 0, exponent: 0 }
}

/// The power of ten of the first digit.
pub open spec fn leading_exponent(digits: nat, exponent: int) -> int {
    exponent + digit_count(digits) - 1
}

/// The first nineteen digits of a number of at most nineteen digits.
pub open spec fn leading_19(digits: nat) -> nat {
    digits * pow10((19 - digit_count(digits)) as nat)
}

/// Whether a non-zero magnitude of at most nineteen digits is too small for a double to tell
/// from zero: at most half of the smallest double, 2.470328229206232720...e-324.
pub open spec fn below_doubles(digits: nat, exponent: int) -> bool {
    let lead = leading_exponent(digits, exponent);
    lead < -324 || (lead == -324 && leading_19(digits) <= 2470328229206232720)
}

/// Whether a magnitude of at most nineteen digits is too large for a double: it rounds past the
/// largest double, from 1.7976931348623158079...e308 on.
pub open spec fn above_doubles(digits: nat, exponent: int) -> bool {
    let lead = leading_exponent(digits, exponent);
    lead > 308 || (lead == 308 && leading_19(digits) > 1797693134862315807)
}

/// The number `digits` times ten to the `exponent`, within the range of finite doubles: a
/// magnitude above it is no number, one below it is zero.
#[verifier::opaque]
pub open spec fn in_double_range(negative: bool, digits: nat, exponent: int) -> Option<Decimal> {
    let (d, e) = strip_zeros(digits, exponent);
    if d == 0 || below_doubles(d, e) {
        Some(zero())
    } else if above_doubles(d, e) {
        None
    } else {
        Some(Decimal { negative, digits: d as u128, exponent: e as i32 })
    }
}

/// Whether a byte marks an exponent: `e` or `E`, or the Fortran `d` or `D`.
pub open spec fn exponent_mark(b: u8) -> bool {
    b == 101 || b == 69 || b == 100 || b == 68
}

/// Whether a byte is `+` or `-`.
pub open spec fn sign_byte(b: u8) -> bool {
    b == 43 || b == 45
}

/// The power of ten the text from `j` on states: none for the end of the text, or an exponent
/// mark, an optional sign and digits up to the end of the text.
pub open spec fn exponent_part(b: Seq<u8>, j: int) -> Option<int> {
    let n = b.len() as int;
    let es: int = if j + 1 < n && sign_byte(b[j + 1]) { j + 2 } else { j + 1 };
    let k = digit_run(b, es);
    let power = natural(b.subrange(es, k)) as int;
    if j == n {
        Some(0)
    } else if !exponent_mark(b[j]) || k == es || k != n {
        None
    } else if b[j + 1] == 45 {
        Some(-power)
    } else {
        Some(power)
    }
}

/// The number a text states: an optional sign, digits with at most one point among them, and an
/// optional exponent. Nothing else may stand in the text.
#[verifier::opaque]
pub open spec fn number(b: Seq<u8>) -> Option<Decimal> {
    let n = b.len() as int;
    let s: int = if n > 0 && sign_byte(b[0]) { 1 } else { 0 };
    let i = digit_run(b, s);
    let f = if i < n && b[i] == 46 { i + 1 } else { i };
    let j = digit_run(b, f);
    if i - s + (j - f) == 0 {
        None
    } else {
        match exponent_part(b, j) {
            None => None,
            Some(power) => in_double_range(
                n > 0 && b[0] == 45,
                natural(b.subrange(s, i) + b.subrange(f, j)),
                power + (f - j),
            ),
        }
    }
}

/// A run of digits ends at or after its start, within the text, and holds digits only.
pub proof fn lemma_digit_run(b: Seq<u8>, i: int)
    requires
        0 <= i <= b.len(),
    ensures
        i <= digit_run(b, i) <= b.len(),
        forall|k: int| i <= k < digit_run(b, i) ==> digit(#[trigger] b[k]),
        digit_run(b, i) < b.len() ==> !digit(b[digit_run(b, i)]),
    decreases b.len() - i,
{
    if i < b.len() && digit(b[i]) {
        lemma_digit_run(b, i + 1);
    }
}

/// A text of `k` digits states a number below ten to the `k`.
pub proof fn lemma_natural_bound(b: Seq<u8>)
    requires
        forall|k: int| 0 <= k < b.len() ==> digit(#[trigger] b[k]),
    ensures
        natural(b) < pow10(b.len()),
    decreases b.len(),
{
    if b.len() > 0 {
        lemma_natural_bound(b.drop_last());
    }
}

/// Powers of ten grow.
pub proof fn lemma_pow10_monotone(a: nat, b: nat)
    requires
        a <= b,
    ensures
        1 <= pow10(a) <= pow10(b),
    decreases b,
{
    if a < b {
        lemma_pow10_monotone(a, (b - 1) as nat);
    } else if a > 0 {
        lemma_pow10_monotone((a - 1) as nat, (b - 1) as nat);
    }
}

/// Powers of ten multiply by adding their exponents.
pub proof fn lemma_pow10_add(a: nat, b: nat)
    ensures
        pow10(a + b) == pow10(a) * pow10(b),
    decreases a,
{
    if a == 0 {
        assert(1 * pow10(b) == pow10(b));
    } else {
        lemma_pow10_add((a - 1) as nat, b);
        assert((a + b - 1) as nat == (a - 1) as nat + b);
        assert(10 * (pow10((a - 1) as nat) * pow10(b)) == (10 * pow10((a - 1) as nat)) * pow10(b))
            by (nonlinear_arith);
    }
}

/// The powers of ten a machine word holds.
pub proof fn lemma_pow10_values()
    ensures
        pow10(0) == 1,
        pow10(1) == 10,
        pow10(2) == 100,
        pow10(3) == 1000,
        pow10(4) == 10000,
        pow10(6) == 1000000,
        pow10(12) == 1000000000000,
        pow10(13) == 10000000000000,
        pow10(18) == 1000000000000000000,
        pow10(19) == 10000000000000000000,
        pow10(20) == 100000000000000000000,
        pow10(30) == 1000000000000000000000000000000,
        pow10(38) == 100000000000000000000000000000000000000,
{
    reveal_with_fuel(pow10, 21);
    assert(pow10(30) == pow10(20) * pow10(10)) by {
        lemma_pow10_add(20, 10);
    }
    assert(pow10(38) == pow10(20) * pow10(18)) by {
        lemma_pow10_add(20, 18);
    }
}

/// A positive number of `n` digits lies from ten to the `n - 1` to below ten to the `n`.
pub proof fn lemma_digit_count(n: nat)
    ensures
        digit_count(n) >= 1,
        n < pow10(digit_count(n)),
        n > 0 ==> pow10((digit_count(n) - 1) as nat) <= n,
    decreases n,
{
    if n >= 10 {
        lemma_digit_count(n / 10);
        let c = digit_count(n / 10);
        assert(pow10((c + 1) as nat) == 10 * pow10(c));
        assert(pow10(c) == 10 * pow10((c - 1) as nat));
    } else {
        assert(pow10(1) == 10) by {
            reveal_with_fuel(pow10, 2);
        }
    }
}

/// A number between two powers of ten has as many digits as the upper one has zeros.
pub proof fn lemma_digit_count_between(n: nat, c: nat)
    requires
        c >= 1,
        n < pow10(c),
        n > 0,
        pow10((c - 1) as nat) <= n,
    ensures
        digit_count(n) == c,
{
    lemma_digit_count(n);
    let k = digit_count(n);
    if k < c {
        lemma_pow10_monotone(k, (c - 1) as nat);
    } else if k > c {
        lemma_pow10_monotone(c, (k - 1) as nat);
    }
}

/// Stripping zeros keeps the number: fewer digits, none added.
pub proof fn lemma_strip_zeros(digits: nat, exponent: int)
    ensures
        strip_zeros(digits, exponent).0 <= digits,
        digits > 0 ==> strip_zeros(digits, exponent).0 > 0,
        digits == 0 ==> strip_zeros(digits, exponent) == (0nat, exponent),
        exponent <= strip_zeros(digits, exponent).1,
        digits > 0 ==> strip_zeros(digits, exponent).0 % 10 != 0,
        digits > 0 ==> leading_exponent(
            strip_zeros(digits, exponent).0,
            strip_zeros(digits, exponent).1,
        ) == leading_exponent(digits, exponent),
    decreases digits,
{
    if digits > 0 && digits % 10 == 0 {
        lemma_strip_zeros(digits / 10, exponent + 1);
    }
}

/// Ten to the `n`.
pub fn power_of_ten(n: u32) -> (r: u128)
    requires
        n <= 38,
    ensures
        r == pow10(n as nat),
{
    let mut r: u128 = 1;
    let mut i: u32 = 0;
    proof {
        lemma_pow10_values();
    }
    while i < n
        invariant
            i <= n <= 38,
            r == pow10(i as nat),
            pow10(38) == 100000000000000000000000000000000000000,
        decreases n - i,
    {
        proof {
            lemma_pow10_monotone((i + 1) as nat, 38);
        }
        assert(pow10((i + 1) as nat) == 10 * pow10(i as nat));
        r = r * 10;
        i = i + 1;
    }
    r
}

/// The number of decimal digits of `n`, 1 for zero.
pub fn count_digits(n: u128) -> (c: u32)
    ensures
        c == digit_count(n as nat),
        1 <= c <= 39,
{
    let mut c: u32 = 1;
    let mut m: u128 = n;
    proof {
        lemma_digit_count(n as nat);
        lemma_pow10_values();
        assert(pow10(39) == 10 * pow10(38));
        if digit_count(n as nat) > 39 {
            lemma_pow10_monotone(39, (digit_count(n as nat) - 1) as nat);
        }
    }
    while m >= 10
        invariant
            c + digit_count(m as nat) == digit_count(n as nat) + 1,
            digit_count(n as nat) <= 39,
            c >= 1,
        decreases m,
    {
        proof {
            lemma_digit_count((m / 10) as nat);
        }
        m = m / 10;
        c = c + 1;
    }
    c
}

/// The first position at or after `i` of `b` that holds no digit.
pub fn digits_end(b: &[u8], i: usize) -> (r: usize)
    requires
        i <= b@.len(),
    ensures
        r == digit_run(b@, i as int),
        i <= r <= b@.len(),
        forall|k: int| i <= k < r ==> digit(#[trigger] b@[k]),
{
    let mut r: usize = i;
    while r < b.len() && 48 <= b[r] && b[r] <= 57
        invariant
            i <= r <= b@.len(),
            digit_run(b@, r as int) == digit_run(b@, i as int),
            forall|k: int| i <= k < r ==> digit(#[trigger] b@[k]),
        decreases b@.len() - r,
    {
        r = r + 1;
    }
    r
}

/// `value` followed by the digits `from..to` of `b`.
fn append_digits(b: &[u8], value: u128, Ghost(before): Ghost<Seq<u8>>, from: usize, to: usize) -> (r:
    u128)
    requires
        from <= to <= b@.len(),
        forall|k: int| from <= k < to ==> digit(#[trigger] b@[k]),
        forall|k: int| 0 <= k < before.len() ==> digit(#[trigger] before[k]),
        value == natural(before),
        before.len() + (to - from) <= 38,
    ensures
        r == natural(before + b@.subrange(from as int, to as int)),
        r < pow10((before.len() + (to - from)) as nat),
{
    let mut r: u128 = value;
    let mut i: usize = from;
    assert(before + b@.subrange(from as int, from as int) =~= before);
    while i < to
        invariant
            from <= i <= to <= b@.len(),
            forall|k: int| from <= k < to ==> digit(#[trigger] b@[k]),
            forall|k: int| 0 <= k < before.len() ==> digit(#[trigger] before[k]),
            r == natural(before + b@.subrange(from as int, i as int)),
            before.len() + (to - from) <= 38,
        decreases to - i,
    {
        proof {
            let cur = before + b@.subrange(from as int, i as int);
            let next = before + b@.subrange(from as int, i + 1);
            assert(next.drop_last() =~= cur);
            assert(next.last() == b@[i as int]);
            assert forall|k: int| 0 <= k < next.len() implies digit(#[trigger] next[k]) by {
                if k >= before.len() {
                    assert(next[k] == b@[from + (k - before.len())]);
                }
            }
            lemma_natural_bound(next);
            lemma_pow10_monotone(next.len(), 38);
            lemma_pow10_values();
        }
        r = r * 10 + (b[i] - 48) as u128;
        i = i + 1;
    }
    proof {
        let all = before + b@.subrange(from as int, to as int);
        assert forall|k: int| 0 <= k < all.len() implies digit(#[trigger] all[k]) by {
            if k >= before.len() {
                assert(all[k] == b@[from + (k - before.len())]);
            }
        }
        lemma_natural_bound(all);
    }
    r
}

/// The number `digits` times ten to the `exponent`, within the range of finite doubles.
fn to_double_range(negative: bool, digits: u128, exponent: i64) -> (r: Option<Decimal>)
    requires
        digits < pow10(19),
        -2000000000000000000 <= exponent <= 2000000000000000000,
    ensures
        r == in_double_range(negative, digits as nat, exponent as int),
        r matches Some(d) ==> d.wf(),
{
    proof {
        reveal(in_double_range);
        lemma_pow10_values();
        lemma_strip_zeros(digits as nat, exponent as int);
    }
    let mut d: u128 = digits;
    let mut e: i64 = exponent;
    let mut steps: u32 = 0;
    while d > 0 && d % 10 == 0
        invariant
            d <= digits,
            digits > 0 ==> d > 0,
            steps <= 19,
            e == exponent + steps,
            -2000000000000000000 <= exponent <= 2000000000000000000,
            d * pow10(steps as nat) <= digits,
            digits < pow10(19),
            strip_zeros(d as nat, e as int) == strip_zeros(digits as nat, exponent as int),
        decreases d,
    {
        proof {
            let p = pow10(steps as nat);
            assert(pow10((steps + 1) as nat) == 10 * p);
            assert((d / 10) * (10 * p) == d * p) by (nonlinear_arith)
                requires
                    d % 10 == 0,
            ;
            if steps >= 19 {
                lemma_pow10_monotone(19, steps as nat);
                assert(d * p >= p) by (nonlinear_arith)
                    requires
                        d >= 1,
                        p >= 0,
                ;
            }
        }
        d = d / 10;
        e = e + 1;
        steps = steps + 1;
    }
    if d == 0 {
        return Some(Decimal { negative: false, digits: 0, exponent: 0 });
    }
    let n: u32 = count_digits(d);
    proof {
        lemma_digit_count(d as nat);
        if n > 19 {
            lemma_pow10_monotone(19, (n - 1) as nat);
        }
    }
    let lead: i64 = e + n as i64 - 1;
    proof {
        lemma_pow10_add((19 - n) as nat, n as nat);
        let q = pow10((19 - n) as nat);
        assert(d * q <= q * pow10(n as nat)) by (nonlinear_arith)
            requires
                d <= pow10(n as nat),
                q >= 0,
        ;
    }
    let top: u128 = d * power_of_ten(19 - n);
    if lead < -324 || (lead == -324 && top <= 2470328229206232720) {
        return Some(Decimal { negative: false, digits: 0, exponent: 0 });
    }
    if lead > 308 || (lead == 308 && top > 1797693134862315807) {
        return None;
    }
    Some(Decimal { negative, digits: d, exponent: e as i32 })
}

impl Decimal {
    /// The one form the constructors give a number read from a field of at most nineteen
    /// columns.
    pub open spec fn wf(self) -> bool {
        &&& self.digits < pow10(19)
        &&& -400 <= self.exponent <= 400
        &&& self.digits == 0 ==> self == zero()
        &&& self.digits > 0 ==> self.digits % 10 != 0
    }
}

/// Nothing before a text leaves the text.
proof fn lemma_empty_prefix(b: Seq<u8>)
    ensures
        Seq::<u8>::empty() + b == b,
        natural(Seq::<u8>::empty()) == 0,
{
    assert(Seq::<u8>::empty() + b =~= b);
}

/// The number the digits `from..to` of `b` state.
pub fn natural_at(b: &[u8], from: usize, to: usize) -> (r: u128)
    requires
        from <= to <= b@.len(),
        to - from <= 38,
        forall|k: int| from <= k < to ==> digit(#[trigger] b@[k]),
    ensures
        r == natural(b@.subrange(from as int, to as int)),
{
    proof {
        lemma_empty_prefix(b@.subrange(from as int, to as int));
    }
    append_digits(b, 0, Ghost(Seq::empty()), from, to)
}

/// The power of ten the text from `j` on states (see [`exponent_part`]).
fn read_exponent(b: &[u8], j: usize) -> (r: Option<i64>)
    requires
        j <= b@.len() <= 19,
    ensures
        exponent_part(b@, j as int) is Some == r is Some,
        r matches Some(p) ==> exponent_part(b@, j as int) == Some(p as int) && -1000000000000000000
            <= p <= 1000000000000000000,
{
    let n: usize = b.len();
    if j == n {
        return Some(0);
    }
    let es: usize = if j + 1 < n && (b[j + 1] == 43 || b[j + 1] == 45) {
        j + 2
    } else {
        j + 1
    };
    let mark: u8 = b[j];
    let k: usize = digits_end(b, es);
    if !(mark == 101 || mark == 69 || mark == 100 || mark == 68) || k == es || k != n {
        return None;
    }
    proof {
        lemma_empty_prefix(b@.subrange(es as int, k as int));
        lemma_pow10_monotone((k - es) as nat, 18);
        lemma_pow10_values();
    }
    let power: u128 = append_digits(b, 0, Ghost(Seq::empty()), es, k);
    if b[j + 1] == 45 {
        Some(-(power as i64))
    } else {
        Some(power as i64)
    }
}

/// The number the text `b` states (see [`number`]).
fn read_number(b: &[u8]) -> (r: Option<Decimal>)
    requires
        b@.len() <= 19,
    ensures
        r == number(b@),
        r matches Some(d) ==> d.wf(),
{
    proof {
        reveal(number);
    }
    let n: usize = b.len();
    let s: usize = if n > 0 && (b[0] == 43 || b[0] == 45) {
        1
    } else {
        0
    };
    let i: usize = digits_end(b, s);
    let f: usize = if i < n && b[i] == 46 {
        i + 1
    } else {
        i
    };
    let j: usize = digits_end(b, f);
    if i - s + (j - f) == 0 {
        return None;
    }
    proof {
        lemma_empty_prefix(b@.subrange(s as int, i as int));
        lemma_pow10_monotone((i - s + (j - f)) as nat, 19);
    }
    let whole: u128 = append_digits(b, 0, Ghost(Seq::empty()), s, i);
    let digits: u128 = append_digits(b, whole, Ghost(b@.subrange(s as int, i as int)), f, j);
    match read_exponent(b, j) {
        None => None,
        Some(power) => to_double_range(
            n > 0 && b[0] == 45,
            digits,
            power + (f as i64 - j as i64),
        ),
    }
}

/// `n` divided by `unit`, rounded to the nearest integer, halves to the even one.
pub open spec fn round_half_even(n: nat, unit: nat) -> nat {
    let q = n / unit;
    let r = n % unit;
    if 2 * r < unit || (2 * r == unit && q % 2 == 0) {
        q
    } else {
        q + 1
    }
}

/// A positive number rounded to `p` significant digits, as those digits and their power of ten.
pub open spec fn significand(digits: nat, exponent: int, p: nat) -> (nat, int) {
    let c = digit_count(digits);
    if c <= p {
        (digits * pow10((p - c) as nat), exponent - (p - c))
    } else {
        let q = round_half_even(digits, pow10((c - p) as nat));
        let e = exponent + (c - p);
        if q == pow10(p) {
            (pow10((p - 1) as nat), e + 1)
        } else {
            (q, e)
        }
    }
}

/// The double that stands for a number, in units of 2^-1074: the nearest one, and for a coordinate
/// in kilometers, which is held in meters, that times 1000 and divided by 1000.
pub open spec fn held_double(digits: nat, exponent: int, kilometers: bool) -> nat {
    if kilometers {
        there_and_back(double_of(digits, exponent))
    } else {
        double_of(digits, exponent)
    }
}

/// A positive number written in `p` significant digits, as those digits and their power of ten. A
/// number of more digits is rounded as the double that stands for it: up where the double is above
/// the middle, and at the middle to an even digit. Numbers that no double is near keep the
/// rounding of their own digits.
pub open spec fn formatted(digits: nat, exponent: int, p: nat, kilometers: bool) -> (nat, int) {
    let c = digit_count(digits);
    if c <= p || exponent < -500 || exponent > 500 {
        significand(digits, exponent, p)
    } else {
        let e = exponent + (c - p);
        let whole = digits / pow10((c - p) as nat);
        let q = if rounds_up(held_double(digits, exponent, kilometers), whole, e) {
            whole + 1
        } else {
            whole
        };
        if q == pow10(p) {
            (pow10((p - 1) as nat), e + 1)
        } else {
            (q, e)
        }
    }
}

/// The power of ten of the first digit of a number written in `p` significant digits; 0 for zero.
pub open spec fn rounded_exponent(digits: nat, exponent: int, p: nat) -> int {
    if digits == 0 {
        0
    } else {
        formatted(digits, exponent, p, false).1 + (p - 1)
    }
}

/// The last `width` digits of `n`.
pub open spec fn digits_text(n: nat, width: nat) -> Seq<u8>
    decreases width,
{
    if width == 0 {
        Seq::empty()
    } else {
        digits_text(n / 10, (width - 1) as nat).push((48 + n % 10) as u8)
    }
}

/// The magnitude of `x`.
pub open spec fn magnitude(x: int) -> nat {
    (if x < 0 {
        -x
    } else {
        x
    }) as nat
}

/// An exponent: `e`, a sign and at least two digits.
pub open spec fn exponent_text(x: int) -> Seq<u8> {
    let m = magnitude(x);
    let width = if digit_count(m) < 2 { 2 } else { digit_count(m) };
    seq![101u8, if x < 0 { 45u8 } else { 43u8 }] + digits_text(m, width)
}

/// A magnitude in scientific form: one digit, a point, `decimals` digits and the exponent.
pub open spec fn scientific_text(m: nat, x: int, decimals: nat) -> Seq<u8> {
    let t = digits_text(m, decimals + 1);
    t.subrange(0, 1) + seq![46u8] + t.subrange(1, t.len() as int) + exponent_text(x)
}

/// A magnitude in scientific form with `decimals` decimals.
pub open spec fn scientific(digits: nat, exponent: int, decimals: nat) -> Seq<u8> {
    scientific_text(
        if digits == 0 {
            0
        } else {
            formatted(digits, exponent, decimals + 1, false).0
        },
        rounded_exponent(digits, exponent, decimals + 1),
        decimals,
    )
}

impl Decimal {
    /// Whether the number is below zero.
    pub open spec fn below_zero(self) -> bool {
        self.negative && self.digits > 0
    }

    /// The number in the `D19.12` form: a minus sign or a blank, one digit, twelve decimals and the
    /// exponent.
    pub open spec fn d19_12(self) -> Seq<u8> {
        seq![if self.below_zero() { 45u8 } else { 32u8 }] + scientific(
            self.digits as nat,
            self.exponent as int,
            12,
        )
    }

    /// A number of meters in kilometers, in the `D19.12` form.
    pub open spec fn kilometers_d19_12(self) -> Seq<u8> {
        let (m, e) = if self.digits == 0 {
            (0, -12)
        } else {
            formatted(self.digits as nat, self.exponent - 3, 13, true)
        };
        seq![if self.below_zero() { 45u8 } else { 32u8 }] + scientific_text(m, e + 12, 12)
    }

    /// Whether the number fits the nineteen columns of the `D19.12` form: its exponent has two
    /// digits.
    pub open spec fn fits_d19_12(self) -> bool {
        magnitude(rounded_exponent(self.digits as nat, self.exponent as int, 13)) <= 99
    }
}

/// Rounding to significant digits gives that many digits.
pub proof fn lemma_significand(digits: nat, exponent: int, p: nat)
    requires
        digits > 0,
        p >= 1,
    ensures
        pow10((p - 1) as nat) <= significand(digits, exponent, p).0 < pow10(p),
{
    let c = digit_count(digits);
    lemma_digit_count(digits);
    lemma_pow10_monotone((p - 1) as nat, p);
    assert(pow10(p) == 10 * pow10((p - 1) as nat));
    if c <= p {
        let k = (p - c) as nat;
        lemma_pow10_add((c - 1) as nat, k);
        lemma_pow10_add(c, k);
        assert((c - 1) as nat + k == (p - 1) as nat);
        assert(c + k == p);
        lemma_pow10_monotone(0, k);
        assert(pow10((c - 1) as nat) * pow10(k) <= digits * pow10(k) < pow10(c) * pow10(k))
            by (nonlinear_arith)
            requires
                pow10((c - 1) as nat) <= digits < pow10(c),
                pow10(k) >= 1,
        ;
    } else {
        let k = (c - p) as nat;
        let unit = pow10(k);
        lemma_pow10_monotone(0, k);
        lemma_pow10_add((p - 1) as nat, k);
        lemma_pow10_add(p, k);
        assert((p - 1) as nat + k == (c - 1) as nat);
        assert(p + k == c);
        let q = digits / unit;
        assert(pow10((p - 1) as nat) <= q < pow10(p)) by (nonlinear_arith)
            requires
                pow10((p - 1) as nat) * unit <= digits < pow10(p) * unit,
                unit >= 1,
                q == digits / unit,
        ;
    }
}

/// A number is written in as many digits as asked for, and one of no more digits as it is.
pub proof fn lemma_formatted(digits: nat, exponent: int, p: nat, kilometers: bool)
    requires
        digits > 0,
        p >= 1,
    ensures
        pow10((p - 1) as nat) <= formatted(digits, exponent, p, kilometers).0 < pow10(p),
        digits < pow10(p) ==> formatted(digits, exponent, p, kilometers) == significand(
            digits,
            exponent,
            p,
        ),
{
    let c = digit_count(digits);
    lemma_significand(digits, exponent, p);
    lemma_digit_count(digits);
    if c > p {
        lemma_pow10_monotone(p, (c - 1) as nat);
        let k = (c - p) as nat;
        let unit = pow10(k);
        lemma_pow10_monotone(0, k);
        lemma_pow10_monotone((p - 1) as nat, p);
        assert(pow10(p) == 10 * pow10((p - 1) as nat));
        lemma_pow10_monotone(0, (p - 1) as nat);
        lemma_pow10_add((p - 1) as nat, k);
        lemma_pow10_add(p, k);
        assert((p - 1) as nat + k == (c - 1) as nat);
        assert(p + k == c);
        let q = digits / unit;
        assert(pow10((p - 1) as nat) <= q < pow10(p)) by (nonlinear_arith)
            requires
                pow10((p - 1) as nat) * unit <= digits < pow10(p) * unit,
                unit >= 1,
                q == digits / unit,
        ;
    }
}

/// An integer that a double holds is written with its own digits, rounded to the nearest with ties
/// to an even digit.
pub proof fn law_integer_formatted(digits: nat, exponent: nat, p: nat)
    requires
        digits > 0,
        p >= 1,
        digits * pow10(exponent) < 9007199254740992,
    ensures
        formatted(digits, exponent as int, p, false) == significand(digits, exponent as int, p),
{
    let c = digit_count(digits);
    if c > p && exponent <= 500 {
        let k = (c - p) as nat;
        lemma_rounds_integer(digits, exponent, k);
        let q = round_half_even(digits, pow10(k));
        assert(q == digits / pow10(k) || q == digits / pow10(k) + 1);
    }
}

/// A positive number rounded to `p` significant digits (see [`significand`]).
pub fn round_significant(digits: u128, exponent: i64, p: u32) -> (r: (u128, i64))
    requires
        digits > 0,
        1 <= p <= 19,
        -1000000000000 <= exponent <= 1000000000000,
    ensures
        (r.0 as nat, r.1 as int) == significand(digits as nat, exponent as int, p as nat),
        r.0 < pow10(p as nat),
        exponent - 40 <= r.1 <= exponent + 40,
{
    let c: u32 = count_digits(digits);
    proof {
        lemma_significand(digits as nat, exponent as int, p as nat);
        lemma_pow10_values();
        lemma_pow10_monotone(p as nat, 19);
        lemma_pow10_monotone(0, p as nat);
    }
    if c <= p {
        let scale: u128 = power_of_ten(p - c);
        (digits * scale, exponent - (p - c) as i64)
    } else {
        let k: u32 = c - p;
        let unit: u128 = power_of_ten(k);
        proof {
            lemma_pow10_monotone(0, k as nat);
        }
        let q: u128 = digits / unit;
        let r: u128 = digits % unit;
        let up: bool = r > unit - r || (r == unit - r && q % 2 != 0);
        let q2: u128 = if up {
            proof {
                lemma_pow10_monotone(1, k as nat);
                assert(q <= digits / 10) by (nonlinear_arith)
                    requires
                        q == digits / unit,
                        unit >= 10,
                ;
            }
            q + 1
        } else {
            q
        };
        assert(q2 == round_half_even(digits as nat, unit as nat));
        if q2 == power_of_ten(p) {
            (power_of_ten(p - 1), exponent + k as i64 + 1)
        } else {
            (q2, exponent + k as i64)
        }
    }
}

/// A positive number written in `p` significant digits (see [`formatted`]).
pub fn round_formatted(digits: u128, exponent: i64, p: u32, kilometers: bool) -> (r: (u128, i64))
    requires
        digits > 0,
        1 <= p <= 19,
        -1000000000000 <= exponent <= 1000000000000,
    ensures
        (r.0 as nat, r.1 as int) == formatted(
            digits as nat,
            exponent as int,
            p as nat,
            kilometers,
        ),
        r.0 < pow10(p as nat),
        exponent - 40 <= r.1 <= exponent + 40,
{
    let c: u32 = count_digits(digits);
    proof {
        lemma_formatted(digits as nat, exponent as int, p as nat, kilometers);
    }
    if c <= p || exponent < -500 || exponent > 500 {
        return round_significant(digits, exponent, p);
    }
    proof {
        lemma_pow10_values();
        lemma_pow10_monotone(p as nat, 19);
        lemma_pow10_monotone(0, (c - p) as nat);
        lemma_digit_count(digits as nat);
        lemma_pow10_add(p as nat, (c - p) as nat);
    }
    let k: u32 = c - p;
    let unit: u128 = power_of_ten(k);
    let whole: u128 = digits / unit;
    let place: i64 = exponent + k as i64;
    proof {
        assert(whole < pow10(p as nat)) by (nonlinear_arith)
            requires
                digits < pow10(p as nat) * unit,
                unit >= 1,
                whole == digits / unit,
        ;
    }
    let nearest = double_words(digits, exponent);
    let held = if kilometers {
        there_and_back_words(&nearest)
    } else {
        nearest
    };
    let q: u128 = if is_rounded_up(&held, whole, place) {
        whole + 1
    } else {
        whole
    };
    if q == power_of_ten(p) {
        (power_of_ten(p - 1), place + 1)
    } else {
        (q, place)
    }
}

/// One digit as text.
fn digit_str(d: u8) -> (r: &'static str)
    requires
        d < 10,
    ensures
        utf8(r@) == seq![(48 + d) as u8],
{
    proof {
        reveal_strlit("0");
        reveal_strlit("1");
        reveal_strlit("2");
        reveal_strlit("3");
        reveal_strlit("4");
        reveal_strlit("5");
        reveal_strlit("6");
        reveal_strlit("7");
        reveal_strlit("8");
        reveal_strlit("9");
        lemma_utf8_ascii("0"@);
        lemma_utf8_ascii("1"@);
        lemma_utf8_ascii("2"@);
        lemma_utf8_ascii("3"@);
        lemma_utf8_ascii("4"@);
        lemma_utf8_ascii("5"@);
        lemma_utf8_ascii("6"@);
        lemma_utf8_ascii("7"@);
        lemma_utf8_ascii("8"@);
        lemma_utf8_ascii("9"@);
    }
    let r: &'static str = match d {
        0 => "0",
        1 => "1",
        2 => "2",
        3 => "3",
        4 => "4",
        5 => "5",
        6 => "6",
        7 => "7",
        8 => "8",
        _ => "9",
    };
    assert(utf8(r@) =~= seq![(48 + d) as u8]);
    r
}

/// Add the last `width` digits of `n` at the end of `out`.
pub fn push_digits(out: &mut String, n: u128, width: u32)
    ensures
        utf8(final(out)@) == utf8(old(out)@) + digits_text(n as nat, width as nat),
    decreases width,
{
    let ghost before = utf8(out@);
    if width == 0 {
        assert(before + digits_text(n as nat, 0) =~= before);
    } else {
        push_digits(out, n / 10, width - 1);
        push(out, digit_str((n % 10) as u8));
        assert(utf8(out@) =~= before + digits_text(n as nat, width as nat));
    }
}

/// Add an exponent at the end of `out` (see [`exponent_text`]).
fn push_exponent(out: &mut String, x: i64)
    requires
        -2000000000000 <= x <= 2000000000000,
    ensures
        utf8(final(out)@) == utf8(old(out)@) + exponent_text(x as int),
{
    let ghost before = utf8(out@);
    proof {
        reveal_strlit("e+");
        reveal_strlit("e-");
        lemma_utf8_ascii("e+"@);
        lemma_utf8_ascii("e-"@);
    }
    let m: u128 = if x < 0 {
        push(out, "e-");
        (-x) as u128
    } else {
        push(out, "e+");
        x as u128
    };
    let c: u32 = count_digits(m);
    let width: u32 = if c < 2 {
        2
    } else {
        c
    };
    push_digits(out, m, width);
    assert(utf8(out@) =~= before + exponent_text(x as int));
}

/// Text of `width` digits has `width` bytes, each a digit.
pub proof fn lemma_digits_text(n: nat, width: nat)
    ensures
        digits_text(n, width).len() == width,
        forall|k: int| 0 <= k < width ==> digit(#[trigger] digits_text(n, width)[k]),
    decreases width,
{
    if width > 0 {
        lemma_digits_text(n / 10, (width - 1) as nat);
    }
}

/// The first digit of a text of digits, and the others.
proof fn lemma_digits_text_split(n: nat, width: nat)
    requires
        width >= 1,
    ensures
        digits_text(n, width) == digits_text(n / pow10((width - 1) as nat), 1) + digits_text(
            n,
            (width - 1) as nat,
        ),
    decreases width,
{
    if width == 1 {
        assert(n / 1 == n);
        assert(digits_text(n, 0) =~= Seq::empty());
        assert(digits_text(n, 1) + digits_text(n, 0) =~= digits_text(n, 1));
    } else {
        lemma_digits_text_split(n / 10, (width - 1) as nat);
        let p = pow10((width - 2) as nat);
        lemma_pow10_monotone(0, (width - 2) as nat);
        assert(pow10((width - 1) as nat) == 10 * p);
        assert((n / 10) / p == n / (10 * p)) by {
            vstd::arithmetic::div_mod::lemma_div_denominator(n as int, 10, p as int);
        }
        assert(digits_text(n, width) =~= digits_text(n / pow10((width - 1) as nat), 1)
            + digits_text(n, (width - 1) as nat));
    }
}

/// Add a magnitude in scientific form at the end of `out` (see [`scientific_text`]).
fn push_scientific_text(out: &mut String, m: u128, x: i64, decimals: u32)
    requires
        1 <= decimals <= 18,
        -2000000000000 <= x <= 2000000000000,
    ensures
        utf8(final(out)@) == utf8(old(out)@) + scientific_text(
            m as nat,
            x as int,
            decimals as nat,
        ),
{
    let ghost before = utf8(out@);
    let unit: u128 = power_of_ten(decimals);
    proof {
        lemma_pow10_monotone(0, decimals as nat);
        lemma_digits_text_split(m as nat, (decimals + 1) as nat);
        lemma_digits_text((m / unit) as nat, 1);
        lemma_digits_text(m as nat, decimals as nat);
        reveal_strlit(".");
        lemma_utf8_ascii("."@);
    }
    push_digits(out, m / unit, 1);
    push(out, ".");
    push_digits(out, m, decimals);
    push_exponent(out, x);
    proof {
        let t = digits_text(m as nat, (decimals + 1) as nat);
        assert(t.subrange(0, 1) =~= digits_text((m / unit) as nat, 1));
        assert(t.subrange(1, t.len() as int) =~= digits_text(m as nat, decimals as nat));
        assert(utf8(out@) =~= before + scientific_text(m as nat, x as int, decimals as nat));
    }
}

/// Add a magnitude in scientific form at the end of `out` (see [`scientific`]).
pub fn push_scientific(out: &mut String, digits: u128, exponent: i64, decimals: u32)
    requires
        1 <= decimals <= 18,
        -1000000000000 <= exponent <= 1000000000000,
    ensures
        utf8(final(out)@) == utf8(old(out)@) + scientific(
            digits as nat,
            exponent as int,
            decimals as nat,
        ),
{
    let (m, e): (u128, i64) = if digits == 0 {
        (0, -(decimals as i64))
    } else {
        round_formatted(digits, exponent, decimals + 1, false)
    };
    push_scientific_text(out, m, e + decimals as i64, decimals);
}

impl Decimal {
    /// The number zero.
    pub fn zero() -> (r: Decimal)
        ensures
            r == zero(),
            r.wf(),
    {
        proof {
            lemma_pow10_monotone(0, 19);
        }
        Decimal { negative: false, digits: 0, exponent: 0 }
    }

    /// Whether the number fits the nineteen columns of the `D19.12` form.
    pub fn is_d19_12(self) -> (r: bool)
        ensures
            r == self.fits_d19_12(),
    {
        if self.digits == 0 {
            return true;
        }
        let (_m, e): (u128, i64) = round_formatted(
            self.digits,
            self.exponent as i64,
            13,
            false,
        );
        let lead: i64 = e + 12;
        -99 <= lead && lead <= 99
    }

    /// Add the sign of the number, or a blank, at the end of `out`.
    fn push_sign_column(self, out: &mut String)
        ensures
            utf8(final(out)@) == utf8(old(out)@) + seq![
                if self.below_zero() {
                    45u8
                } else {
                    32u8
                },
            ],
    {
        let ghost before = utf8(out@);
        proof {
            reveal_strlit("-");
            reveal_strlit(" ");
            lemma_utf8_ascii("-"@);
            lemma_utf8_ascii(" "@);
        }
        if self.negative && self.digits > 0 {
            push(out, "-");
        } else {
            push(out, " ");
        }
        assert(utf8(out@) =~= before + seq![
            if self.below_zero() {
                45u8
            } else {
                32u8
            },
        ]);
    }

    /// Add the number at the end of `out` in the `D19.12` form.
    pub fn push_d19_12(self, out: &mut String)
        ensures
            utf8(final(out)@) == utf8(old(out)@) + self.d19_12(),
    {
        let ghost before = utf8(out@);
        self.push_sign_column(out);
        push_scientific(out, self.digits, self.exponent as i64, 12);
        assert(utf8(out@) =~= before + self.d19_12());
    }

    /// Add the number of meters in kilometers at the end of `out` in the `D19.12` form.
    pub fn push_kilometers(self, out: &mut String)
        ensures
            utf8(final(out)@) == utf8(old(out)@) + self.kilometers_d19_12(),
    {
        let ghost before = utf8(out@);
        self.push_sign_column(out);
        let (m, e): (u128, i64) = if self.digits == 0 {
            (0, -12)
        } else {
            round_formatted(self.digits, self.exponent as i64 - 3, 13, true)
        };
        push_scientific_text(out, m, e + 12, 12);
        assert(utf8(out@) =~= before + self.kilometers_d19_12());
    }
}

/// The largest power of two up to `n`, from `p` on; 0 where there is none.
pub open spec fn leading_power(n: nat, p: nat) -> nat
    decreases n - p,
{
    if p == 0 || p > n {
        0
    } else if 2 * p > n {
        p
    } else {
        leading_power(n, 2 * p)
    }
}

/// Whether a double of 53 binary digits does not tell `digits / unit` from the integer `n`: they
/// are less than half a unit of the last place apart. Below a power of two the places are half as
/// wide. No number of nineteen digits lies halfway.
#[verifier::opaque]
pub open spec fn indistinct(digits: nat, n: nat, unit: nat) -> bool {
    let whole = n * unit;
    let lead = leading_power(n, 1);
    if digits >= whole {
        (digits - whole) * 9007199254740992 < lead * unit
    } else if lead == n {
        (whole - digits) * 18014398509481984 < lead * unit
    } else {
        (whole - digits) * 9007199254740992 < lead * unit
    }
}

/// The largest power of two up to a number is at most the number.
pub proof fn lemma_leading_power(n: nat, p: nat)
    ensures
        leading_power(n, p) <= n,
    decreases n - p,
{
    if p != 0 && p <= n && 2 * p <= n {
        lemma_leading_power(n, 2 * p);
    }
}

/// A number of at most thirteen digits is an integer only where it is one exactly.
pub proof fn lemma_short_integer(d: Decimal)
    requires
        d.digits < pow10(13),
    ensures
        d.double_integer() == d.integer(),
{
    reveal(indistinct);
    lemma_pow10_values();
    if d.integer() is None {
        let k = (-d.exponent) as nat;
        let unit = pow10(k);
        lemma_pow10_monotone(0, k);
        let n = d.nearest_magnitude();
        let digits = d.digits as nat;
        lemma_round_half_up(digits, unit);
        vstd::arithmetic::div_mod::lemma_fundamental_div_mod(digits as int, unit as int);
        let q = digits / unit;
        let r = digits % unit;
        lemma_leading_power(n, 1);
        let lead = leading_power(n, 1);
        assert(lead * unit <= n * unit) by (nonlinear_arith)
            requires
                lead <= n,
        ;
        assert(n * unit == unit * q || n * unit == unit * q + unit) by (nonlinear_arith)
            requires
                n == q || n == q + 1,
        ;
        if n == 0 {
            assert(lead * unit == 0) by (nonlinear_arith)
                requires
                    lead == 0,
            ;
        } else {
            let part = unit * q;
            assert(part >= 0);
            assert(digits == part + r);
            if n == q + 1 {
                assert(2 * r >= unit);
                assert(n * unit == part + unit) by (nonlinear_arith)
                    requires
                        n == q + 1,
                        part == unit * q,
                ;
            } else {
                assert(n * unit == part) by (nonlinear_arith)
                    requires
                        n == q,
                        part == unit * q,
                ;
            }
            assert(n * unit <= 2 * digits);
        }
    }
}

impl Decimal {
    /// The digits with the sign.
    pub open spec fn signed_digits(self) -> int {
        if self.negative {
            -(self.digits as int)
        } else {
            self.digits as int
        }
    }

    /// The integer the number is, where it is one.
    pub open spec fn integer(self) -> Option<int> {
        if self.exponent >= 0 {
            Some(self.signed_digits() * pow10(self.exponent as nat))
        } else if self.digits as nat % pow10((-self.exponent) as nat) == 0 {
            Some(
                if self.negative {
                    -(self.digits as nat / pow10((-self.exponent) as nat))
                } else {
                    (self.digits as nat / pow10((-self.exponent) as nat)) as int
                },
            )
        } else {
            None
        }
    }

    /// The integer that the double nearest to the number is, where it is one: the number itself, or
    /// an integer so near that a double of 53 binary digits does not tell the two apart.
    pub open spec fn double_integer(self) -> Option<int> {
        match self.integer() {
            Some(n) => Some(n),
            None => {
                let n = self.nearest_magnitude();
                let unit = pow10((-self.exponent) as nat);
                if -19 <= self.exponent && self.digits < pow10(19) && indistinct(
                    self.digits as nat,
                    n,
                    unit,
                ) {
                    Some(
                        if self.negative {
                            -(n as int)
                        } else {
                            n as int
                        },
                    )
                } else {
                    None
                }
            },
        }
    }

    /// The integer from `min` to `max` that the double nearest to the number is, where it is one.
    pub open spec fn integer_within(self, min: int, max: int) -> Option<int> {
        match self.double_integer() {
            Some(n) => if min <= n <= max {
                Some(n)
            } else {
                None
            },
            None => None,
        }
    }

    /// The magnitude rounded to the nearest integer, halves away from zero.
    pub open spec fn nearest_magnitude(self) -> nat {
        if self.exponent >= 0 {
            self.digits as nat * pow10(self.exponent as nat)
        } else {
            let unit = pow10((-self.exponent) as nat);
            (2 * self.digits as nat + unit) / (2 * unit)
        }
    }

    /// The magnitude of the double nearest to the number rounded to the nearest integer, halves away
    /// from zero: a number so little below a half that a double does not tell the two apart rounds
    /// up.
    pub open spec fn rounded_magnitude(self) -> nat {
        let unit = pow10((-self.exponent) as nat);
        let twice = ((4 * self.digits + unit) / (2 * unit as int)) as nat;
        if -19 <= self.exponent < 0 && self.digits < pow10(19) && twice % 2 == 1 && twice
            * unit > 2 * self.digits && indistinct((2 * self.digits) as nat, twice, unit) {
            (twice + 1) / 2
        } else {
            self.nearest_magnitude()
        }
    }

    /// The double nearest to the number rounded to the nearest integer, halves away from zero, where
    /// that is a 32-bit word.
    pub open spec fn nearest_word(self) -> Option<u32> {
        let m = self.rounded_magnitude();
        if m > u32::MAX || (self.negative && m > 0) {
            None
        } else {
            Some(m as u32)
        }
    }

    /// The magnitude as an integer of at most `bound`, where it is one.
    fn integer_magnitude(self, bound: u64) -> (r: Option<u64>)
        ensures
            r matches Some(m) ==> self.integer() == Some(
                if self.negative {
                    -(m as int)
                } else {
                    m as int
                },
            ) && m <= bound,
            r is None ==> (self.integer() matches Some(n) ==> magnitude(n) > bound),
    {
        if self.digits == 0 {
            proof {
                if self.exponent < 0 {
                    lemma_pow10_monotone(0, (-self.exponent) as nat);
                    vstd::arithmetic::div_mod::lemma_div_basics(
                        pow10((-self.exponent) as nat) as int,
                    );
                    vstd::arithmetic::div_mod::lemma_small_mod(
                        0,
                        pow10((-self.exponent) as nat),
                    );
                } else {
                    assert(0 * pow10(self.exponent as nat) == 0);
                }
            }
            return Some(0);
        }
        if self.exponent >= 0 {
            let mut m: u128 = self.digits;
            let mut e: i32 = self.exponent;
            let ghost total = self.digits as nat * pow10(self.exponent as nat);
            while e > 0
                invariant
                    0 <= e <= self.exponent,
                    total == self.digits as nat * pow10(self.exponent as nat),
                    m > 0,
                    m as nat * pow10(e as nat) == total,
                decreases e,
            {
                if m > bound as u128 {
                    proof {
                        lemma_pow10_monotone(0, e as nat);
                        assert(total >= m as nat) by (nonlinear_arith)
                            requires
                                m as nat * pow10(e as nat) == total,
                                pow10(e as nat) >= 1,
                        ;
                        self.lemma_integer_magnitude();
                    }
                    return None;
                }
                proof {
                    let p = pow10((e - 1) as nat);
                    assert(pow10(e as nat) == 10 * p);
                    assert((m as nat * 10) * p == m as nat * (10 * p)) by (nonlinear_arith);
                }
                m = m * 10;
                e = e - 1;
            }
            proof {
                assert(m as nat * 1 == m as nat);
                self.lemma_integer_magnitude();
            }
            if m > bound as u128 {
                None
            } else {
                Some(m as u64)
            }
        } else {
            let k: i64 = -(self.exponent as i64);
            proof {
                lemma_pow10_values();
            }
            if k > 38 {
                proof {
                    lemma_pow10_monotone(39, k as nat);
                    assert(pow10(39) == 10 * pow10(38));
                    vstd::arithmetic::div_mod::lemma_small_mod(self.digits as nat, pow10(k as nat));
                }
                return None;
            }
            let unit: u128 = power_of_ten(k as u32);
            proof {
                lemma_pow10_monotone(0, k as nat);
            }
            if self.digits % unit != 0 {
                return None;
            }
            let q: u128 = self.digits / unit;
            if q > bound as u128 {
                None
            } else {
                Some(q as u64)
            }
        }
    }

    /// The magnitude of an integer is that of its digits times its power of ten.
    proof fn lemma_integer_magnitude(self)
        requires
            self.exponent >= 0,
        ensures
            self.integer() == Some(
                if self.negative {
                    -(self.digits as nat * pow10(self.exponent as nat))
                } else {
                    (self.digits as nat * pow10(self.exponent as nat)) as int
                },
            ),
    {
        assert((-(self.digits as int)) * pow10(self.exponent as nat) == -(self.digits as nat
            * pow10(self.exponent as nat))) by (nonlinear_arith);
    }

    /// The magnitude of the integer that the double nearest to the number is, where the number is
    /// none itself.
    fn near_integer(self) -> (r: Option<u64>)
        requires
            self.integer() is None,
        ensures
            match r {
                Some(m) => self.double_integer() == Some(
                    if self.negative {
                        -(m as int)
                    } else {
                        m as int
                    },
                ) && m <= 1000000000000000001,
                None => self.double_integer() is None,
            },
    {
        proof {
            reveal(indistinct);
            lemma_pow10_values();
        }
        if self.exponent < -19 || self.digits >= 10000000000000000000 {
            return None;
        }
        let k: i64 = -(self.exponent as i64);
        proof {
            lemma_pow10_monotone(0, k as nat);
            lemma_pow10_monotone(k as nat, 19);
            lemma_round_half_up(self.digits as nat, pow10(k as nat));
            vstd::arithmetic::div_mod::lemma_fundamental_div_mod(
                self.digits as int,
                pow10(k as nat) as int,
            );
            assert(pow10(k as nat) == 10 * pow10((k - 1) as nat));
            lemma_pow10_monotone(0, (k - 1) as nat);
        }
        let unit: u128 = power_of_ten(k as u32);
        let q: u128 = self.digits / unit;
        let r: u128 = self.digits % unit;
        let up: bool = r >= unit - r;
        let n: u128 = if up {
            q + 1
        } else {
            q
        };
        let gap: u128 = if up {
            unit - r
        } else {
            r
        };
        let ghost part: int = unit as int * q as int;
        proof {
            assert(unit == pow10(k as nat));
            assert(self.digits == part + r);
            assert(part >= 0) by (nonlinear_arith)
                requires
                    part == unit as int * q as int,
                    unit >= 0,
                    q >= 0,
            ;
            assert(q <= 1000000000000000000) by (nonlinear_arith)
                requires
                    unit as int * q as int <= 9999999999999999999,
                    unit >= 10,
                    q >= 0,
            ;
            let w: int = n as int * unit as int;
            assert(w == part + (if up {
                unit as int
            } else {
                0
            })) by (nonlinear_arith)
                requires
                    n == (if up {
                        q + 1
                    } else {
                        q as int
                    }),
                    w == n as int * unit as int,
                    part == unit as int * q as int,
            ;
            assert(n == self.nearest_magnitude());
        }
        if n == 0 {
            proof {
                assert(leading_power(0, 1) == 0);
                assert(0 * unit == 0);
            }
            return None;
        }
        let mut lead: u128 = 1;
        while 2 * lead <= n
            invariant
                1 <= lead <= n <= 1000000000000000001,
                leading_power(n as nat, 1) == leading_power(n as nat, lead as nat),
            decreases n - lead,
        {
            lead = 2 * lead;
        }
        let places: u128 = if up && lead == n {
            18014398509481984
        } else {
            9007199254740992
        };
        proof {
            assert(gap * places <= 10000000000000000000 * 18014398509481984) by (nonlinear_arith)
                requires
                    gap <= 10000000000000000000,
                    places <= 18014398509481984,
            ;
            assert(lead * unit <= 1000000000000000001 * 10000000000000000000) by (nonlinear_arith)
                requires
                    lead <= 1000000000000000001,
                    unit <= 10000000000000000000,
            ;
        }
        if gap * places < lead * unit {
            Some(n as u64)
        } else {
            None
        }
    }

    /// The integer from `min` to `max` that the double nearest to the number is, where it is one.
    pub fn to_integer(self, min: i64, max: i64) -> (r: Option<i64>)
        requires
            min > i64::MIN,
        ensures
            r is Some == self.integer_within(min as int, max as int) is Some,
            r matches Some(n) ==> self.integer_within(min as int, max as int) == Some(n as int),
    {
        proof {
            lemma_pow10_values();
        }
        let found: Option<u64> = match self.integer_magnitude(9223372036854775807) {
            Some(m) => Some(m),
            None => {
                if self.exponent >= 0 || self.digits >= 10000000000000000000 {
                    None
                } else {
                    proof {
                        let unit = pow10((-self.exponent) as nat);
                        lemma_pow10_monotone(0, (-self.exponent) as nat);
                        assert(self.digits as nat / unit <= self.digits as nat) by {
                            vstd::arithmetic::div_mod::lemma_div_is_ordered_by_denominator(
                                self.digits as int,
                                1,
                                unit as int,
                            );
                        }
                        lemma_pow10_monotone(1, (-self.exponent) as nat);
                        vstd::arithmetic::div_mod::lemma_div_is_ordered_by_denominator(
                            self.digits as int,
                            10,
                            unit as int,
                        );
                    }
                    self.near_integer()
                }
            },
        };
        match found {
            None => None,
            Some(m) => {
                let n: i64 = if self.negative {
                    -(m as i64)
                } else {
                    m as i64
                };
                if min <= n && n <= max {
                    Some(n)
                } else {
                    None
                }
            },
        }
    }

    /// Whether a number whose whole part is `whole`, with `part` of `unit` above, less than a half, is
    /// one that a double does not tell from that half.
    fn near_half(self, unit: u128, whole: u128, part: u128) -> (r: bool)
        requires
            self.exponent < 0,
            unit == pow10((-self.exponent) as nat),
            unit <= 100000000000000000000000000000000000000,
            self.digits == unit * whole + part,
            2 * part < unit,
            whole <= 4294967295,
        ensures
            self.rounded_magnitude() == (if r {
                whole as int + 1
            } else {
                whole as int
            }),
    {
        let ghost digits = self.digits as int;
        let ghost u = unit as int;
        let ghost twice = (4 * digits + u) / (2 * u);
        proof {
            lemma_pow10_values();
            lemma_round_half_up(self.digits as nat, unit as nat);
            vstd::arithmetic::div_mod::lemma_fundamental_div_mod_converse(
                digits,
                u,
                whole as int,
                part as int,
            );
            assert(2 * digits == (2 * whole) * u + 2 * part) by (nonlinear_arith)
                requires
                    digits == u * whole + part,
            ;
            vstd::arithmetic::div_mod::lemma_fundamental_div_mod_converse(
                2 * digits,
                u,
                2 * whole as int,
                2 * part as int,
            );
            lemma_round_half_up((2 * self.digits) as nat, unit as nat);
            assert(twice == (if 4 * part >= u {
                2 * whole + 1
            } else {
                2 * whole as int
            }));
            assert((2 * whole + 1) * u == (2 * whole) * u + u) by (nonlinear_arith);
        }
        if self.exponent < -19 || self.digits >= 10000000000000000000 {
            return false;
        }
        proof {
            lemma_pow10_monotone((-self.exponent) as nat, 19);
        }
        if 4 * part < unit {
            return false;
        }
        let n: u128 = 2 * whole + 1;
        let gap: u128 = unit - 2 * part;
        let mut lead: u128 = 1;
        while 2 * lead <= n
            invariant
                1 <= lead <= n <= 10000000000,
                leading_power(n as nat, 1) == leading_power(n as nat, lead as nat),
            decreases n - lead,
        {
            lead = 2 * lead;
        }
        let places: u128 = if lead == n {
            18014398509481984
        } else {
            9007199254740992
        };
        proof {
            reveal(indistinct);
            assert(gap * places <= 10000000000000000000 * 18014398509481984) by (nonlinear_arith)
                requires
                    gap <= 10000000000000000000,
                    places <= 18014398509481984,
            ;
            assert(lead * unit <= 10000000000 * 10000000000000000000) by (nonlinear_arith)
                requires
                    lead <= 10000000000,
                    unit <= 10000000000000000000,
            ;
        }
        gap * places < lead * unit
    }

    /// A number rounds to its whole part at least.
    proof fn lemma_rounded_least(self, unit: u128, whole: u128, part: u128)
        requires
            self.exponent < 0,
            unit == pow10((-self.exponent) as nat),
            self.digits == unit * whole + part,
            part < unit,
        ensures
            self.rounded_magnitude() >= whole,
    {
        let digits = self.digits as int;
        let u = unit as int;
        if 2 * part >= u {
            self.lemma_half_up(unit, whole, part);
        } else {
            lemma_round_half_up(self.digits as nat, unit as nat);
            vstd::arithmetic::div_mod::lemma_fundamental_div_mod_converse(
                digits,
                u,
                whole as int,
                part as int,
            );
            assert(2 * digits == (2 * whole) * u + 2 * part) by (nonlinear_arith)
                requires
                    digits == u * whole + part,
            ;
            vstd::arithmetic::div_mod::lemma_fundamental_div_mod_converse(
                2 * digits,
                u,
                2 * whole as int,
                2 * part as int,
            );
            lemma_round_half_up((2 * self.digits) as nat, unit as nat);
        }
    }

    /// A number with a half or more above its whole part rounds up.
    proof fn lemma_half_up(self, unit: u128, whole: u128, part: u128)
        requires
            self.exponent < 0,
            unit == pow10((-self.exponent) as nat),
            self.digits == unit * whole + part,
            part < unit,
            2 * part >= unit,
        ensures
            self.rounded_magnitude() == whole + 1,
    {
        let digits = self.digits as int;
        let u = unit as int;
        lemma_round_half_up(self.digits as nat, unit as nat);
        vstd::arithmetic::div_mod::lemma_fundamental_div_mod_converse(
            digits,
            u,
            whole as int,
            part as int,
        );
        assert(2 * digits == (2 * whole + 1) * u + (2 * part - u)) by (nonlinear_arith)
            requires
                digits == u * whole + part,
        ;
        vstd::arithmetic::div_mod::lemma_fundamental_div_mod_converse(
            2 * digits,
            u,
            2 * whole + 1,
            2 * part - u,
        );
        lemma_round_half_up((2 * self.digits) as nat, unit as nat);
    }

    /// The double nearest to the number rounded to the nearest integer, halves away from zero, where
    /// that is a 32-bit word.
    pub fn to_nearest_word(self) -> (r: Option<u32>)
        ensures
            r == self.nearest_word(),
    {
        if self.exponent >= 0 {
            match self.integer_magnitude(4294967295) {
                None => {
                    proof {
                        self.lemma_integer_magnitude();
                    }
                    None
                },
                Some(m) => {
                    proof {
                        self.lemma_integer_magnitude();
                    }
                    if self.negative && m > 0 {
                        None
                    } else {
                        Some(m as u32)
                    }
                },
            }
        } else {
            let k: i64 = -(self.exponent as i64);
            proof {
                lemma_pow10_values();
                lemma_pow10_monotone(0, k as nat);
            }
            if k > 38 {
                proof {
                    let unit = pow10(k as nat);
                    lemma_pow10_monotone(39, k as nat);
                    assert(pow10(39) == 10 * pow10(38));
                    assert(2 * self.digits as nat + unit < 2 * unit);
                    vstd::arithmetic::div_mod::lemma_basic_div(
                        2 * self.digits as int + unit as int,
                        2 * unit as int,
                    );
                }
                return Some(0);
            }
            let unit: u128 = power_of_ten(k as u32);
            let q: u128 = self.digits / unit;
            let r: u128 = self.digits % unit;
            proof {
                lemma_pow10_monotone(k as nat, 38);
                vstd::arithmetic::div_mod::lemma_fundamental_div_mod(
                    self.digits as int,
                    unit as int,
                );
            }
            if q > 4294967295 {
                proof {
                    self.lemma_rounded_least(unit, q, r);
                }
                return None;
            }
            let half: bool = r >= unit - r;
            proof {
                if half {
                    self.lemma_half_up(unit, q, r);
                }
            }
            let up: bool = half || self.near_half(unit, q, r);
            if q == 4294967295 && up {
                return None;
            }
            let m: u128 = if up {
                q + 1
            } else {
                q
            };
            if self.negative && m > 0 {
                None
            } else {
                Some(m as u32)
            }
        }
    }
}

/// Rounding halves up by quotient and remainder.
proof fn lemma_round_half_up(n: nat, unit: nat)
    requires
        unit > 0,
    ensures
        (2 * n + unit) / (2 * unit) == (if 2 * (n % unit) >= unit {
            n / unit + 1
        } else {
            n / unit
        }),
{
    let q = n / unit;
    let r = n % unit;
    vstd::arithmetic::div_mod::lemma_fundamental_div_mod(n as int, unit as int);
    let x = 2 * n + unit;
    let d = 2 * unit;
    let v: nat = if 2 * r >= unit {
        q + 1
    } else {
        q
    };
    let rest: int = x - v * d;
    assert(n == unit * q + r);
    assert(v * d == 2 * (unit * q) + (if 2 * r >= unit {
        2 * unit
    } else {
        0
    })) by (nonlinear_arith)
        requires
            v == (if 2 * r >= unit {
                q + 1
            } else {
                q
            }),
            d == 2 * unit,
    ;
    assert(0 <= rest < d);
    vstd::arithmetic::div_mod::lemma_fundamental_div_mod_converse(
        x as int,
        d as int,
        v as int,
        rest,
    );
}

/// The number an integer is.
pub open spec fn decimal_of(n: int) -> Decimal {
    let (d, e) = strip_zeros(magnitude(n), 0);
    if n == 0 {
        zero()
    } else {
        Decimal { negative: n < 0, digits: d as u128, exponent: e as i32 }
    }
}

impl Decimal {
    /// The number an integer is.
    pub fn from_integer(n: i64) -> (r: Decimal)
        ensures
            r == decimal_of(n as int),
            r.wf(),
    {
        let m: u128 = if n < 0 {
            (-(n as i128)) as u128
        } else {
            n as u128
        };
        proof {
            lemma_pow10_values();
            lemma_strip_zeros(m as nat, 0);
        }
        let mut d: u128 = m;
        let mut e: i32 = 0;
        assert(d * pow10(0) == d);
        while d > 0 && d % 10 == 0
            invariant
                d <= m < pow10(19),
                0 <= e <= 19,
                m > 0 ==> d > 0,
                d * pow10(e as nat) <= m,
                strip_zeros(d as nat, e as int) == strip_zeros(m as nat, 0),
            decreases d,
        {
            proof {
                let p = pow10(e as nat);
                assert(pow10((e + 1) as nat) == 10 * p);
                assert((d / 10) * (10 * p) == d * p) by (nonlinear_arith)
                    requires
                        d % 10 == 0,
                ;
                if e >= 19 {
                    lemma_pow10_monotone(19, e as nat);
                    assert(d * p >= p) by (nonlinear_arith)
                        requires
                            d >= 1,
                            p >= 0,
                    ;
                }
            }
            d = d / 10;
            e = e + 1;
        }
        if d == 0 {
            Decimal { negative: false, digits: 0, exponent: 0 }
        } else {
            Decimal { negative: n < 0, digits: d, exponent: e }
        }
    }
}

/// The integer a text states: an optional sign and digits, nothing else, within 64 bits.
#[verifier::opaque]
pub open spec fn integer_text(b: Seq<u8>) -> Option<int> {
    let s: int = if b.len() > 0 && sign_byte(b[0]) { 1 } else { 0 };
    let m = natural(b.subrange(s, b.len() as int)) as int;
    let n = if b.len() > 0 && b[0] == 45 { -m } else { m };
    if s == b.len() || digit_run(b, s) != b.len() || !(i64::MIN <= n <= i64::MAX) {
        None
    } else {
        Some(n)
    }
}

/// The integer a text states (see [`integer_text`]).
pub fn read_integer(text: &str) -> (r: Option<i64>)
    requires
        utf8(text@).len() <= 19,
    ensures
        r is Some == integer_text(utf8(text@)) is Some,
        r matches Some(n) ==> integer_text(utf8(text@)) == Some(n as int),
{
    proof {
        reveal(integer_text);
    }
    let b = text.as_bytes();
    let n: usize = b.len();
    let s: usize = if n > 0 && (b[0] == 43 || b[0] == 45) {
        1
    } else {
        0
    };
    if s == n || digits_end(b, s) != n {
        return None;
    }
    proof {
        lemma_empty_prefix(b@.subrange(s as int, n as int));
        lemma_pow10_monotone((n - s) as nat, 19);
        lemma_pow10_values();
    }
    let m: u128 = append_digits(b, 0, Ghost(Seq::empty()), s, n);
    if b[0] == 45 {
        if m > 9223372036854775808 {
            None
        } else {
            Some((-(m as i128)) as i64)
        }
    } else if m > 9223372036854775807 {
        None
    } else {
        Some(m as i64)
    }
}

/// The number a field states, white space around it aside.
pub open spec fn field_number(raw: Seq<u8>) -> Option<Decimal> {
    number(trim_of(raw))
}

/// The number a field of at most nineteen columns states, white space around it aside.
pub fn read_field(raw: &str) -> (r: Option<Decimal>)
    requires
        utf8(raw@).len() <= 19,
    ensures
        r == field_number(utf8(raw@)),
        r matches Some(d) ==> d.wf(),
{
    read_number(trim(raw).as_bytes())
}

/// `digits` times ten to the `exponent` with the trailing zeros moved to the exponent (see
/// [`strip_zeros`]).
pub fn strip_trailing(digits: u128, exponent: i64) -> (r: (u128, i64))
    requires
        0 < digits,
        -1000000 <= exponent <= 1000000,
    ensures
        (r.0 as nat, r.1 as int) == strip_zeros(digits as nat, exponent as int),
        exponent <= r.1 <= exponent + 38,
        digits < pow10(19) ==> r.1 <= exponent + 19,
{
    let mut d: u128 = digits;
    let mut e: i64 = exponent;
    let mut steps: u32 = 0;
    proof {
        lemma_pow10_values();
        assert(pow10(39) == 10 * pow10(38));
        assert(pow10(0) == 1);
        assert(d * 1 == d);
    }
    while d % 10 == 0
        invariant
            0 < d <= digits,
            digits < pow10(39),
            e == exponent + steps,
            steps <= 38,
            -1000000 <= exponent <= 1000000,
            d * pow10(steps as nat) <= digits,
            strip_zeros(d as nat, e as int) == strip_zeros(digits as nat, exponent as int),
        decreases d,
    {
        proof {
            let p = pow10(steps as nat);
            assert(pow10((steps + 1) as nat) == 10 * p);
            assert((d / 10) * (10 * p) == d * p) by (nonlinear_arith)
                requires
                    d % 10 == 0,
            ;
            if steps >= 38 {
                lemma_pow10_monotone(39, (steps + 1) as nat);
                assert((d / 10) * (10 * p) >= 10 * p) by (nonlinear_arith)
                    requires
                        d / 10 >= 1,
                        p >= 0,
                ;
            }
        }
        d = d / 10;
        e = e + 1;
        steps = steps + 1;
    }
    proof {
        let p = pow10(steps as nat);
        assert(d * p >= p) by (nonlinear_arith)
            requires
                d >= 1,
                p >= 0,
        ;
        if steps > 19 {
            lemma_pow10_monotone(19, steps as nat);
        }
    }
    (d, e)
}

} // verus!

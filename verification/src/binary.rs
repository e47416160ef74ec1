//! Numbers as doubles hold them: the nearest multiple of a power of two, in exact arithmetic on
//! natural numbers of any size.

use vstd::arithmetic::power2::{lemma2_to64, lemma_pow2_adds, lemma_pow2_pos, pow2};
use vstd::prelude::*;

use crate::decimal::{pow10, round_half_even};

verus! {

/// The natural number that words from the `i`th on state, the lowest first.
pub open spec fn words_from(s: Seq<u64>, i: int) -> nat
    decreases s.len() - i,
{
    if 0 <= i < s.len() {
        s[i] as nat + 18446744073709551616 * words_from(s, i + 1)
    } else {
        0
    }
}

/// The natural number that words state.
pub open spec fn natural_of(s: Seq<u64>) -> nat {
    words_from(s, 0)
}

/// A number in words.
pub fn words(n: u128) -> (r: Vec<u64>)
    ensures
        natural_of(r@) == n,
{
    let mut out: Vec<u64> = Vec::new();
    out.push((n % 18446744073709551616) as u64);
    out.push((n / 18446744073709551616) as u64);
    proof {
        assert(words_from(out@, 2) == 0);
        assert(words_from(out@, 1) == out@[1] as nat);
        assert(words_from(out@, 0) == out@[0] as nat + 18446744073709551616 * (out@[1] as nat));
    }
    out
}

/// A product in words, with what is carried from the word below.
proof fn lemma_product(word: nat, rest: nat, m: nat, carry: nat, t: nat, low: nat, high: nat)
    requires
        t == word * m + carry,
        low == t % 18446744073709551616,
        high == t / 18446744073709551616,
    ensures
        low + 18446744073709551616 * (rest * m + high) == (word + 18446744073709551616 * rest) * m
            + carry,
{
    assert(low + 18446744073709551616 * high == t);
    assert((word + 18446744073709551616 * rest) * m == word * m + 18446744073709551616 * (rest * m))
        by (nonlinear_arith);
    assert(18446744073709551616 * (rest * m + high) == 18446744073709551616 * (rest * m)
        + 18446744073709551616 * high);
}

/// Add the words from the `i`th on, times `m` and with a carry, at the end of `out`.
fn push_product(a: &Vec<u64>, i: usize, m: u64, carry: u64, out: &mut Vec<u64>)
    requires
        i <= a@.len(),
    ensures
        final(out)@.len() >= old(out)@.len(),
        final(out)@.subrange(0, old(out)@.len() as int) == old(out)@,
        words_from(final(out)@, old(out)@.len() as int) == words_from(a@, i as int) * m + carry,
    decreases a@.len() - i,
{
    let ghost before = out@;
    if i == a.len() {
        out.push(carry);
        proof {
            assert(words_from(out@, before.len() as int + 1) == 0);
            assert(words_from(a@, i as int) * m == 0) by (nonlinear_arith)
                requires
                    words_from(a@, i as int) == 0,
            ;
            assert(out@.subrange(0, before.len() as int) =~= before);
        }
    } else {
        proof {
            assert(a@[i as int] * m + carry <= 18446744073709551615 * 18446744073709551615
                + 18446744073709551615) by (nonlinear_arith)
                requires
                    a@[i as int] <= 18446744073709551615,
                    m <= 18446744073709551615,
                    carry <= 18446744073709551615,
            ;
            assert(a@[i as int] * m >= 0) by (nonlinear_arith);
        }
        let t: u128 = a[i] as u128 * m as u128 + carry as u128;
        assert(t / 18446744073709551616 <= 18446744073709551615);
        let low: u64 = (t % 18446744073709551616) as u64;
        let high: u64 = (t / 18446744073709551616) as u64;
        out.push(low);
        let ghost next = out@;
        push_product(a, i + 1, m, high, out);
        proof {
            let n = before.len() as int;
            assert(out@[n] == next[n]) by {
                assert(out@.subrange(0, next.len() as int)[n] == next[n]);
            }
            assert(out@.subrange(0, n) =~= before) by {
                assert forall|k: int| 0 <= k < n implies out@[k] == before[k] by {
                    assert(out@.subrange(0, next.len() as int)[k] == next[k]);
                }
            }
            lemma_product(
                a@[i as int] as nat,
                words_from(a@, i + 1),
                m as nat,
                carry as nat,
                t as nat,
                low as nat,
                high as nat,
            );
        }
    }
}

/// A number in words times `m`.
pub fn times(a: &Vec<u64>, m: u64) -> (r: Vec<u64>)
    ensures
        natural_of(r@) == natural_of(a@) * m,
{
    let mut out: Vec<u64> = Vec::new();
    push_product(a, 0, m, 0, &mut out);
    out
}

/// A number in words times ten to the `n`.
pub fn times_ten(a: &Vec<u64>, n: u32) -> (r: Vec<u64>)
    ensures
        natural_of(r@) == natural_of(a@) * pow10(n as nat),
{
    let mut out = times(a, 1);
    let mut i: u32 = 0;
    assert(natural_of(a@) * pow10(0) == natural_of(a@) * 1);
    while i < n
        invariant
            i <= n,
            natural_of(out@) == natural_of(a@) * pow10(i as nat),
        decreases n - i,
    {
        proof {
            let (x, p) = (natural_of(a@), pow10(i as nat));
            assert(pow10((i + 1) as nat) == 10 * p);
            assert((x * p) * 10 == x * (10 * p)) by (nonlinear_arith);
        }
        out = times(&out, 10);
        i = i + 1;
    }
    out
}

/// A number in words times two to the `n`.
fn times_two(a: &Vec<u64>, n: u32) -> (r: Vec<u64>)
    ensures
        natural_of(r@) == natural_of(a@) * pow2(n as nat),
{
    let mut out = times(a, 1);
    let mut i: u32 = 0;
    proof {
        lemma2_to64();
        assert(natural_of(a@) * pow2(0) == natural_of(a@) * 1);
    }
    while i < n
        invariant
            i <= n,
            natural_of(out@) == natural_of(a@) * pow2(i as nat),
        decreases n - i,
    {
        let ghost (x, p) = (natural_of(a@), pow2(i as nat));
        proof {
            lemma2_to64();
            assert((x * p) * 2 == x * (p * 2)) by (nonlinear_arith);
            assert((x * p) * 4294967296 == x * (p * 4294967296)) by (nonlinear_arith);
        }
        if n - i >= 32 {
            out = times(&out, 4294967296);
            i = i + 32;
            proof {
                lemma_pow2_adds((i - 32) as nat, 32);
            }
        } else {
            out = times(&out, 2);
            i = i + 1;
            proof {
                lemma_pow2_adds((i - 1) as nat, 1);
            }
        }
    }
    out
}

/// The `i`th word, none where there are fewer.
fn word_at(a: &Vec<u64>, i: usize) -> (r: u64)
    ensures
        r == (if i < a@.len() { a@[i as int] } else { 0 }),
{
    if i < a.len() {
        a[i]
    } else {
        0
    }
}

/// Words that differ from some place on differ.
proof fn lemma_less_below(a: Seq<u64>, b: Seq<u64>, i: int)
    requires
        0 <= i,
        words_from(a, i) < words_from(b, i),
    ensures
        natural_of(a) < natural_of(b),
    decreases i,
{
    if i > 0 {
        lemma_less_below(a, b, i - 1);
    }
}

/// The words from a place on are the word there and the words above it.
proof fn lemma_word_step(a: Seq<u64>, i: int)
    requires
        0 <= i,
    ensures
        words_from(a, i) == (if i < a.len() {
            a[i] as nat
        } else {
            0
        }) + 18446744073709551616 * words_from(a, i + 1),
{
}

/// Whether a number in words is greater than another.
pub fn exceeds(a: &Vec<u64>, b: &Vec<u64>) -> (r: bool)
    ensures
        r == (natural_of(a@) > natural_of(b@)),
{
    let mut i: usize = if a.len() > b.len() {
        a.len()
    } else {
        b.len()
    };
    while i > 0
        invariant
            words_from(a@, i as int) == words_from(b@, i as int),
        decreases i,
    {
        i = i - 1;
        let x: u64 = word_at(a, i);
        let y: u64 = word_at(b, i);
        proof {
            lemma_word_step(a@, i as int);
            lemma_word_step(b@, i as int);
        }
        if x > y {
            proof {
                lemma_less_below(b@, a@, i as int);
            }
            return true;
        }
        if x < y {
            proof {
                lemma_less_below(a@, b@, i as int);
            }
            return false;
        }
    }
    false
}

/// The multiple of a power of two nearest to `a / b`, the least power that leaves a multiple of at
/// most 2^53, halves to the even one: what a double holds, in the unit that `a / b` counts.
pub open spec fn nearest_double(a: nat, b: nat) -> nat
    decreases a - b,
{
    if b == 0 || a < 9007199254740992 * b {
        round_half_even(a, b)
    } else {
        2 * nearest_double(a, 2 * b)
    }
}

/// The quotient of numbers in words, below 2^53.
fn quotient(a: &Vec<u64>, b: &Vec<u64>) -> (r: u64)
    requires
        natural_of(b@) > 0,
        natural_of(a@) < 9007199254740992 * natural_of(b@),
    ensures
        r == natural_of(a@) / natural_of(b@),
        r < 9007199254740992,
{
    let ghost (x, y) = (natural_of(a@), natural_of(b@));
    let mut low: u64 = 0;
    let mut high: u64 = 9007199254740992;
    assert(y * 0 == 0);
    assert(y * 9007199254740992 == 9007199254740992 * y);
    while high - low > 1
        invariant
            low < high <= 9007199254740992,
            x == natural_of(a@),
            y == natural_of(b@),
            y * low <= x < y * high,
        decreases high - low,
    {
        let middle: u64 = low + (high - low) / 2;
        let product = times(b, middle);
        if exceeds(&product, a) {
            high = middle;
        } else {
            low = middle;
        }
    }
    proof {
        assert(high == low + 1);
        assert(low == x / y) by (nonlinear_arith)
            requires
                y > 0,
                y * low <= x < y * (low + 1),
        ;
    }
    low
}

/// The quotient of numbers in words rounded to the nearest integer, halves to the even one, where
/// it is below 2^53.
fn rounded_words(a: &Vec<u64>, b: &Vec<u64>) -> (r: u64)
    requires
        natural_of(b@) > 0,
        natural_of(a@) < 9007199254740992 * natural_of(b@),
    ensures
        r == round_half_even(natural_of(a@), natural_of(b@)),
{
    let q: u64 = quotient(a, b);
    let twice = times(a, 2);
    let middle = times(b, 2 * q + 1);
    proof {
        let (x, y) = (natural_of(a@), natural_of(b@));
        vstd::arithmetic::div_mod::lemma_fundamental_div_mod(x as int, y as int);
        assert(y * (2 * q + 1) == 2 * (y * q) + y) by (nonlinear_arith);
        assert(x % y == x - y * q);
    }
    if exceeds(&twice, &middle) {
        q + 1
    } else if exceeds(&middle, &twice) {
        q
    } else if q % 2 == 0 {
        q
    } else {
        q + 1
    }
}

/// The places of a double can be passed over many at a time.
proof fn lemma_places(x: nat, u: nat, j: nat)
    requires
        u > 0,
        x >= 9007199254740992 * (u * pow2(j)),
    ensures
        nearest_double(x, u) == pow2(j) * nearest_double(x, u * pow2(j)),
    decreases j,
{
    lemma2_to64();
    if j == 0 {
        assert(u * pow2(0) == u);
    } else {
        let i = (j - 1) as nat;
        let p = pow2(i);
        lemma_pow2_adds(i, 1);
        lemma_pow2_pos(i);
        assert(pow2(j) == 2 * p);
        assert(u * (2 * p) == (2 * u) * p) by (nonlinear_arith);
        assert(u * (2 * p) >= u) by (nonlinear_arith)
            requires
                p >= 1,
        ;
        lemma_places(x, 2 * u, i);
        let rest = nearest_double(x, u * pow2(j));
        assert(2 * (p * rest) == (2 * p) * rest) by (nonlinear_arith);
    }
}

/// The double nearest to a quotient of numbers in words (see [`nearest_double`]).
pub fn nearest_words(a: &Vec<u64>, b: &Vec<u64>) -> (r: Vec<u64>)
    requires
        natural_of(b@) > 0,
    ensures
        natural_of(r@) == nearest_double(natural_of(a@), natural_of(b@)),
{
    let ghost (x, y) = (natural_of(a@), natural_of(b@));
    let mut unit = times(b, 1);
    let mut power = words(1);
    let mut limit = times(b, 9007199254740992);
    assert(1 * nearest_double(x, y) == nearest_double(x, y));
    while !exceeds(&limit, a)
        invariant
            x == natural_of(a@),
            y == natural_of(b@),
            natural_of(unit@) > 0,
            natural_of(limit@) == natural_of(unit@) * 9007199254740992,
            nearest_double(x, y) == natural_of(power@) * nearest_double(x, natural_of(unit@)),
        decreases x - natural_of(unit@),
    {
        let ghost (p, u) = (natural_of(power@), natural_of(unit@));
        let far = times(&limit, 4294967296);
        let many: bool = !exceeds(&far, a);
        let step: u64 = if many {
            4294967296
        } else {
            2
        };
        proof {
            lemma2_to64();
            if many {
                assert(9007199254740992 * (u * pow2(32)) == natural_of(far@));
                lemma_places(x, u, 32);
            } else {
                assert(nearest_double(x, u) == 2 * nearest_double(x, 2 * u));
                assert(u * 2 == 2 * u);
            }
            let rest = nearest_double(x, u * step as nat);
            assert(nearest_double(x, u) == step as nat * rest);
            assert(p * (step as nat * rest) == (p * step as nat) * rest) by (nonlinear_arith);
        }
        unit = times(&unit, step);
        power = times(&power, step);
        limit = times(&limit, step);
    }
    let m: u64 = rounded_words(a, &unit);
    times(&power, m)
}

/// A number of at most 53 binary digits is its own nearest double.
proof fn lemma_held_exactly(n: nat, j: nat)
    requires
        n < 9007199254740992,
    ensures
        nearest_double(n * pow2(j), 1) == n * pow2(j),
{
    lemma_pow2_pos(j);
    lemma_held_from(n, j, 0);
    lemma2_to64();
}

/// A multiple of a power of two below 2^53 of it is its own nearest double.
proof fn lemma_held_from(n: nat, j: nat, i: nat)
    requires
        n < 9007199254740992,
        i <= j,
    ensures
        nearest_double(n * pow2(j), pow2(i)) == n * pow2((j - i) as nat),
    decreases j - i,
{
    let (x, u) = (n * pow2(j), pow2(i));
    let up = pow2((j - i) as nat);
    lemma_pow2_adds(i, (j - i) as nat);
    lemma_pow2_pos(i);
    assert(x == (n * up) * u) by (nonlinear_arith)
        requires
            x == n * pow2(j),
            pow2(j) == u * up,
    ;
    if x < 9007199254740992 * u {
        vstd::arithmetic::div_mod::lemma_div_by_multiple((n * up) as int, u as int);
        vstd::arithmetic::div_mod::lemma_mod_multiples_basic((n * up) as int, u as int);
    } else {
        lemma2_to64();
        assert(i < j) by {
            if i == j {
                assert(x == n * u);
                assert(n * u < 9007199254740992 * u) by (nonlinear_arith)
                    requires
                        n < 9007199254740992,
                        u > 0,
                ;
            }
        }
        lemma_pow2_adds(i, 1);
        lemma_held_from(n, j, i + 1);
        lemma_pow2_adds((j - i - 1) as nat, 1);
        let half = pow2((j - i - 1) as nat);
        assert(2 * (n * half) == n * up) by (nonlinear_arith)
            requires
                up == half * 2,
        ;
    }
}

/// Ten to the `e`, 1 where `e` is below zero.
pub open spec fn raised(e: int) -> nat {
    pow10((if e < 0 {
        0
    } else {
        e
    }) as nat)
}

/// The double nearest to `digits` times ten to the `exponent`, in units of 2^-1074.
#[verifier::opaque]
pub open spec fn double_of(digits: nat, exponent: int) -> nat {
    nearest_double(digits * raised(exponent) * pow2(1074), raised(-exponent))
}

/// A double times 1000 and divided by 1000, rounded to a double each time, in units of 2^-1074.
#[verifier::opaque]
pub open spec fn there_and_back(v: nat) -> nat {
    nearest_double(nearest_double(v * 1000, 1), 1000)
}

/// Whether a double, in units of 2^-1074, rounds up to `q + 1` of the unit ten to the `place`: it
/// is nearer to that than to `q`, or as near and `q` is odd.
#[verifier::opaque]
pub open spec fn rounds_up(v: nat, q: nat, place: int) -> bool {
    let twice = v * raised(-place) * 2;
    let middle = (2 * q + 1) * raised(place) * pow2(1074);
    twice > middle || (twice == middle && q % 2 == 1)
}

/// An integer that a double holds is rounded by its own digits: up where it is above the middle, and
/// at the middle to an even digit.
pub proof fn lemma_rounds_integer(digits: nat, exponent: nat, k: nat)
    requires
        digits * pow10(exponent) < 9007199254740992,
    ensures
        ({
            let q = digits / pow10(k);
            rounds_up(double_of(digits, exponent as int), q, (exponent + k) as int)
                == (round_half_even(digits, pow10(k)) == q + 1)
        }),
{
    reveal(double_of);
    reveal(rounds_up);
    let (q, unit, e) = (digits / pow10(k), pow10(k), pow10(exponent));
    let n = digits * e;
    let two = pow2(1074);
    crate::decimal::lemma_pow10_monotone(0, k);
    crate::decimal::lemma_pow10_monotone(0, exponent);
    crate::decimal::lemma_pow10_add(exponent, k);
    lemma_pow2_pos(1074);
    lemma_held_exactly(n, 1074);
    assert(raised(-(exponent as int)) == 1 && raised(-((exponent + k) as int)) == 1) by {
        assert(pow10(0) == 1);
    }
    assert(double_of(digits, exponent as int) == n * two);
    let middle = (2 * q + 1) * unit;
    assert((n * two) * 1 * 2 == (2 * digits) * (e * two)) by (nonlinear_arith)
        requires
            n == digits * e,
    ;
    assert((2 * q + 1) * (e * unit) * two == middle * (e * two)) by (nonlinear_arith)
        requires
            middle == (2 * q + 1) * unit,
    ;
    let f = e * two;
    assert(f > 0) by (nonlinear_arith)
        requires
            e >= 1,
            two >= 1,
            f == e * two,
    ;
    assert((2 * digits) * f > middle * f <==> 2 * digits > middle) by (nonlinear_arith)
        requires
            f > 0,
    ;
    assert((2 * digits) * f == middle * f <==> 2 * digits == middle) by (nonlinear_arith)
        requires
            f > 0,
    ;
    vstd::arithmetic::div_mod::lemma_fundamental_div_mod(digits as int, unit as int);
    assert(middle == 2 * (unit * q) + unit) by (nonlinear_arith)
        requires
            middle == (2 * q + 1) * unit,
    ;
}

/// Ten to the power of an exponent that is not below zero is positive.
proof fn lemma_raised(e: int)
    ensures
        raised(e) >= 1,
{
    crate::decimal::lemma_pow10_monotone(0, (if e < 0 {
        0
    } else {
        e
    }) as nat);
}

/// The exponent where it is not below zero, else 0.
fn raise(e: i64) -> (r: u32)
    requires
        -1000 <= e <= 1000,
    ensures
        pow10(r as nat) == raised(e as int),
{
    if e < 0 {
        0
    } else {
        e as u32
    }
}

/// The double nearest to a number (see [`double_of`]).
pub fn double_words(digits: u128, exponent: i64) -> (r: Vec<u64>)
    requires
        -1000 <= exponent <= 1000,
    ensures
        natural_of(r@) == double_of(digits as nat, exponent as int),
{
    proof {
        reveal(double_of);
        lemma_raised(-exponent);
    }
    let a = times_two(&times_ten(&words(digits), raise(exponent)), 1074);
    let b = times_ten(&words(1), raise(-exponent));
    nearest_words(&a, &b)
}

/// A double times 1000 and divided by 1000 (see [`there_and_back`]).
pub fn there_and_back_words(v: &Vec<u64>) -> (r: Vec<u64>)
    ensures
        natural_of(r@) == there_and_back(natural_of(v@)),
{
    proof {
        reveal(there_and_back);
    }
    let up = nearest_words(&times(v, 1000), &words(1));
    nearest_words(&up, &words(1000))
}

/// Whether a double rounds up (see [`rounds_up`]).
pub fn is_rounded_up(v: &Vec<u64>, q: u128, place: i64) -> (r: bool)
    requires
        -1000 <= place <= 1000,
        q < 100000000000000000000000000000000000000,
    ensures
        r == rounds_up(natural_of(v@), q as nat, place as int),
{
    proof {
        reveal(rounds_up);
    }
    let twice = times(&times_ten(v, raise(-place)), 2);
    let middle = times_two(&times_ten(&words(2 * q + 1), raise(place)), 1074);
    if exceeds(&twice, &middle) {
        true
    } else if exceeds(&middle, &twice) {
        false
    } else {
        q % 2 == 1
    }
}

} // verus!

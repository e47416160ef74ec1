//! Stated numbers of seconds of any size, as the selection order compares them.

use vstd::arithmetic::div_mod::{
    lemma_fundamental_div_mod, lemma_fundamental_div_mod_converse, lemma_mul_mod_noop_left,
    lemma_small_mod,
};
use vstd::prelude::*;

use crate::decimal::{
    count_digits, digit_count, leading_exponent, lemma_pow10_add, lemma_pow10_monotone,
    lemma_pow10_values, pow10, power_of_ten, Decimal,
};
use crate::epoch::ExactEpoch;
use crate::time::{quectos_of, scaled, seconds_of, Seconds, QUECTOS_PER_SECOND, SECONDS_PER_DAY};

verus! {

/// Whole seconds up to which a stated time is compared together with its week. A number of nineteen
/// digits beyond that is a multiple of more than any count of weeks.
pub const WIDE_SECONDS: u128 = 10000000000000000000000000000000000000;

/// The magnitude of a number of seconds in 10^-30 s.
pub open spec fn magnitude_quectos(d: Decimal) -> nat {
    scaled(d.digits as nat, d.exponent + 30)
}

/// Whether a number of seconds is beyond those compared together with their week.
pub open spec fn beyond_wide(d: Decimal) -> bool {
    magnitude_quectos(d) >= WIDE_SECONDS * QUECTOS_PER_SECOND
}

/// A stated number of seconds in 10^-30 s, 0 where there is none; one beyond [`WIDE_SECONDS`] counts
/// as that many, and is told from others by [`beyond_rank`].
pub open spec fn wide_total(d: Option<Decimal>) -> int {
    match d {
        None => 0,
        Some(d) => if !beyond_wide(d) {
            quectos_of(d)
        } else if d.below_zero() {
            -(WIDE_SECONDS * QUECTOS_PER_SECOND)
        } else {
            WIDE_SECONDS * QUECTOS_PER_SECOND
        },
    }
}

/// The first nineteen digits of a number.
pub open spec fn first_digits(digits: nat) -> nat {
    let c = digit_count(digits);
    if c <= 19 {
        digits * pow10((19 - c) as nat)
    } else {
        digits / pow10((c - 19) as nat)
    }
}

/// The place of a stated number of seconds among those beyond [`WIDE_SECONDS`], by the power of ten
/// of its first digit and its first nineteen digits; 0 for any other.
pub open spec fn beyond_rank(d: Option<Decimal>) -> int {
    match d {
        None => 0,
        Some(d) => if !beyond_wide(d) {
            0
        } else {
            let rank = leading_exponent(d.digits as nat, d.exponent as int)
                * 100000000000000000000 + first_digits(d.digits as nat);
            if d.below_zero() {
                -rank
            } else {
                rank
            }
        },
    }
}

/// The magnitude of a number of seconds with at most thirty decimals, as whole seconds below
/// [`WIDE_SECONDS`] and a fraction; `None` for one beyond.
fn wide_magnitude(d: Decimal) -> (r: Option<(u128, u128)>)
    requires
        d.exponent >= -30,
    ensures
        match r {
            Some((whole, quectos)) => !beyond_wide(d) && whole < WIDE_SECONDS && quectos
                < QUECTOS_PER_SECOND && whole * QUECTOS_PER_SECOND + quectos == magnitude_quectos(
                d,
            ),
            None => beyond_wide(d),
        },
{
    let ghost digits = d.digits as nat;
    let ghost q = QUECTOS_PER_SECOND as int;
    proof {
        lemma_pow10_values();
    }
    if d.exponent >= 0 {
        let mut m: u128 = d.digits;
        let mut e: i32 = d.exponent;
        let ghost total = digits * pow10(d.exponent as nat);
        proof {
            lemma_pow10_add(d.exponent as nat, 30);
            assert(digits * (pow10(d.exponent as nat) * pow10(30)) == total * pow10(30))
                by (nonlinear_arith)
                requires
                    total == digits * pow10(d.exponent as nat),
            ;
        }
        if m == 0 {
            proof {
                assert(total == 0) by (nonlinear_arith)
                    requires
                        total == digits * pow10(d.exponent as nat),
                        digits == 0,
                ;
            }
            return Some((0, 0));
        }
        while e > 0
            invariant
                0 <= e <= d.exponent,
                m > 0,
                m as nat * pow10(e as nat) == total,
                magnitude_quectos(d) == total * QUECTOS_PER_SECOND,
            decreases e,
        {
            if m >= WIDE_SECONDS {
                proof {
                    lemma_pow10_monotone(0, e as nat);
                    assert(total >= m as nat) by (nonlinear_arith)
                        requires
                            m as nat * pow10(e as nat) == total,
                            pow10(e as nat) >= 1,
                    ;
                    lemma_scale(WIDE_SECONDS as int, total as int);
                }
                return None;
            }
            proof {
                let p = pow10((e - 1) as nat);
                assert(pow10(e as nat) == 10 * p);
                assert((m as nat * 10) * p == m as nat * (10 * p)) by (nonlinear_arith);
            }
            m = m * 10;
            e = e - 1;
        }
        proof {
            assert(m as nat * 1 == m as nat);
        }
        if m >= WIDE_SECONDS {
            proof {
                lemma_scale(WIDE_SECONDS as int, total as int);
            }
            return None;
        }
        proof {
            lemma_scale(m as int + 1, WIDE_SECONDS as int);
            assert((m + 1) * q == m * q + q) by (nonlinear_arith);
        }
        return Some((m, 0));
    }
    let k: i64 = -(d.exponent as i64);
    let unit: u128 = power_of_ten(k as u32);
    let rest: u128 = power_of_ten((30 - k) as u32);
    proof {
        lemma_pow10_monotone(0, k as nat);
        lemma_pow10_monotone(0, (30 - k) as nat);
        lemma_pow10_add(k as nat, (30 - k) as nat);
        lemma_fundamental_div_mod(digits as int, unit as int);
    }
    let whole: u128 = d.digits / unit;
    let part: u128 = d.digits % unit;
    proof {
        assert(digits * rest == whole * (unit * rest) + part * rest) by (nonlinear_arith)
            requires
                digits == unit * whole + part,
        ;
        assert(part * rest < unit * rest) by (nonlinear_arith)
            requires
                part < unit,
                rest > 0,
        ;
    }
    if whole >= WIDE_SECONDS {
        proof {
            lemma_scale(WIDE_SECONDS as int, whole as int);
        }
        return None;
    }
    proof {
        lemma_scale(whole as int + 1, WIDE_SECONDS as int);
        assert((whole + 1) * q == whole * q + q) by (nonlinear_arith);
    }
    Some((whole, part * rest))
}

/// Whole seconds in 10^-30 s keep their order.
proof fn lemma_scale(a: int, b: int)
    requires
        a <= b,
    ensures
        a * QUECTOS_PER_SECOND <= b * QUECTOS_PER_SECOND,
{
    assert(a * QUECTOS_PER_SECOND <= b * QUECTOS_PER_SECOND) by (nonlinear_arith)
        requires
            a <= b,
    ;
}

/// A number of seconds with more than thirty decimals is small.
proof fn lemma_many_decimals(d: Decimal)
    requires
        d.exponent < -30,
    ensures
        magnitude_quectos(d) <= d.digits,
        !beyond_wide(d),
        seconds_of(d).total() == quectos_of(d),
{
    let unit = pow10((-(d.exponent + 30)) as nat);
    lemma_pow10_monotone(0, (-(d.exponent + 30)) as nat);
    assert(d.digits as nat / unit <= d.digits as nat) by (nonlinear_arith)
        requires
            unit >= 1,
    ;
    lemma_fundamental_div_mod(quectos_of(d), QUECTOS_PER_SECOND as int);
    let q = quectos_of(d);
    let u = QUECTOS_PER_SECOND as int;
    assert(u * (q / u) == (q / u) * u) by (nonlinear_arith);
    assert(-1000000000 <= q / u <= 1000000000);
}

/// A stated number of seconds (see [`wide_total`]).
pub fn wide_time(d: Option<Decimal>) -> (r: ExactEpoch)
    ensures
        r.total() == wide_total(d),
        r.quectos < QUECTOS_PER_SECOND,
        -WIDE_SECONDS <= r.whole <= WIDE_SECONDS,
{
    let d = match d {
        None => {
            return ExactEpoch { whole: 0, quectos: 0 };
        },
        Some(d) => d,
    };
    if d.exponent < -30 {
        proof {
            lemma_many_decimals(d);
        }
        let s = Seconds::from_decimal(d);
        return ExactEpoch { whole: s.whole as i128, quectos: s.quectos };
    }
    let negative: bool = d.negative && d.digits > 0;
    match wide_magnitude(d) {
        None => {
            let most: i128 = WIDE_SECONDS as i128;
            proof {
                assert((-most) * QUECTOS_PER_SECOND == -(most * QUECTOS_PER_SECOND))
                    by (nonlinear_arith);
            }
            ExactEpoch {
                whole: if negative {
                    -most
                } else {
                    most
                },
                quectos: 0,
            }
        },
        Some((whole, quectos)) => {
            let w: i128 = whole as i128;
            if !negative {
                ExactEpoch { whole: w, quectos }
            } else if quectos == 0 {
                proof {
                    assert((-w) * QUECTOS_PER_SECOND == -(w * QUECTOS_PER_SECOND))
                        by (nonlinear_arith);
                }
                ExactEpoch { whole: -w, quectos: 0 }
            } else {
                proof {
                    assert((-w - 1) * QUECTOS_PER_SECOND == -(w * QUECTOS_PER_SECOND)
                        - QUECTOS_PER_SECOND) by (nonlinear_arith);
                }
                ExactEpoch { whole: -w - 1, quectos: QUECTOS_PER_SECOND - quectos }
            }
        },
    }
}

/// The place of a stated number of seconds among those beyond [`WIDE_SECONDS`] (see
/// [`beyond_rank`]).
pub fn rank_beyond(d: Option<Decimal>) -> (r: i128)
    ensures
        r == beyond_rank(d),
{
    let d = match d {
        None => {
            return 0;
        },
        Some(d) => d,
    };
    if d.exponent < -30 {
        proof {
            lemma_many_decimals(d);
        }
        return 0;
    }
    if wide_magnitude(d).is_some() {
        return 0;
    }
    let c: u32 = count_digits(d.digits);
    proof {
        lemma_pow10_values();
        crate::decimal::lemma_digit_count(d.digits as nat);
        lemma_pow10_monotone(0, 19);
    }
    let first: u128 = if c <= 19 {
        proof {
            lemma_pow10_add(c as nat, (19 - c) as nat);
            assert(d.digits as nat * pow10((19 - c) as nat) <= pow10(19)) by (nonlinear_arith)
                requires
                    (d.digits as nat) < pow10(c as nat),
                    pow10(19) == pow10(c as nat) * pow10((19 - c) as nat),
            ;
        }
        d.digits * power_of_ten(19 - c)
    } else {
        proof {
            let k = (c - 19) as nat;
            lemma_pow10_monotone(0, k);
            lemma_pow10_add(19, k);
            lemma_fundamental_div_mod(d.digits as int, pow10(k) as int);
            let t = d.digits as nat / pow10(k);
            assert(t <= pow10(19)) by (nonlinear_arith)
                requires
                    pow10(k) * t <= d.digits,
                    (d.digits as nat) < pow10(19) * pow10(k),
                    pow10(k) >= 1,
            ;
        }
        d.digits / power_of_ten(c - 19)
    };
    let lead: i128 = d.exponent as i128 + c as i128 - 1;
    let rank: i128 = lead * 100000000000000000000 + first as i128;
    if d.negative && d.digits > 0 {
        -rank
    } else {
        rank
    }
}

/// A time in 10^-30 s within its day, with the sign of the time.
pub open spec fn time_of_day(t: int) -> int {
    let day = SECONDS_PER_DAY * QUECTOS_PER_SECOND;
    if t >= 0 {
        t % day
    } else {
        -((-t) % day)
    }
}

/// A stated number of seconds in 10^-30 s, 0 where there is none.
pub open spec fn stated_quectos(d: Option<Decimal>) -> int {
    match d {
        Some(d) => quectos_of(d),
        None => 0,
    }
}

/// A number of whole seconds and a fraction within its day.
proof fn lemma_within_day(whole: int, day: int, rest: int)
    requires
        whole >= 0,
        day == whole % (SECONDS_PER_DAY as int),
        0 <= rest < QUECTOS_PER_SECOND,
    ensures
        (whole * QUECTOS_PER_SECOND + rest) % (SECONDS_PER_DAY * QUECTOS_PER_SECOND) == day
            * QUECTOS_PER_SECOND + rest,
        0 <= day < SECONDS_PER_DAY,
{
    let q = QUECTOS_PER_SECOND as int;
    let d = SECONDS_PER_DAY * q;
    lemma_fundamental_div_mod(whole, SECONDS_PER_DAY as int);
    let k = whole / SECONDS_PER_DAY as int;
    let m = whole * q + rest;
    assert(whole * q == k * d + day * q) by (nonlinear_arith)
        requires
            whole == SECONDS_PER_DAY * k + day,
            d == SECONDS_PER_DAY * q,
    ;
    assert(0 <= day * q + rest < d) by (nonlinear_arith)
        requires
            0 <= day < SECONDS_PER_DAY,
            0 <= rest < q,
            d == SECONDS_PER_DAY * q,
    ;
    lemma_fundamental_div_mod_converse(m, d, k, day * q + rest);
}

/// A time of day, with a sign.
fn signed_day(negative: bool, day: u128, rest: u128) -> (r: ExactEpoch)
    requires
        day < SECONDS_PER_DAY,
        rest < QUECTOS_PER_SECOND,
    ensures
        r.total() == (if negative {
            -(day * QUECTOS_PER_SECOND + rest)
        } else {
            day * QUECTOS_PER_SECOND + rest
        }),
        r.quectos < QUECTOS_PER_SECOND,
        -90000 <= r.whole <= 90000,
{
    let w: i128 = day as i128;
    if !negative {
        ExactEpoch { whole: w, quectos: rest }
    } else if rest == 0 {
        proof {
            assert((-w) * QUECTOS_PER_SECOND == -(w * QUECTOS_PER_SECOND)) by (nonlinear_arith);
        }
        ExactEpoch { whole: -w, quectos: 0 }
    } else {
        proof {
            assert((-w - 1) * QUECTOS_PER_SECOND == -(w * QUECTOS_PER_SECOND) - QUECTOS_PER_SECOND)
                by (nonlinear_arith);
        }
        ExactEpoch { whole: -w - 1, quectos: QUECTOS_PER_SECOND - rest }
    }
}

/// The second of day of a whole number of seconds `digits` times ten to the `exponent`.
fn power_day(digits: u128, exponent: i32) -> (r: u128)
    requires
        exponent >= 0,
    ensures
        r == (digits as nat * pow10(exponent as nat)) % (SECONDS_PER_DAY as nat),
        r < SECONDS_PER_DAY,
{
    let day: u128 = SECONDS_PER_DAY as u128;
    let mut m: u128 = digits % day;
    let mut e: i32 = exponent;
    let ghost n = SECONDS_PER_DAY as int;
    let ghost total = digits as int * pow10(exponent as nat) as int;
    proof {
        lemma_mul_mod_noop_left(digits as int, pow10(exponent as nat) as int, n);
    }
    while e > 0
        invariant
            0 <= e <= exponent,
            day == 86400,
            n == 86400,
            m < 86400,
            (m as int * pow10(e as nat) as int) % n == total % n,
        decreases e,
    {
        proof {
            let p = pow10((e - 1) as nat) as int;
            assert(pow10(e as nat) == 10 * p);
            assert((m * 10) * p == m * (10 * p)) by (nonlinear_arith);
            lemma_mul_mod_noop_left(m as int * 10, p, n);
        }
        m = m * 10 % day;
        e = e - 1;
    }
    proof {
        assert(pow10(0) == 1);
        assert(m as int * 1 == m as int);
        lemma_small_mod(m as nat, 86400);
    }
    m
}

/// A stated number of seconds within its day (see [`time_of_day`]).
pub fn stated_day(d: Option<Decimal>) -> (r: ExactEpoch)
    ensures
        r.total() == time_of_day(stated_quectos(d)),
        r.quectos < QUECTOS_PER_SECOND,
        -90000 <= r.whole <= 90000,
{
    let d = match d {
        None => {
            return ExactEpoch { whole: 0, quectos: 0 };
        },
        Some(d) => d,
    };
    let negative: bool = d.negative && d.digits > 0;
    let ghost digits = d.digits as nat;
    proof {
        lemma_pow10_values();
    }
    if d.exponent >= 0 {
        let day: u128 = power_day(d.digits, d.exponent);
        proof {
            let total = digits * pow10(d.exponent as nat);
            lemma_pow10_add(d.exponent as nat, 30);
            assert(digits * (pow10(d.exponent as nat) * pow10(30)) == total * pow10(30))
                by (nonlinear_arith)
                requires
                    total == digits * pow10(d.exponent as nat),
            ;
            lemma_within_day(total as int, day as int, 0);
            lemma_zero_day(digits, d.exponent as nat);
            assert(quectos_of(d) == (if negative {
                -(total * QUECTOS_PER_SECOND)
            } else {
                total * QUECTOS_PER_SECOND
            }));
        }
        signed_day(negative, day, 0)
    } else if d.exponent >= -30 {
        let k: i64 = -(d.exponent as i64);
        let unit: u128 = power_of_ten(k as u32);
        let rest: u128 = power_of_ten((30 - k) as u32);
        proof {
            lemma_pow10_monotone(0, k as nat);
            lemma_pow10_monotone(0, (30 - k) as nat);
            lemma_pow10_add(k as nat, (30 - k) as nat);
            lemma_fundamental_div_mod(digits as int, unit as int);
        }
        let whole: u128 = d.digits / unit;
        let part: u128 = d.digits % unit;
        proof {
            assert(digits * rest == whole * (unit * rest) + part * rest) by (nonlinear_arith)
                requires
                    digits == unit * whole + part,
            ;
            assert(part * rest < unit * rest) by (nonlinear_arith)
                requires
                    part < unit,
                    rest > 0,
            ;
            lemma_within_day(
                whole as int,
                whole as int % SECONDS_PER_DAY as int,
                part as int * rest as int,
            );
            assert(whole * QUECTOS_PER_SECOND >= 0) by (nonlinear_arith)
                requires
                    whole >= 0,
            ;
        }
        signed_day(negative, whole % (SECONDS_PER_DAY as u128), part * rest)
    } else {
        proof {
            lemma_many_decimals(d);
        }
        let s = Seconds::from_decimal(d);
        let (whole, rest): (u128, u128) = if s.whole >= 0 {
            (s.whole as u128, s.quectos)
        } else if s.quectos == 0 {
            ((-s.whole) as u128, 0)
        } else {
            ((-s.whole - 1) as u128, QUECTOS_PER_SECOND - s.quectos)
        };
        proof {
            let q = QUECTOS_PER_SECOND as int;
            let m: int = if s.whole >= 0 {
                s.total()
            } else {
                -s.total()
            };
            assert(m == whole * q + rest) by (nonlinear_arith)
                requires
                    s.whole >= 0 ==> m == s.whole * q + s.quectos && whole == s.whole && rest
                        == s.quectos,
                    s.whole < 0 ==> m == -(s.whole * q + s.quectos),
                    s.whole < 0 && s.quectos == 0 ==> whole == -s.whole && rest == 0,
                    s.whole < 0 && s.quectos != 0 ==> whole == -s.whole - 1 && rest == q
                        - s.quectos,
            ;
            lemma_within_day(whole as int, whole as int % SECONDS_PER_DAY as int, rest as int);
            assert(s.whole >= 0 ==> s.total() >= 0) by (nonlinear_arith)
                requires
                    s.total() == s.whole * q + s.quectos,
                    q > 0,
            ;
            assert(s.whole < 0 ==> s.total() < 0) by (nonlinear_arith)
                requires
                    s.total() == s.whole * q + s.quectos,
                    s.quectos < q,
                    q > 0,
            ;
        }
        signed_day(s.whole < 0, whole % (SECONDS_PER_DAY as u128), rest)
    }
}

/// A whole number of seconds is positive where its digits are.
proof fn lemma_zero_day(digits: nat, exponent: nat)
    ensures
        digits > 0 <==> digits * pow10(exponent) > 0,
        digits * pow10(exponent) * QUECTOS_PER_SECOND > 0 <==> digits > 0,
{
    lemma_pow10_monotone(0, exponent);
    let p = pow10(exponent);
    assert(digits > 0 <==> digits * p > 0) by (nonlinear_arith)
        requires
            p >= 1,
    ;
    let t = digits * p;
    assert(t > 0 <==> t * QUECTOS_PER_SECOND > 0) by (nonlinear_arith);
}

} // verus!

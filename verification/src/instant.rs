//! Times as the writer states them: civil times, whole seconds, and times of week that read back
//! as the week and time they were written for.

use vstd::arithmetic::div_mod::{lemma_fundamental_div_mod, lemma_fundamental_div_mod_converse};
use vstd::prelude::*;

use crate::binary::rounds_up;
use crate::decimal::{
    count_digits, digit_count, formatted, held_double, lemma_digit_count, lemma_digit_count_between,
    lemma_formatted, lemma_pow10_add, lemma_pow10_monotone, lemma_pow10_values, lemma_significand,
    lemma_strip_zeros, magnitude, pow10, power_of_ten, round_formatted, round_half_even,
    significand, strip_trailing, strip_zeros, zero, Decimal,
};
use crate::format::clamped;
use crate::time::{
    date_of_number, day_number, lemma_date_unique, quectos_of, scaled, seconds_of, valid_date,
    week_epoch_day, GnssWeekTow, Seconds, J2000_DAY, QUECTOS_PER_SECOND, SECONDS_PER_DAY,
    SECONDS_PER_WEEK,
};

verus! {

/// The whole seconds of a time, rounded down, and the fraction above them in 10^-30 s.
pub fn split_time(s: Seconds) -> (r: (i128, u128))
    ensures
        r.0 == s.total() / (QUECTOS_PER_SECOND as int),
        r.1 == s.total() % (QUECTOS_PER_SECOND as int),
        r.1 < QUECTOS_PER_SECOND,
        r.0 * QUECTOS_PER_SECOND + r.1 == s.total(),
        -9223372036854775808 <= r.0 <= 9223372037854775807,
{
    let carry: u128 = s.quectos / QUECTOS_PER_SECOND;
    let rest: u128 = s.quectos % QUECTOS_PER_SECOND;
    let whole: i128 = s.whole as i128 + carry as i128;
    proof {
        lemma_fundamental_div_mod(s.quectos as int, QUECTOS_PER_SECOND as int);
        assert(whole * QUECTOS_PER_SECOND == s.whole * QUECTOS_PER_SECOND + carry
            * QUECTOS_PER_SECOND) by (nonlinear_arith)
            requires
                whole == s.whole + carry,
        ;
        lemma_fundamental_div_mod_converse(
            s.total(),
            QUECTOS_PER_SECOND as int,
            whole as int,
            rest as int,
        );
    }
    (whole, rest)
}

/// A positive count of 10^-30 s in the thirteen digits of the `D19.12` form, as those digits and
/// their power of ten. One of more digits than a double is near keeps the rounding of its own.
pub open spec fn written_digits(n: nat) -> (nat, int) {
    let (digits, exponent) = strip_zeros(n, -30);
    if digits < pow10(38) {
        formatted(digits, exponent, 13, false)
    } else {
        significand(n, -30, 13)
    }
}

/// A time in the thirteen digits of the `D19.12` form.
pub open spec fn written(s: Seconds) -> Decimal {
    let n = magnitude(s.total());
    if n == 0 {
        zero()
    } else {
        let (m, e) = written_digits(n);
        let (digits, exponent) = strip_zeros(m, e);
        Decimal { negative: s.total() < 0, digits: digits as u128, exponent: exponent as i32 }
    }
}

/// `whole` seconds of nine digits or more and a fraction in 10^-30 s, to thirteen digits.
fn round_long(whole: u128, rest: u128) -> (r: (u128, i64))
    requires
        100000000 <= whole <= 10000000000000000000,
        rest < QUECTOS_PER_SECOND,
    ensures
        (r.0 as nat, r.1 as int) == significand((whole * QUECTOS_PER_SECOND + rest) as nat, -30, 13),
        r.0 < pow10(13),
        -30 <= r.1 <= 30,
{
    let ghost n: nat = (whole * QUECTOS_PER_SECOND + rest) as nat;
    let count: u32 = count_digits(whole);
    let cut: u32 = count + 17;
    proof {
        lemma_pow10_values();
        lemma_digit_count(whole as nat);
        if count < 9 {
            lemma_pow10_monotone(count as nat, 8);
            assert(pow10(8) == 100000000) by {
                assert(pow10(7) == 10 * pow10(6));
                assert(pow10(8) == 10 * pow10(7));
            }
        }
        if count > 20 {
            lemma_pow10_monotone(20, (count - 1) as nat);
        }
        lemma_pow10_add(count as nat, 30);
        lemma_pow10_add((count - 1) as nat, 30);
        assert(n < pow10(count as nat) * pow10(30)) by (nonlinear_arith)
            requires
                n == whole * QUECTOS_PER_SECOND + rest,
                whole + 1 <= pow10(count as nat),
                rest < QUECTOS_PER_SECOND,
                pow10(30) == QUECTOS_PER_SECOND,
        ;
        assert(n >= pow10((count - 1) as nat) * pow10(30)) by (nonlinear_arith)
            requires
                n == whole * QUECTOS_PER_SECOND + rest,
                whole >= pow10((count - 1) as nat),
                rest >= 0,
                pow10(30) == QUECTOS_PER_SECOND,
        ;
        lemma_digit_count_between(n, (count + 30) as nat);
        lemma_pow10_monotone(0, cut as nat);
        lemma_pow10_monotone(cut as nat, 38);
    }
    let unit: u128 = power_of_ten(cut);
    let quotient: u128;
    let remainder: u128;
    if cut >= 30 {
        let scale: u128 = power_of_ten(cut - 30);
        proof {
            lemma_pow10_monotone(0, (cut - 30) as nat);
            lemma_pow10_monotone((cut - 30) as nat, 12);
            lemma_pow10_add((cut - 30) as nat, 30);
        }
        quotient = whole / scale;
        let over: u128 = whole % scale;
        proof {
            lemma_fundamental_div_mod(whole as int, scale as int);
            assert(over * QUECTOS_PER_SECOND + rest < scale * QUECTOS_PER_SECOND) by (nonlinear_arith)
                requires
                    over + 1 <= scale,
                    rest < QUECTOS_PER_SECOND,
            ;
            assert(n == quotient * unit + (over * QUECTOS_PER_SECOND + rest)) by (nonlinear_arith)
                requires
                    n == whole * QUECTOS_PER_SECOND + rest,
                    whole == scale * quotient + over,
                    unit == scale * QUECTOS_PER_SECOND,
            ;
        }
        assert(over * QUECTOS_PER_SECOND + rest < unit);
        assert(over * QUECTOS_PER_SECOND <= over * QUECTOS_PER_SECOND + rest);
        remainder = over * QUECTOS_PER_SECOND + rest;
    } else {
        let scale: u128 = power_of_ten(30 - cut);
        proof {
            lemma_pow10_monotone(0, (30 - cut) as nat);
            lemma_pow10_monotone((30 - cut) as nat, 4);
            lemma_pow10_add((30 - cut) as nat, cut as nat);
            lemma_fundamental_div_mod(rest as int, unit as int);
            assert(whole * scale <= 10000000000000000000 * 10000) by (nonlinear_arith)
                requires
                    whole <= 10000000000000000000,
                    scale <= 10000,
            ;
            assert(rest / unit <= rest) by (nonlinear_arith)
                requires
                    unit >= 1,
                    rest >= 0,
            ;
        }
        quotient = whole * scale + rest / unit;
        remainder = rest % unit;
        proof {
            assert(n == quotient * unit + remainder) by (nonlinear_arith)
                requires
                    n == whole * QUECTOS_PER_SECOND + rest,
                    rest == unit * (rest / unit) + remainder,
                    quotient == whole * scale + rest / unit,
                    QUECTOS_PER_SECOND == scale * unit,
            ;
        }
    }
    proof {
        lemma_fundamental_div_mod_converse(n as int, unit as int, quotient as int, remainder as int);
        lemma_pow10_add(13, cut as nat);
        assert(quotient < pow10(13)) by (nonlinear_arith)
            requires
                n == quotient * unit + remainder,
                remainder >= 0,
                n < pow10(13) * unit,
                unit > 0,
        ;
        assert(pow10((count + 30 - 13) as nat) == unit);
        lemma_significand(n, -30, 13);
    }
    let up: bool = !(2 * remainder < unit || (2 * remainder == unit && quotient % 2 == 0));
    let rounded: u128 = if up {
        quotient + 1
    } else {
        quotient
    };
    assert(rounded == round_half_even(n, unit as nat));
    if rounded == 10000000000000 {
        (1000000000000, cut as i64 - 30 + 1)
    } else {
        (rounded, cut as i64 - 30)
    }
}

/// The digits of a time without its trailing zeros, and their power of ten.
proof fn lemma_stripped_time(whole: nat, rest: nat, kept: nat, zeros: nat)
    requires
        rest > 0,
        kept % 10 != 0,
        zeros < 30,
        rest == kept * pow10(zeros),
    ensures
        strip_zeros((whole * QUECTOS_PER_SECOND + rest) as nat, -30) == (
            (whole * pow10((30 - zeros) as nat) + kept) as nat,
            zeros - 30,
        ),
{
    lemma_pow10_values();
    let up = pow10((30 - zeros) as nat);
    let low = pow10(zeros);
    lemma_pow10_add((30 - zeros) as nat, zeros);
    assert(up == 10 * pow10((29 - zeros) as nat));
    let digits = whole * up + kept;
    let tens = whole * pow10((29 - zeros) as nat);
    assert(whole * up == 10 * tens) by (nonlinear_arith)
        requires
            up == 10 * pow10((29 - zeros) as nat),
            tens == whole * pow10((29 - zeros) as nat),
    ;
    assert(digits % 10 != 0);
    assert(digits * low == whole * QUECTOS_PER_SECOND + rest) by (nonlinear_arith)
        requires
            digits == whole * up + kept,
            QUECTOS_PER_SECOND == up * low,
            rest == kept * low,
    ;
    crate::reread::lemma_strip_added(digits, zeros - 30, zeros);
}

/// A count of 10^-30 s in thirteen digits (see [`written_digits`]).
fn round_time(whole: u128, rest: u128) -> (r: (u128, i64))
    requires
        whole <= 10000000000000000000,
        rest < QUECTOS_PER_SECOND,
        whole > 0 || rest > 0,
    ensures
        (r.0 as nat, r.1 as int) == written_digits((whole * QUECTOS_PER_SECOND + rest) as nat),
        r.0 < pow10(13),
        -100 <= r.1 <= 100,
{
    let ghost n: nat = (whole * QUECTOS_PER_SECOND + rest) as nat;
    proof {
        lemma_pow10_values();
        lemma_strip_zeros(n, -30);
    }
    if whole < 100000000 {
        let (digits, exponent) = strip_trailing(whole * QUECTOS_PER_SECOND + rest, -30);
        return round_formatted(digits, exponent, 13, false);
    }
    if rest == 0 {
        let (digits, exponent) = strip_trailing(whole, 0);
        proof {
            crate::reread::lemma_strip_value(whole as nat, 0);
            lemma_strip_zeros(whole as nat, 0);
            lemma_pow10_add(exponent as nat, 30);
            assert(n == digits * pow10((exponent + 30) as nat)) by (nonlinear_arith)
                requires
                    n == whole * QUECTOS_PER_SECOND,
                    whole == digits * pow10(exponent as nat),
                    pow10((exponent + 30) as nat) == pow10(exponent as nat) * pow10(30),
                    pow10(30) == QUECTOS_PER_SECOND,
            ;
            crate::reread::lemma_strip_added(
                digits as nat,
                exponent as int,
                (exponent + 30) as nat,
            );
        }
        return round_formatted(digits, exponent, 13, false);
    }
    let (kept, zeros) = strip_trailing(rest, 0);
    proof {
        crate::reread::lemma_strip_value(rest as nat, 0);
        lemma_strip_zeros(rest as nat, 0);
        if zeros >= 30 {
            lemma_pow10_monotone(30, zeros as nat);
            assert(kept * pow10(zeros as nat) >= pow10(zeros as nat)) by (nonlinear_arith)
                requires
                    kept >= 1,
                    pow10(zeros as nat) >= 0,
            ;
        }
        lemma_stripped_time(whole as nat, rest as nat, kept as nat, zeros as nat);
        lemma_pow10_add((8 + zeros) as nat, (30 - zeros) as nat);
        lemma_pow10_add((30 - zeros) as nat, zeros as nat);
        lemma_pow10_monotone((8 + zeros) as nat, 38);
        lemma_pow10_monotone((30 - zeros) as nat, 38);
    }
    let limit: u128 = power_of_ten(8 + zeros as u32);
    let scale: u128 = power_of_ten(30 - zeros as u32);
    proof {
        assert(kept < scale) by (nonlinear_arith)
            requires
                rest == kept * pow10(zeros as nat),
                rest < pow10(30),
                pow10(30) == scale * pow10(zeros as nat),
                pow10(zeros as nat) >= 0,
        ;
        assert(whole < limit ==> whole * scale + kept < limit * scale) by (nonlinear_arith)
            requires
                kept < scale,
        ;
        assert(whole >= limit ==> whole * scale + kept >= limit * scale) by (nonlinear_arith)
            requires
                kept >= 0,
                scale >= 0,
        ;
    }
    if whole < limit {
        assert(whole * scale <= whole * scale + kept);
        round_formatted(whole * scale + kept, zeros - 30, 13, false)
    } else {
        round_long(whole, rest)
    }
}

/// A time in thirteen digits (see [`written`]).
pub fn written_seconds(s: Seconds) -> (r: Decimal)
    ensures
        r == written(s),
{
    let (floor, above) = split_time(s);
    let negative: bool = floor < 0;
    let (whole, rest): (u128, u128) = if !negative {
        (floor as u128, above)
    } else if above == 0 {
        ((-floor) as u128, 0)
    } else {
        ((-floor - 1) as u128, QUECTOS_PER_SECOND - above)
    };
    proof {
        assert(whole * QUECTOS_PER_SECOND + rest == magnitude(s.total())) by (nonlinear_arith)
            requires
                floor * QUECTOS_PER_SECOND + above == s.total(),
                above < QUECTOS_PER_SECOND,
                !negative ==> whole == floor && rest == above && floor >= 0,
                negative && above == 0 ==> whole == -floor && rest == 0,
                negative && above != 0 ==> whole == -floor - 1 && rest == QUECTOS_PER_SECOND - above,
                negative == (floor < 0),
                floor >= 0 ==> s.total() >= 0,
                floor < 0 ==> s.total() < 0,
        ;
    }
    if whole == 0 && rest == 0 {
        return Decimal::zero();
    }
    let (m, e): (u128, i64) = round_time(whole, rest);
    proof {
        lemma_written_digits((whole * QUECTOS_PER_SECOND + rest) as nat);
        lemma_pow10_values();
    }
    let (digits, exponent) = strip_trailing(m, e);
    Decimal { negative, digits, exponent: exponent as i32 }
}

/// The week and time of week as they will read back once written: a time that the thirteen digits
/// round out of the week is carried into the next, at most `rounds` times.
pub open spec fn settled(w: GnssWeekTow, rounds: nat) -> GnssWeekTow
    decreases rounds,
{
    let rounded = seconds_of(written(w.tow_s));
    if rounds == 0 || 0 <= rounded.whole < SECONDS_PER_WEEK {
        w
    } else {
        match (GnssWeekTow { tow_s: rounded, ..w }).carried() {
            Some(next) => settled(next, (rounds - 1) as nat),
            None => w,
        }
    }
}

/// The week and time of week as they will read back once written (see [`settled`]).
pub fn serialized_week_tow(week_tow: GnssWeekTow) -> (r: GnssWeekTow)
    ensures
        r == settled(week_tow, 3),
{
    let mut current: GnssWeekTow = week_tow;
    let mut rounds: u32 = 3;
    while rounds > 0
        invariant
            settled(week_tow, 3) == settled(current, rounds as nat),
        decreases rounds,
    {
        let rounded = Seconds::from_decimal(written_seconds(current.tow_s));
        if 0 <= rounded.whole && rounded.whole < SECONDS_PER_WEEK {
            return current;
        }
        let moved = GnssWeekTow { system: current.system, week: current.week, tow_s: rounded };
        assert(moved == (GnssWeekTow { tow_s: rounded, ..current }));
        match moved.normalized() {
            Some(next) => {
                current = next;
            },
            None => {
                return current;
            },
        }
        rounds = rounds - 1;
    }
    current
}

/// A time rounded to the nearest second, halves away from zero.
pub open spec fn nearest_second(s: Seconds) -> int {
    let q = QUECTOS_PER_SECOND as int;
    if s.total() >= 0 {
        (2 * s.total() + q) / (2 * q)
    } else {
        -((2 * -s.total() + q) / (2 * q))
    }
}

/// A time rounded to the nearest second, brought into the range of `i64`.
fn round_second(s: Seconds) -> (r: i64)
    ensures
        r == clamped(nearest_second(s)),
{
    let (floor, above) = split_time(s);
    let up: bool = if floor >= 0 {
        2 * above >= QUECTOS_PER_SECOND
    } else {
        2 * above > QUECTOS_PER_SECOND
    };
    let n: i128 = if up {
        floor + 1
    } else {
        floor
    };
    proof {
        let q = QUECTOS_PER_SECOND as int;
        let t = s.total();
        if floor >= 0 {
            assert(t >= 0);
            lemma_fundamental_div_mod_converse(2 * t + q, 2 * q, n as int, 2 * t + q - n * (2 * q));
        } else {
            assert(t < 0);
            let m: int = -n;
            let rest = 2 * -t + q - m * (2 * q);
            assert(m * (2 * q) == -2 * (n * q)) by (nonlinear_arith)
                requires
                    m == -n,
            ;
            assert(n * q == floor * q + (if up {
                q
            } else {
                0
            })) by (nonlinear_arith)
                requires
                    n == floor + (if up {
                        1int
                    } else {
                        0
                    }),
            ;
            lemma_fundamental_div_mod_converse(2 * -t + q, 2 * q, m, rest);
        }
    }
    if n > 9223372036854775807 {
        i64::MAX
    } else {
        n as i64
    }
}

/// The date of a day number.
pub open spec fn date_of_day(n: int) -> (int, int, int) {
    choose|date: (int, int, int)|
        valid_date(date.0, date.1, date.2) && #[trigger] day_number(date.0, date.1, date.2) == n
}

/// The date of a day number (see [`date_of_day`]).
fn date_at(n: i64) -> (r: (i64, u8, u8))
    requires
        -300000000000000 <= n <= 300000000000000,
    ensures
        (r.0 as int, r.1 as int, r.2 as int) == date_of_day(n as int),
{
    let (year, month, day) = date_of_number(n);
    proof {
        let date = (year as int, month as int, day as int);
        assert(valid_date(date.0, date.1, date.2) && day_number(date.0, date.1, date.2) == n);
        let chosen = date_of_day(n as int);
        lemma_date_unique(chosen.0, chosen.1, chosen.2, date.0, date.1, date.2);
    }
    (year, month, day)
}

/// A civil time.
#[derive(Debug, Clone, Copy, PartialEq, Eq, Structural)]
pub struct CivilTime {
    /// The year.
    pub year: i64,
    /// The month.
    pub month: u8,
    /// The day of the month.
    pub day: u8,
    /// The hour.
    pub hour: u8,
    /// The minute.
    pub minute: u8,
    /// The second.
    pub second: Decimal,
}

/// The civil time `second` whole seconds and `above` 10^-30 s past the start of day `day`.
pub open spec fn civil_at(day: int, second: int, above: int) -> CivilTime {
    let date = date_of_day(day);
    CivilTime {
        year: date.0 as i64,
        month: date.1 as u8,
        day: date.2 as u8,
        hour: (second / 3600) as u8,
        minute: (second % 3600 / 60) as u8,
        second: Decimal {
            negative: false,
            digits: ((second % 60) * QUECTOS_PER_SECOND + above) as u128,
            exponent: (-30) as i32,
        },
    }
}

/// `a` modulo `b`, from zero up.
pub fn floor_mod(a: i128, b: i128) -> (r: i128)
    requires
        0 < b <= 1000000,
        -1000000000000000000000000 <= a <= 1000000000000000000000000,
    ensures
        r == a as int % b as int,
        0 <= r < b,
{
    if a >= 0 {
        a % b
    } else {
        let m: i128 = -1 - a;
        let r: i128 = b - 1 - m % b;
        proof {
            let q = m as int / b as int;
            lemma_fundamental_div_mod(m as int, b as int);
            assert(b * q == q * b) by (nonlinear_arith);
            assert((-1 - q) * b == -b - q * b) by (nonlinear_arith);
            lemma_fundamental_div_mod_converse(a as int, b as int, -1 - q, r as int);
        }
        r
    }
}

/// The civil time `seconds` and `above` 10^-30 s past the start of day `base`.
fn civil_after(base: i64, seconds: i128, above: u128) -> (r: CivilTime)
    requires
        -100000000000 <= base <= 100000000000,
        -10000000000000000000 <= seconds <= 10000000000000000000,
        above < QUECTOS_PER_SECOND,
    ensures
        r == civil_at(
            base + seconds as int / SECONDS_PER_DAY as int,
            seconds as int % SECONDS_PER_DAY as int,
            above as int,
        ),
{
    let days: i128;
    let tod: i128;
    if seconds >= 0 {
        days = seconds / 86400;
        tod = seconds % 86400;
    } else {
        let m: i128 = -1 - seconds;
        days = -1 - m / 86400;
        tod = 86399 - m % 86400;
        proof {
            lemma_fundamental_div_mod(m as int, 86400);
            lemma_fundamental_div_mod_converse(seconds as int, 86400, days as int, tod as int);
        }
    }
    assert(days == seconds as int / 86400 && tod == seconds as int % 86400);
    assert(0 <= tod < 86400);
    assert(-200000000000000 <= days <= 200000000000000);
    let (year, month, day) = date_at(base + days as i64);
    let sec: u128 = (tod % 60) as u128;
    assert(sec * QUECTOS_PER_SECOND <= 60 * QUECTOS_PER_SECOND);
    CivilTime {
        year,
        month,
        day,
        hour: (tod / 3600) as u8,
        minute: (tod % 3600 / 60) as u8,
        second: Decimal { negative: false, digits: sec * QUECTOS_PER_SECOND + above, exponent: -30 },
    }
}

/// The civil time of a clock reference time, to the nearest second.
pub open spec fn clock_civil(toc: GnssWeekTow) -> CivilTime {
    let second = clamped(nearest_second(toc.tow_s));
    civil_at(
        week_epoch_day(toc.system) + toc.week * 7 + second / SECONDS_PER_DAY as int,
        second % SECONDS_PER_DAY as int,
        0,
    )
}

/// The civil time of a clock reference time, to the nearest second (see [`clock_civil`]).
pub fn clock_epoch_civil(toc: GnssWeekTow) -> (r: CivilTime)
    ensures
        r == clock_civil(toc),
{
    let epoch: i64 = crate::time::week_epoch(toc.system);
    civil_after(epoch + toc.week as i64 * 7, round_second(toc.tow_s) as i128, 0)
}

/// The civil time `s` past J2000 noon.
pub open spec fn j2000_civil(s: Seconds) -> CivilTime {
    let whole = s.total() / (QUECTOS_PER_SECOND as int) + 43200;
    civil_at(
        J2000_DAY + whole / SECONDS_PER_DAY as int,
        whole % SECONDS_PER_DAY as int,
        s.total() % (QUECTOS_PER_SECOND as int),
    )
}

/// The civil time `s` past J2000 noon (see [`j2000_civil`]): whole days and seconds of day, the
/// fraction kept.
pub fn civil_from_j2000_s(s: Seconds) -> (r: CivilTime)
    ensures
        r == j2000_civil(s),
{
    let (whole, above) = split_time(s);
    civil_after(J2000_DAY, whole + 43200, above)
}

/// Zeros moved to the exponent do not change a number.
proof fn lemma_scaled_strip(digits: nat, exponent: int)
    ensures
        ({
            let (d, e) = strip_zeros(digits, exponent);
            scaled(d, e) == scaled(digits, exponent)
        }),
    decreases digits,
{
    if digits > 0 && digits % 10 == 0 {
        let d = digits / 10;
        lemma_scaled_strip(d, exponent + 1);
        if exponent >= 0 {
            let p = pow10(exponent as nat);
            assert(pow10((exponent + 1) as nat) == 10 * p);
            assert(d * (10 * p) == digits * p) by (nonlinear_arith)
                requires
                    digits == 10 * d,
            ;
        } else {
            let k = (-exponent - 1) as nat;
            let p = pow10(k);
            lemma_pow10_monotone(0, k);
            assert(pow10((k + 1) as nat) == 10 * p);
            vstd::arithmetic::div_mod::lemma_div_denominator(digits as int, 10, p as int);
            if exponent == -1 {
                assert(p == 1);
                assert(d * pow10(0) == d) by {
                    assert(pow10(0) == 1);
                    assert(d * 1 == d);
                }
            }
        }
    }
}

/// Thirteen digits of a count, in the unit it was counted in: all of it, or its first digits, or
/// those and one more.
proof fn lemma_first_digits(n: nat, q: nat, m: nat, e: int)
    requires
        digit_count(n) > 13,
        n > 0,
        ({
            let k = (digit_count(n) - 13) as nat;
            let whole = n / pow10(k);
            &&& q == whole || q == whole + 1
            &&& (m, e) == (if q == pow10(13) {
                (pow10(12), k - 29)
            } else {
                (q, k - 30)
            })
        }),
    ensures
        scaled(m, e + 30) == q * pow10((digit_count(n) - 13) as nat),
{
    let k = (digit_count(n) - 13) as nat;
    if q == pow10(13) {
        assert(pow10(13) * pow10(k) == pow10(12) * pow10((k + 1) as nat)) by {
            lemma_pow10_add(13, k);
            lemma_pow10_add(12, (k + 1) as nat);
        }
    }
}

/// A count written in thirteen digits: the power of ten goes by the number of digits, and in the
/// unit it was counted in it is the count, or its first digits, or those and one more.
pub proof fn lemma_written_digits(n: nat)
    requires
        n > 0,
    ensures
        ({
            let (m, e) = written_digits(n);
            let c = digit_count(n);
            let unit = pow10((c - 13) as nat);
            &&& pow10(12) <= m < pow10(13)
            &&& c - 43 <= e <= c - 42
            &&& scaled(m, e + 30) == n || (c > 13 && (scaled(m, e + 30) == (n / unit) * unit
                || scaled(m, e + 30) == (n / unit + 1) * unit))
        }),
{
    let c = digit_count(n);
    let (digits, exponent) = strip_zeros(n, -30);
    let (m, e) = written_digits(n);
    lemma_strip_zeros(n, -30);
    lemma_digit_count(n);
    lemma_digit_count(digits);
    lemma_significand(n, -30, 13);
    let d = digit_count(digits);
    let z = (exponent + 30) as nat;
    assert(c == d + z);
    lemma_strip_shift(n, -30, 30);
    crate::reread::lemma_strip_value(n, 0);
    assert(n == digits * pow10(z));
    if digits < pow10(38) {
        lemma_formatted(digits, exponent, 13, false);
        if d <= 13 {
            let k = (13 - d) as nat;
            assert(m == digits * pow10(k) && e == exponent - k);
            lemma_pow10_monotone(0, k);
            if z >= k {
                lemma_pow10_add(k, (z - k) as nat);
                assert((digits * pow10(k)) * pow10((z - k) as nat) == digits * pow10(z))
                    by (nonlinear_arith)
                    requires
                        pow10(z) == pow10(k) * pow10((z - k) as nat),
                ;
            } else {
                let y = (k - z) as nat;
                lemma_pow10_add(z, y);
                lemma_pow10_monotone(0, y);
                assert(digits * pow10(k) == n * pow10(y)) by (nonlinear_arith)
                    requires
                        pow10(k) == pow10(z) * pow10(y),
                        n == digits * pow10(z),
                ;
                vstd::arithmetic::div_mod::lemma_div_by_multiple(n as int, pow10(y) as int);
            }
            assert(scaled(m, e + 30) == n);
        } else {
            let k = (d - 13) as nat;
            lemma_pow10_add(k, z);
            lemma_pow10_monotone(0, k);
            lemma_pow10_monotone(0, z);
            assert(k + z == (c - 13) as nat);
            vstd::arithmetic::div_mod::lemma_div_multiples_vanish_quotient(
                pow10(z) as int,
                digits as int,
                pow10(k) as int,
            );
            assert(pow10(z) * digits == n && pow10(z) * pow10(k) == pow10((c - 13) as nat))
                by (nonlinear_arith)
                requires
                    n == digits * pow10(z),
                    pow10((c - 13) as nat) == pow10(k) * pow10(z),
            ;
            let whole = digits / pow10(k);
            assert(whole == n / pow10((c - 13) as nat));
            let q = if exponent > 500 {
                round_half_even(digits, pow10(k))
            } else if rounds_up(held_double(digits, exponent, false), whole, exponent + k) {
                whole + 1
            } else {
                whole
            };
            assert(exponent + k == c - 43);
            lemma_first_digits(n, q, m, e);
        }
    } else {
        if c > 13 {
            let k = (c - 13) as nat;
            let q = round_half_even(n, pow10(k));
            lemma_first_digits(n, q, m, e);
        } else {
            lemma_pow10_monotone(c, 38);
        }
    }
}

/// Whole units of a count, and one more, do not pass a multiple of the unit above it.
proof fn lemma_next_unit(n: nat, unit: nat, limit: nat)
    requires
        unit > 0,
        n < limit * unit,
    ensures
        (n / unit) * unit <= limit * unit,
        (n / unit + 1) * unit <= limit * unit,
{
    lemma_fundamental_div_mod(n as int, unit as int);
    let q = n as int / unit as int;
    assert(q < limit) by (nonlinear_arith)
        requires
            n == unit * q + n as int % unit as int,
            n as int % unit as int >= 0,
            n < limit * unit,
            unit > 0,
    ;
    assert((q + 1) * unit <= limit * unit && q * unit <= limit * unit) by (nonlinear_arith)
        requires
            q + 1 <= limit,
            unit > 0,
    ;
}

/// A time within the week is written as a time within the week or as its end.
proof fn lemma_written_in_week(s: Seconds)
    requires
        s.wf(),
        0 <= s.whole < SECONDS_PER_WEEK,
    ensures
        ({
            let r = seconds_of(written(s));
            0 <= r.whole < SECONDS_PER_WEEK || r == (Seconds { whole: SECONDS_PER_WEEK, quectos: 0 })
        }),
{
    let q = QUECTOS_PER_SECOND as int;
    let n = s.total() as nat;
    lemma_pow10_values();
    let limit = SECONDS_PER_WEEK * q;
    assert(s.whole * q >= 0) by (nonlinear_arith)
        requires
            s.whole >= 0,
            q > 0,
    ;
    assert(n < limit) by (nonlinear_arith)
        requires
            n == s.whole * q + s.quectos,
            s.whole + 1 <= SECONDS_PER_WEEK,
            s.quectos < q,
            limit == SECONDS_PER_WEEK * q,
    ;
    let d = written(s);
    if n == 0 {
        assert(quectos_of(d) == 0) by {
            assert(0 * pow10(30) == 0);
        }
        assert(0int / q == 0 && 0int % q == 0);
    } else {
        let (m, e) = written_digits(n);
        let c = digit_count(n);
        lemma_digit_count(n);
        if c > 36 {
            lemma_pow10_monotone(36, (c - 1) as nat);
            lemma_pow10_add(6, 30);
        }
        lemma_written_digits(n);
        lemma_strip_zeros(m, e);
        lemma_scaled_strip(m, e + 30);
        lemma_strip_shift(m, e, 30);
        let (digits, exponent) = strip_zeros(m, e);
        assert(digits < pow10(13));
        assert(e >= -43 && exponent <= e + 13) by {
            lemma_digit_count(digits);
            crate::decimal::lemma_digit_count_between(m, 13);
        }
        let r = scaled(m, e + 30);
        assert(quectos_of(d) == r);
        if c > 13 {
            let k = (c - 13) as nat;
            lemma_pow10_monotone(0, k);
            let units = 604800 * pow10((30 - k) as nat);
            lemma_pow10_add((30 - k) as nat, k);
            assert(units * pow10(k) == limit) by (nonlinear_arith)
                requires
                    units == 604800 * pow10((30 - k) as nat),
                    pow10(30) == pow10((30 - k) as nat) * pow10(k),
                    limit == 604800 * pow10(30),
            ;
            lemma_next_unit(n, pow10(k), units as nat);
        }
        assert(r <= limit);
        lemma_fundamental_div_mod(r as int, q);
        if r == limit {
            lemma_fundamental_div_mod_converse(r as int, q, SECONDS_PER_WEEK as int, 0);
        } else {
            assert(r as int / q < SECONDS_PER_WEEK) by (nonlinear_arith)
                requires
                    r == q * (r as int / q) + r as int % q,
                    r as int % q >= 0,
                    r < SECONDS_PER_WEEK * q,
                    q > 0,
            ;
        }
    }
}

/// Stripping zeros does not depend on where the exponent is counted from.
proof fn lemma_strip_shift(digits: nat, exponent: int, by: int)
    ensures
        strip_zeros(digits, exponent + by).0 == strip_zeros(digits, exponent).0,
        strip_zeros(digits, exponent + by).1 == strip_zeros(digits, exponent).1 + by,
    decreases digits,
{
    if digits > 0 && digits % 10 == 0 {
        lemma_strip_shift(digits / 10, exponent + 1, by);
    }
}

/// The week and time that are written read back as they are: the time written lies in the week, or
/// the week is the last there is.
pub proof fn law_settled(w: GnssWeekTow)
    ensures
        ({
            let s = settled(w, 3);
            let rounded = seconds_of(written(s.tow_s));
            0 <= rounded.whole < SECONDS_PER_WEEK || (GnssWeekTow { tow_s: rounded, ..s })
                .carried() is None
        }),
{
    let r0 = seconds_of(written(w.tow_s));
    if !(0 <= r0.whole < SECONDS_PER_WEEK) {
        if let Some(n1) = (GnssWeekTow { tow_s: r0, ..w }).carried() {
            lemma_seconds_wf(written(w.tow_s));
            lemma_fundamental_div_mod(r0.whole as int, SECONDS_PER_WEEK as int);
            lemma_written_in_week(n1.tow_s);
            let r1 = seconds_of(written(n1.tow_s));
            if !(0 <= r1.whole < SECONDS_PER_WEEK) {
                if let Some(n2) = (GnssWeekTow { tow_s: r1, ..n1 }).carried() {
                    lemma_fundamental_div_mod_converse(
                        SECONDS_PER_WEEK as int,
                        SECONDS_PER_WEEK as int,
                        1,
                        0,
                    );
                    assert(n2.tow_s == (Seconds { whole: 0, quectos: 0 }));
                    lemma_written_in_week(n2.tow_s);
                    let r2 = seconds_of(written(n2.tow_s));
                    assert(written(n2.tow_s) == zero());
                    assert(quectos_of(zero()) == 0) by {
                        assert(0 * pow10(30) == 0);
                    }
                    assert(0int / QUECTOS_PER_SECOND as int == 0);
                    assert(r2.whole == 0);
                    assert(settled(n2, 1) == n2);
                    assert(settled(n1, 2) == settled(n2, 1));
                    assert(settled(w, 3) == settled(n1, 2));
                } else {
                    assert(settled(n1, 2) == n1);
                    assert(settled(w, 3) == settled(n1, 2));
                }
            } else {
                assert(settled(n1, 2) == n1);
                assert(settled(w, 3) == settled(n1, 2));
            }
        }
    }
}

/// A time read has a fraction below one second.
proof fn lemma_seconds_wf(d: Decimal)
    ensures
        seconds_of(d).wf(),
{
}

} // verus!

//! Calendar dates, seconds and weeks.
//!
//! A time is held exactly, to a resolution of 10^-30 s.

use vstd::prelude::*;

use crate::decimal::{pow10, power_of_ten, Decimal};

verus! {

/// A continuous time scale a broadcast record is dated in.
#[derive(Debug, Clone, Copy, PartialEq, Eq, Structural)]
pub enum TimeScale {
    /// GPS time, which QZSS and NavIC records use too.
    Gpst,
    /// Galileo system time.
    Gst,
    /// BeiDou time.
    Bdt,
}

/// Seconds in a day.
pub const SECONDS_PER_DAY: i64 = 86400;

/// Seconds in a week.
pub const SECONDS_PER_WEEK: i64 = 604800;

/// 10^-30 s in a second.
pub const QUECTOS_PER_SECOND: u128 = 1000000000000000000000000000000;

/// The largest number of whole seconds a stated time counts for.
pub const MAX_WHOLE_SECONDS: i64 = 10000000000000000;

/// Whether `year` is a leap year of the Gregorian calendar.
pub open spec fn leap_year(year: int) -> bool {
    year % 4 == 0 && (year % 100 != 0 || year % 400 == 0)
}

/// The number of days of a month.
pub open spec fn days_in_month(year: int, month: int) -> int {
    if month == 2 {
        if leap_year(year) {
            29
        } else {
            28
        }
    } else if month == 4 || month == 6 || month == 9 || month == 11 {
        30
    } else {
        31
    }
}

/// The number of days from 0001-01-01 to the start of `year`.
pub open spec fn days_before_year(year: int) -> int {
    365 * (year - 1) + (year - 1) / 4 - (year - 1) / 100 + (year - 1) / 400
}

/// The number of days of a year before one of its months.
pub open spec fn days_before_month(year: int, month: int) -> int
    decreases month,
{
    if month <= 1 {
        0
    } else {
        days_before_month(year, month - 1) + days_in_month(year, month - 1)
    }
}

/// The number of days from 0001-01-01 to a date.
pub open spec fn day_number(year: int, month: int, day: int) -> int {
    days_before_year(year) + days_before_month(year, month) + day - 1
}

/// Whether a date is one of the calendar.
pub open spec fn valid_date(year: int, month: int, day: int) -> bool {
    1 <= month <= 12 && 1 <= day <= days_in_month(year, month)
}

/// The day number of 2000-01-01, the date of J2000.
pub const J2000_DAY: i64 = 730119;

/// The day number of the date the week count of a scale starts at: 1980-01-06 for GPS and
/// Galileo weeks, 2006-01-01 for BeiDou weeks.
pub open spec fn week_epoch_day(scale: TimeScale) -> int {
    match scale {
        TimeScale::Bdt => 732311,
        _ => 722819,
    }
}

/// The day number a week count starts at (see [`week_epoch_day`]).
pub fn week_epoch(scale: TimeScale) -> (r: i64)
    ensures
        r == week_epoch_day(scale),
{
    match scale {
        TimeScale::Bdt => 732311,
        _ => 722819,
    }
}

/// A time span or a time: whole seconds and a fraction of a second in 10^-30 s.
#[derive(Debug, Clone, Copy, PartialEq, Eq, Structural)]
pub struct Seconds {
    /// Whole seconds, rounded down.
    pub whole: i64,
    /// The fraction above the whole seconds, in 10^-30 s.
    pub quectos: u128,
}

impl Seconds {
    /// The fraction is below one second.
    pub open spec fn wf(self) -> bool {
        self.quectos < QUECTOS_PER_SECOND
    }

    /// The time in 10^-30 s.
    pub open spec fn total(self) -> int {
        self.whole * QUECTOS_PER_SECOND + self.quectos
    }
}

/// `digits` times ten to the `exponent`, rounded down.
pub open spec fn scaled(digits: nat, exponent: int) -> nat {
    if exponent >= 0 {
        digits * pow10(exponent as nat)
    } else {
        digits / pow10((-exponent) as nat)
    }
}

/// Whether `digits` times ten to the `exponent` is an integer.
pub open spec fn scaled_exactly(digits: nat, exponent: int) -> bool {
    exponent >= 0 || digits % pow10((-exponent) as nat) == 0
}

/// A number of seconds in 10^-30 s, rounded down.
pub open spec fn quectos_of(d: Decimal) -> int {
    let m = scaled(d.digits as nat, d.exponent + 30) as int;
    if !d.below_zero() {
        m
    } else if scaled_exactly(d.digits as nat, d.exponent + 30) {
        -m
    } else {
        -m - 1
    }
}

/// The time a number of seconds states, rounded down to 10^-30 s. A magnitude of 10^16 s or more
/// counts as 10^16 s.
pub open spec fn seconds_of(d: Decimal) -> Seconds {
    let limit = MAX_WHOLE_SECONDS * QUECTOS_PER_SECOND;
    let q = quectos_of(d);
    if q >= limit {
        Seconds { whole: MAX_WHOLE_SECONDS, quectos: 0 }
    } else if q < -limit {
        Seconds { whole: (-MAX_WHOLE_SECONDS) as i64, quectos: 0 }
    } else {
        Seconds {
            whole: (q / (QUECTOS_PER_SECOND as int)) as i64,
            quectos: (q % (QUECTOS_PER_SECOND as int)) as u128,
        }
    }
}

/// The magnitude of a number of seconds as whole seconds below 10^16, a fraction rounded down, and
/// whether the fraction is exact. `None` for a larger magnitude.
fn split_magnitude(d: Decimal) -> (r: Option<(i64, u128, bool)>)
    ensures
        r matches Some((whole, quectos, exact)) ==> {
            &&& 0 <= whole < MAX_WHOLE_SECONDS
            &&& quectos < QUECTOS_PER_SECOND
            &&& whole * QUECTOS_PER_SECOND + quectos == scaled(d.digits as nat, d.exponent + 30)
            &&& exact == scaled_exactly(d.digits as nat, d.exponent + 30)
        },
        r is None ==> scaled(d.digits as nat, d.exponent + 30) >= MAX_WHOLE_SECONDS
            * QUECTOS_PER_SECOND,
{
    let ghost digits = d.digits as nat;
    proof {
        crate::decimal::lemma_pow10_values();
    }
    if d.digits == 0 {
        proof {
            if d.exponent + 30 >= 0 {
                assert(0 * pow10((d.exponent + 30) as nat) == 0);
            } else {
                let unit = pow10((-(d.exponent + 30)) as nat);
                crate::decimal::lemma_pow10_monotone(0, (-(d.exponent + 30)) as nat);
                vstd::arithmetic::div_mod::lemma_div_basics(unit as int);
                vstd::arithmetic::div_mod::lemma_small_mod(0, unit);
            }
        }
        return Some((0, 0, true));
    }
    if d.exponent >= 0 {
        let mut m: u128 = d.digits;
        let mut e: i32 = d.exponent;
        let ghost total = digits * pow10(d.exponent as nat);
        proof {
            crate::decimal::lemma_pow10_add(d.exponent as nat, 30);
            assert(digits * (pow10(d.exponent as nat) * pow10(30)) == total * pow10(30))
                by (nonlinear_arith)
                requires
                    total == digits * pow10(d.exponent as nat),
            ;
        }
        while e > 0
            invariant
                0 <= e <= d.exponent,
                m > 0,
                m as nat * pow10(e as nat) == total,
                scaled(d.digits as nat, d.exponent + 30) == total * QUECTOS_PER_SECOND,
            decreases e,
        {
            if m >= MAX_WHOLE_SECONDS as u128 {
                proof {
                    crate::decimal::lemma_pow10_monotone(0, e as nat);
                    assert(total >= m as nat) by (nonlinear_arith)
                        requires
                            m as nat * pow10(e as nat) == total,
                            pow10(e as nat) >= 1,
                    ;
                }
                return None;
            }
            proof {
                let p = pow10((e - 1) as nat);
                assert(pow10(e as nat) == 10 * p);
                assert((m as nat * 10) * p == m as nat * (10 * p)) by (nonlinear_arith);
            }
            m = m * 10;
            e = e - 1;
        }
        assert(m as nat * 1 == m as nat);
        if m >= MAX_WHOLE_SECONDS as u128 {
            return None;
        }
        return Some((m as i64, 0, true));
    }
    let k: i64 = -(d.exponent as i64);
    if k <= 30 {
        let unit: u128 = power_of_ten(k as u32);
        let rest: u128 = power_of_ten((30 - k) as u32);
        proof {
            crate::decimal::lemma_pow10_monotone(0, k as nat);
            crate::decimal::lemma_pow10_monotone(0, (30 - k) as nat);
            crate::decimal::lemma_pow10_add(k as nat, (30 - k) as nat);
            vstd::arithmetic::div_mod::lemma_fundamental_div_mod(digits as int, unit as int);
        }
        let whole: u128 = d.digits / unit;
        let part: u128 = d.digits % unit;
        proof {
            assert(digits * rest == whole * (unit * rest) + part * rest) by (nonlinear_arith)
                requires
                    digits == unit * whole + part,
            ;
            assert(part * rest < unit * rest) by (nonlinear_arith)
                requires
                    part < unit,
                    rest > 0,
            ;
        }
        if whole >= MAX_WHOLE_SECONDS as u128 {
            return None;
        }
        Some((whole as i64, part * rest, true))
    } else {
        let j: i64 = k - 30;
        if j > 38 {
            proof {
                crate::decimal::lemma_pow10_monotone(39, j as nat);
                assert(pow10(39) == 10 * pow10(38));
                vstd::arithmetic::div_mod::lemma_basic_div(digits as int, pow10(j as nat) as int);
                vstd::arithmetic::div_mod::lemma_small_mod(digits, pow10(j as nat));
            }
            return Some((0, 0, false));
        }
        let unit: u128 = power_of_ten(j as u32);
        proof {
            crate::decimal::lemma_pow10_monotone(0, j as nat);
        }
        let q: u128 = d.digits / unit;
        let whole: u128 = q / QUECTOS_PER_SECOND;
        proof {
            assert(q <= d.digits) by (nonlinear_arith)
                requires
                    q == d.digits / unit,
                    unit >= 1,
            ;
        }
        Some((whole as i64, q % QUECTOS_PER_SECOND, d.digits % unit == 0))
    }
}

impl Seconds {
    /// The time a number of seconds states (see [`seconds_of`]).
    pub fn from_decimal(d: Decimal) -> (r: Seconds)
        ensures
            r == seconds_of(d),
            r.wf(),
            -MAX_WHOLE_SECONDS <= r.whole <= MAX_WHOLE_SECONDS,
    {
        let negative: bool = d.negative && d.digits > 0;
        match split_magnitude(d) {
            None => {
                if negative {
                    Seconds { whole: -MAX_WHOLE_SECONDS, quectos: 0 }
                } else {
                    Seconds { whole: MAX_WHOLE_SECONDS, quectos: 0 }
                }
            },
            Some((whole, quectos, exact)) => {
                let ghost q = quectos_of(d);
                let ghost unit = QUECTOS_PER_SECOND as int;
                if !negative {
                    proof {
                        vstd::arithmetic::div_mod::lemma_fundamental_div_mod_converse(
                            q,
                            unit,
                            whole as int,
                            quectos as int,
                        );
                    }
                    Seconds { whole, quectos }
                } else {
                    let low: u128 = if exact {
                        quectos
                    } else {
                        quectos + 1
                    };
                    if low == 0 {
                        proof {
                            vstd::arithmetic::div_mod::lemma_fundamental_div_mod_converse(
                                q,
                                unit,
                                -(whole as int),
                                0,
                            );
                        }
                        Seconds { whole: -whole, quectos: 0 }
                    } else {
                        proof {
                            vstd::arithmetic::div_mod::lemma_fundamental_div_mod_converse(
                                q,
                                unit,
                                -(whole as int) - 1,
                                unit - low,
                            );
                        }
                        Seconds { whole: -whole - 1, quectos: QUECTOS_PER_SECOND - low }
                    }
                }
            },
        }
    }

    /// Whether this time is before `other`.
    pub fn before(self, other: Seconds) -> (r: bool)
        requires
            self.wf(),
            other.wf(),
        ensures
            r == (self.total() < other.total()),
    {
        self.whole < other.whole || (self.whole == other.whole && self.quectos < other.quectos)
    }
}

/// A week of a time scale and a time in seconds from its start.
#[derive(Debug, Clone, Copy, PartialEq, Eq, Structural)]
pub struct GnssWeekTow {
    /// The time scale.
    pub system: TimeScale,
    /// The week.
    pub week: u32,
    /// The time from the start of the week.
    pub tow_s: Seconds,
}

/// `a` divided by `b`, rounded down.
pub fn floor_div(a: i64, b: i64) -> (r: i64)
    requires
        0 < b,
    ensures
        r == a as int / b as int,
{
    if a >= 0 {
        a / b
    } else {
        // -1 - (-1 - a) / b
        let m: i64 = -1 - a;
        let q: i64 = m / b;
        proof {
            let r = -1 - q;
            vstd::arithmetic::div_mod::lemma_fundamental_div_mod(m as int, b as int);
            let rest = a - b * r;
            assert(b * (-1 - q) == -b - b * q) by (nonlinear_arith);
            assert(b * r == r * b) by (nonlinear_arith);
            vstd::arithmetic::div_mod::lemma_fundamental_div_mod_converse(
                a as int,
                b as int,
                r as int,
                rest,
            );
        }
        -1 - q
    }
}

impl GnssWeekTow {
    /// The fraction of the time is below one second.
    pub open spec fn wf(self) -> bool {
        self.tow_s.wf()
    }

    /// The time lies in the week.
    pub open spec fn in_week(self) -> bool {
        0 <= self.tow_s.whole < SECONDS_PER_WEEK
    }

    /// The same instant with its time in the week; `None` where no such week is in range.
    pub open spec fn carried(self) -> Option<GnssWeekTow> {
        let week = self.week + self.tow_s.whole as int / SECONDS_PER_WEEK as int;
        if 0 <= week <= u32::MAX {
            Some(
                GnssWeekTow {
                    system: self.system,
                    week: week as u32,
                    tow_s: Seconds {
                        whole: (self.tow_s.whole as int % SECONDS_PER_WEEK as int) as i64,
                        quectos: self.tow_s.quectos,
                    },
                },
            )
        } else {
            None
        }
    }

    /// A week and a time from its start.
    pub fn new(system: TimeScale, week: u32, tow_s: Seconds) -> (r: GnssWeekTow)
        ensures
            r == (GnssWeekTow { system, week, tow_s }),
    {
        GnssWeekTow { system, week, tow_s }
    }

    /// The same instant with its time in the week; `None` where no such week is in range.
    pub fn normalized(self) -> (r: Option<GnssWeekTow>)
        ensures
            r == self.carried(),
            r matches Some(w) ==> w.in_week(),
    {
        let carry: i64 = floor_div(self.tow_s.whole, SECONDS_PER_WEEK);
        proof {
            vstd::arithmetic::div_mod::lemma_fundamental_div_mod(
                self.tow_s.whole as int,
                SECONDS_PER_WEEK as int,
            );
        }
        let week: i64 = self.week as i64 + carry;
        if 0 <= week && week <= 4294967295 {
            Some(
                GnssWeekTow {
                    system: self.system,
                    week: week as u32,
                    tow_s: Seconds {
                        whole: self.tow_s.whole - carry * SECONDS_PER_WEEK,
                        quectos: self.tow_s.quectos,
                    },
                },
            )
        } else {
            None
        }
    }
}

/// Whether `year` is a leap year of the Gregorian calendar.
fn is_leap_year(year: i64) -> (r: bool)
    requires
        -1000000000000 <= year <= 1000000000000,
    ensures
        r == leap_year(year as int),
{
    let y4: i64 = year - 4 * floor_div(year, 4);
    let y100: i64 = year - 100 * floor_div(year, 100);
    let y400: i64 = year - 400 * floor_div(year, 400);
    y4 == 0 && (y100 != 0 || y400 == 0)
}

/// The number of days of a month.
pub fn month_days(year: i64, month: i64) -> (r: i64)
    requires
        -1000000000000 <= year <= 1000000000000,
    ensures
        r == days_in_month(year as int, month as int),
{
    if month == 2 {
        if is_leap_year(year) {
            29
        } else {
            28
        }
    } else if month == 4 || month == 6 || month == 9 || month == 11 {
        30
    } else {
        31
    }
}

/// The number of days from 0001-01-01 to the start of `year`.
pub fn year_start(year: i64) -> (r: i64)
    requires
        -1000000000000 <= year <= 1000000000000,
    ensures
        r == days_before_year(year as int),
{
    let y: i64 = year - 1;
    365 * y + floor_div(y, 4) - floor_div(y, 100) + floor_div(y, 400)
}

/// The number of days of a year before one of its months, for months up to 255.
pub fn month_start(year: i64, month: u8) -> (r: i64)
    requires
        -1000000000000 <= year <= 1000000000000,
    ensures
        r == days_before_month(year as int, month as int),
        0 <= r <= 31 * month,
{
    let mut m: u8 = 1;
    let mut r: i64 = 0;
    while m < month
        invariant
            -1000000000000 <= year <= 1000000000000,
            1 <= m,
            month <= 1 ==> m == 1,
            month > 1 ==> m <= month,
            r == days_before_month(year as int, m as int),
            0 <= r <= 31 * (m - 1),
        decreases month - m,
    {
        r = r + month_days(year, m as i64);
        m = m + 1;
    }
    r
}

/// The number of days from 0001-01-01 to a date.
pub fn date_number(year: i64, month: u8, day: u8) -> (r: i64)
    requires
        -1000000000000 <= year <= 1000000000000,
    ensures
        r == day_number(year as int, month as int, day as int),
        -400000000000000 <= r <= 400000000000000,
{
    year_start(year) + month_start(year, month) + day as i64 - 1
}

/// The quotient grows by one at each multiple.
proof fn lemma_quotient_step(y: int, d: int)
    requires
        d > 0,
    ensures
        y / d - (y - 1) / d == (if y % d == 0 {
            1int
        } else {
            0int
        }),
{
    let q = y / d;
    let r = y % d;
    vstd::arithmetic::div_mod::lemma_fundamental_div_mod(y, d);
    if r == 0 {
        assert(d * q == (q - 1) * d + d) by (nonlinear_arith);
        vstd::arithmetic::div_mod::lemma_fundamental_div_mod_converse(y - 1, d, q - 1, d - 1);
    } else {
        assert(d * q == q * d) by (nonlinear_arith);
        vstd::arithmetic::div_mod::lemma_fundamental_div_mod_converse(y - 1, d, q, r - 1);
    }
}

/// The number of days of a year is that to the start of the next.
#[verifier::spinoff_prover]
proof fn lemma_year_length(year: int)
    ensures
        days_before_year(year + 1) - days_before_year(year) == (if leap_year(year) {
            366int
        } else {
            365int
        }),
{
    lemma_quotient_step(year, 4);
    lemma_quotient_step(year, 100);
    lemma_quotient_step(year, 400);
    let a = year / 4 - (year - 1) / 4;
    let b = year / 100 - (year - 1) / 100;
    let c = year / 400 - (year - 1) / 400;
    assert(days_before_year(year + 1) - days_before_year(year) == 365 + a - b + c);
    assert(year % 100 == 0 ==> year % 4 == 0);
    assert(year % 400 == 0 ==> year % 100 == 0);
}

/// The months of a year fill it.
proof fn lemma_months(year: int)
    ensures
        days_before_month(year, 13) == (if leap_year(year) {
            366int
        } else {
            365int
        }),
{
    reveal_with_fuel(days_before_month, 13);
}

/// The date a number of days after 0001-01-01 (see [`day_number`]).
pub fn date_of_number(n: i64) -> (r: (i64, u8, u8))
    requires
        -300000000000000 <= n <= 300000000000000,
    ensures
        valid_date(r.0 as int, r.1 as int, r.2 as int),
        day_number(r.0 as int, r.1 as int, r.2 as int) == n,
        -900000000000 <= r.0 <= 900000000000,
{
    let mut year: i64 = floor_div(400 * n, 146097);
    assert(days_before_year(year as int) <= n);
    assert(n < days_before_year(year + 4));
    while year_start(year + 1) <= n
        invariant
            -300000000000000 <= n <= 300000000000000,
            -900000000000 <= year <= 900000000000,
            days_before_year(year as int) <= n,
            n < days_before_year(year + 4),
        decreases n - days_before_year(year as int),
    {
        proof {
            lemma_year_length(year as int);
            lemma_year_length(year + 1);
            lemma_year_length(year + 2);
            lemma_year_length(year + 3);
            lemma_year_length(year + 4);
        }
        year = year + 1;
    }
    let rest: i64 = n - year_start(year);
    proof {
        lemma_year_length(year as int);
        lemma_months(year as int);
    }
    let mut month: u8 = 1;
    let mut left: i64 = rest;
    while left >= month_days(year, month as i64)
        invariant
            -900000000000 <= year <= 900000000000,
            1 <= month <= 12,
            0 <= left,
            left == rest - days_before_month(year as int, month as int),
            rest < days_before_month(year as int, 13),
        decreases 13 - month,
    {
        proof {
            if month == 12 {
                assert(days_before_month(year as int, 13) == days_before_month(year as int, 12)
                    + days_in_month(year as int, 12));
            }
        }
        left = left - month_days(year, month as i64);
        month = month + 1;
    }
    (year, month, (left + 1) as u8)
}

/// No two dates of the calendar have the same day number.
pub proof fn lemma_date_unique(y1: int, m1: int, d1: int, y2: int, m2: int, d2: int)
    requires
        valid_date(y1, m1, d1),
        valid_date(y2, m2, d2),
        day_number(y1, m1, d1) == day_number(y2, m2, d2),
    ensures
        y1 == y2 && m1 == m2 && d1 == d2,
{
    lemma_in_year(y1, m1, d1);
    lemma_in_year(y2, m2, d2);
    if y1 < y2 {
        lemma_years_monotone(y1 + 1, y2);
    } else if y2 < y1 {
        lemma_years_monotone(y2 + 1, y1);
    }
    if m1 < m2 {
        lemma_months_monotone(y1, m1 + 1, m2);
    } else if m2 < m1 {
        lemma_months_monotone(y1, m2 + 1, m1);
    }
}

pub proof fn lemma_years_monotone(a: int, b: int)
    requires
        a <= b,
    ensures
        days_before_year(a) <= days_before_year(b),
    decreases b - a,
{
    if a < b {
        lemma_year_length(a);
        lemma_years_monotone(a + 1, b);
    }
}

proof fn lemma_months_monotone(year: int, a: int, b: int)
    requires
        1 <= a <= b,
    ensures
        days_before_month(year, a) <= days_before_month(year, b),
    decreases b - a,
{
    if a < b {
        lemma_months_monotone(year, a, b - 1);
    }
}

/// A date is followed by a date.
pub proof fn lemma_next_date(year: int, month: int, day: int) -> (r: (int, int, int))
    requires
        valid_date(year, month, day),
    ensures
        valid_date(r.0, r.1, r.2),
        day_number(r.0, r.1, r.2) == day_number(year, month, day) + 1,
        year <= r.0 <= year + 1,
{
    lemma_in_year(year, month, day);
    if valid_date(year, month, day + 1) {
        (year, month, day + 1)
    } else if month < 12 {
        (year, month + 1, 1)
    } else {
        lemma_year_length(year);
        lemma_months(year);
        (year + 1, 1, 1)
    }
}

/// A date lies in its year and its month.
pub proof fn lemma_in_year(year: int, month: int, day: int)
    requires
        valid_date(year, month, day),
    ensures
        days_before_year(year) <= day_number(year, month, day) < days_before_year(year + 1),
        days_before_month(year, month + 1) == days_before_month(year, month) + days_in_month(
            year,
            month,
        ),
{
    lemma_year_length(year);
    lemma_months(year);
    lemma_months_monotone(year, month + 1, 13);
    lemma_months_monotone(year, 1, month);
}

/// A calendar epoch as a navigation record or frame states it, in the time scale of its system
/// (GPS, Galileo, QZSS and NavIC time; BDT; UTC for GLONASS).
#[derive(Debug, Clone, Copy, PartialEq, Eq, Structural)]
pub struct NavEpoch {
    /// Year (four digits; a two-digit RINEX 2 year is read with the 1980 pivot).
    pub year: i32,
    /// Month, 1-12.
    pub month: u8,
    /// Day of month.
    pub day: u8,
    /// Hour.
    pub hour: u8,
    /// Minute.
    pub minute: u8,
    /// Seconds, with any fraction the record states.
    pub second: Decimal,
}

impl NavEpoch {
    /// Seconds since J2000 in the epoch's own scale. A day has 86400 s; J2000 is 2000-01-01
    /// 12:00.
    #[verifier::opaque]
    pub open spec fn j2000(self) -> Seconds {
        let second = seconds_of(self.second);
        let days = day_number(self.year as int, self.month as int, self.day as int) - J2000_DAY;
        Seconds {
            whole: (days * SECONDS_PER_DAY - 43200 + self.hour * 3600 + self.minute * 60
                + second.whole) as i64,
            quectos: second.quectos,
        }
    }

    /// Seconds since J2000 in the epoch's own scale.
    pub fn j2000_s(&self) -> (r: Seconds)
        ensures
            r == self.j2000(),
            r.wf(),
            -80000000000000000 <= r.whole <= 80000000000000000,
            r.whole == (day_number(self.year as int, self.month as int, self.day as int)
                - J2000_DAY) * SECONDS_PER_DAY - 43200 + self.hour * 3600 + self.minute * 60
                + seconds_of(self.second).whole,
    {
        proof {
            reveal(NavEpoch::j2000);
        }
        let second: Seconds = Seconds::from_decimal(self.second);
        let y: i64 = self.year as i64;
        let start: i64 = year_start(y);
        proof {
            assert(-785000000000 <= start <= 785000000000);
        }
        let days: i64 = start + month_start(y, self.month) + self.day as i64 - 1 - J2000_DAY;
        let whole: i64 = days * SECONDS_PER_DAY - 43200 + self.hour as i64 * 3600
            + self.minute as i64 * 60 + second.whole;
        Seconds { whole, quectos: second.quectos }
    }
}

/// GPS time less UTC, seconds, on a day given by its number: the leap seconds since 1980, less
/// those before, as announced from 1972 to 2017.
pub open spec fn leap_seconds_on(day: int) -> int {
    if day >= 736329 {
        18
    } else if day >= 735779 {
        17
    } else if day >= 734684 {
        16
    } else if day >= 733407 {
        15
    } else if day >= 732311 {
        14
    } else if day >= 729754 {
        13
    } else if day >= 729205 {
        12
    } else if day >= 728658 {
        11
    } else if day >= 728109 {
        10
    } else if day >= 727744 {
        9
    } else if day >= 727379 {
        8
    } else if day >= 726832 {
        7
    } else if day >= 726467 {
        6
    } else if day >= 725736 {
        5
    } else if day >= 724822 {
        4
    } else if day >= 724091 {
        3
    } else if day >= 723726 {
        2
    } else if day >= 723361 {
        1
    } else if day >= 722814 {
        0
    } else if day >= 722449 {
        -1
    } else if day >= 722084 {
        -2
    } else if day >= 721719 {
        -3
    } else if day >= 721353 {
        -4
    } else if day >= 720988 {
        -5
    } else if day >= 720623 {
        -6
    } else if day >= 720258 {
        -7
    } else if day >= 720074 {
        -8
    } else {
        -9
    }
}

/// The number of the day of a time in whole seconds past J2000.
pub open spec fn day_of_j2000(whole: int) -> int {
    (whole + 43200) / (SECONDS_PER_DAY as int) + J2000_DAY
}

/// GPS time less UTC, seconds, at a UTC instant given as whole seconds past J2000.
pub fn gps_minus_utc_at_utc_j2000_s(utc_j2000_s: i64) -> (r: i64)
    requires
        -1000000000000000000 <= utc_j2000_s <= 1000000000000000000,
    ensures
        r == leap_seconds_on(day_of_j2000(utc_j2000_s as int)),
        -9 <= r <= 18,
{
    let day: i64 = floor_div(utc_j2000_s + 43200, SECONDS_PER_DAY) + J2000_DAY;
    if day >= 736329 {
        18
    } else if day >= 735779 {
        17
    } else if day >= 734684 {
        16
    } else if day >= 733407 {
        15
    } else if day >= 732311 {
        14
    } else if day >= 729754 {
        13
    } else if day >= 729205 {
        12
    } else if day >= 728658 {
        11
    } else if day >= 728109 {
        10
    } else if day >= 727744 {
        9
    } else if day >= 727379 {
        8
    } else if day >= 726832 {
        7
    } else if day >= 726467 {
        6
    } else if day >= 725736 {
        5
    } else if day >= 724822 {
        4
    } else if day >= 724091 {
        3
    } else if day >= 723726 {
        2
    } else if day >= 723361 {
        1
    } else if day >= 722814 {
        0
    } else if day >= 722449 {
        -1
    } else if day >= 722084 {
        -2
    } else if day >= 721719 {
        -3
    } else if day >= 721353 {
        -4
    } else if day >= 720988 {
        -5
    } else if day >= 720623 {
        -6
    } else if day >= 720258 {
        -7
    } else if day >= 720074 {
        -8
    } else {
        -9
    }
}

} // verus!

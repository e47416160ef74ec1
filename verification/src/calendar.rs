//! What epochs and times of week mean: dates of the Gregorian calendar, instants counted from J2000,
//! weeks, and leap seconds.

use vstd::arithmetic::div_mod::{lemma_fundamental_div_mod, lemma_fundamental_div_mod_converse};
use vstd::prelude::*;

use crate::decimal::{
    decimal_of, field_number, integer_text, lemma_pow10_add, lemma_pow10_monotone,
    lemma_pow10_values, pow10, Decimal,
};
use crate::epoch::{glonass_gpst, native_total};
use crate::fields::{int_columns, record_epoch, CivilSecondPolicy, Layout};
use crate::queries::gps_instant;
use crate::record::GlonassRecord;
use crate::text::{columns, words_of};
use crate::time::{
    day_number, days_before_month, days_before_year, days_in_month, leap_seconds_on, leap_year,
    lemma_in_year, lemma_years_monotone, quectos_of, scaled, seconds_of, valid_date, GnssWeekTow,
    NavEpoch, MAX_WHOLE_SECONDS, QUECTOS_PER_SECOND,
};

verus! {

/// The days of a month of the Gregorian calendar.
pub open spec fn month_length(year: int, month: int) -> int {
    if month == 4 || month == 6 || month == 9 || month == 11 {
        30
    } else if month != 2 {
        31
    } else if year % 400 == 0 || (year % 4 == 0 && year % 100 != 0) {
        29
    } else {
        28
    }
}

/// Dates are those of the Gregorian calendar, and days are counted one by one through it: the day
/// after the last of a month is the first of the next, and after the last of a year the first of the
/// next year.
pub proof fn law_calendar(year: int, month: int, day: int)
    ensures
        valid_date(year, month, day) <==> 1 <= month <= 12 && 1 <= day <= month_length(year, month),
        day_number(year, month, day + 1) == day_number(year, month, day) + 1,
        1 <= month <= 11 ==> day_number(year, month + 1, 1) == day_number(
            year,
            month,
            month_length(year, month),
        ) + 1,
        day_number(year + 1, 1, 1) == day_number(year, 12, 31) + 1,
{
    if 1 <= month <= 12 {
        assert(days_in_month(year, month) == month_length(year, month));
    }
    if 1 <= month <= 11 {
        assert(days_before_month(year, month + 1) == days_before_month(year, month)
            + days_in_month(year, month));
    }
    lemma_last_day(year);
}

/// The last day of a year.
proof fn lemma_last_day(year: int)
    ensures
        day_number(year + 1, 1, 1) == day_number(year, 12, 31) + 1,
{
    reveal_with_fuel(days_before_month, 13);
    lemma_year_days(year);
}

/// The days of a year.
proof fn lemma_year_days(year: int)
    ensures
        days_before_year(year + 1) - days_before_year(year) == (if leap_year(year) {
            366int
        } else {
            365
        }),
{
    lemma_quotient_step(year, 4);
    lemma_quotient_step(year, 100);
    lemma_quotient_step(year, 400);
}

/// A quotient grows by one at each multiple of the divisor.
proof fn lemma_quotient_step(n: int, d: int)
    requires
        d > 1,
    ensures
        n / d - (n - 1) / d == (if n % d == 0 {
            1int
        } else {
            0
        }),
{
    let q = n / d;
    let r = n % d;
    lemma_fundamental_div_mod(n, d);
    assert((q - 1) * d == d * q - d) by (nonlinear_arith);
    assert(q * d == d * q) by (nonlinear_arith);
    if r == 0 {
        lemma_fundamental_div_mod_converse(n - 1, d, q - 1, d - 1);
    } else {
        lemma_fundamental_div_mod_converse(n - 1, d, q, r - 1);
    }
}

/// An epoch is counted in seconds from noon of 2000-01-01: a day has 86400 of them, an hour 3600, a
/// minute 60.
pub proof fn law_epoch_seconds(epoch: NavEpoch)
    requires
        seconds_of(epoch.second).wf(),
        -100000 <= epoch.year <= 100000,
        valid_date(epoch.year as int, epoch.month as int, epoch.day as int),
        epoch.hour <= 23,
        epoch.minute <= 59,
        -100 <= seconds_of(epoch.second).whole <= 100,
    ensures
        epoch.j2000().total() == ((day_number(
            epoch.year as int,
            epoch.month as int,
            epoch.day as int,
        ) - day_number(2000, 1, 1)) * 86400 + epoch.hour * 3600 + epoch.minute * 60 - 43200)
            * 1000000000000000000000000000000 + seconds_of(epoch.second).total(),
{
    reveal(NavEpoch::j2000);
    reveal_with_fuel(days_before_month, 13);
    assert(day_number(2000, 1, 1) == 730119);
    lemma_in_year(epoch.year as int, epoch.month as int, epoch.day as int);
    lemma_years_monotone(-100000, epoch.year as int);
    lemma_years_monotone(epoch.year + 1, 100001);
}

/// A decimal number of seconds is that many: to 10^-30 s, and rounded down below that.
pub proof fn law_seconds(d: Decimal)
    requires
        d.digits < 1000000000000000000000000000000,
        -60 <= d.exponent <= 0,
        d.digits <= 10000000000000000 * pow10((-d.exponent) as nat),
        d.digits > 0,
    ensures
        ({
            let s = seconds_of(d).total();
            let unit = pow10((-d.exponent) as nat);
            let n = d.signed_digits() * 1000000000000000000000000000000;
            s * unit <= n < (s + 1) * unit
        }),
{
    lemma_seconds_total(d);
}

/// The seconds that a number of them is.
proof fn lemma_seconds_total(d: Decimal)
    requires
        d.digits < 1000000000000000000000000000000,
        -60 <= d.exponent <= 0,
        d.digits <= 10000000000000000 * pow10((-d.exponent) as nat),
        d.digits > 0,
    ensures
        ({
            let s = seconds_of(d).total();
            let unit = pow10((-d.exponent) as nat);
            let n = d.signed_digits() * 1000000000000000000000000000000;
            s * unit <= n < (s + 1) * unit
        }),
{
    let q: int = 1000000000000000000000000000000;
    let e = d.exponent + 30;
    let unit = pow10((-d.exponent) as nat) as int;
    let n = d.digits * q;
    lemma_pow10_values();
    lemma_pow10_monotone(0, (-d.exponent) as nat);
    let m = scaled(d.digits as nat, e) as int;
    if e >= 0 {
        let p = pow10(e as nat) as int;
        lemma_pow10_add(e as nat, (-d.exponent) as nat);
        assert(p * unit == q);
        assert(m * unit == n) by (nonlinear_arith)
            requires
                m == d.digits * p,
                p * unit == q,
                n == d.digits * q,
        ;
    } else {
        let p = pow10((-e) as nat) as int;
        lemma_pow10_add((-e) as nat, 30);
        lemma_pow10_monotone(0, (-e) as nat);
        assert(unit == p * q);
        lemma_fundamental_div_mod(d.digits as int, p);
        let rest = d.digits as int % p;
        assert(m * unit <= n < (m + 1) * unit) by (nonlinear_arith)
            requires
                d.digits == p * m + rest,
                0 <= rest < p,
                unit == p * q,
                n == d.digits * q,
                q > 0,
        ;
        assert(rest == 0 ==> m * unit == n) by (nonlinear_arith)
            requires
                d.digits == p * m + rest,
                unit == p * q,
                n == d.digits * q,
        ;
        assert(rest != 0 ==> m * unit < n) by (nonlinear_arith)
            requires
                d.digits == p * m + rest,
                0 <= rest < p,
                unit == p * q,
                n == d.digits * q,
                q > 0,
        ;
    }
    assert(m <= 10000000000000000 * q) by (nonlinear_arith)
        requires
            m * unit <= n,
            n <= (10000000000000000 * q) * unit,
            unit >= 1,
    ;
    let t = quectos_of(d);
    assert(t * unit <= d.signed_digits() * q < (t + 1) * unit) by {
        if d.negative {
            assert(d.signed_digits() * q == -n) by (nonlinear_arith)
                requires
                    d.signed_digits() == -(d.digits as int),
                    n == d.digits * q,
            ;
            assert(-m * unit == -(m * unit) && (-m + 1) * unit == -(m * unit) + unit && (-m - 1)
                * unit == -(m * unit) - unit && (m + 1) * unit == m * unit + unit)
                by (nonlinear_arith);
        } else {
            assert((m + 1) * unit == m * unit + unit) by (nonlinear_arith);
        }
    }
    lemma_fundamental_div_mod(t, q);
    let limit = MAX_WHOLE_SECONDS * QUECTOS_PER_SECOND;
    if t >= limit {
        assert(t == limit);
        assert(10000000000000000 * q == limit);
    } else if t < -limit {
        assert(m == limit);
    } else {
        assert((t / q) * q + t % q == t) by (nonlinear_arith)
            requires
                t == q * (t / q) + t % q,
        ;
        assert(-10000000000000000 <= t / q <= 10000000000000000) by (nonlinear_arith)
            requires
                t == q * (t / q) + t % q,
                0 <= t % q < q,
                -10000000000000000 * q <= t < 10000000000000000 * q,
                q > 0,
        ;
    }
}

/// A week and time of week is the instant that the clock of its scale shows it at: GPS and Galileo
/// weeks count from 1980-01-06, BeiDou weeks from 2006-01-01, and the BeiDou clock is 14 s behind.
pub proof fn law_week_instant(w: GnssWeekTow)
    ensures
        native_total(w) == ((w.week * 7 + (if w.system is Bdt {
            day_number(2006, 1, 1)
        } else {
            day_number(1980, 1, 6)
        }) - day_number(2000, 1, 1)) * 86400 - 43200) * 1000000000000000000000000000000
            + w.tow_s.total(),
        native_total(w) + (if w.system is Bdt {
            14int
        } else {
            0
        }) * 1000000000000000000000000000000 == gps_instant(w),
{
    reveal_with_fuel(days_before_month, 13);
    assert(day_number(2000, 1, 1) == 730119 && day_number(1980, 1, 6) == 722819 && day_number(
        2006,
        1,
        1,
    ) == 732311);
    crate::queries::lemma_quectos(w);
}

/// 1 from the first of a month on.
pub open spec fn since(day: int, year: int, month: int) -> int {
    if day >= day_number(year, month, 1) {
        1
    } else {
        0
    }
}

/// GPS time is ahead of UTC by the leap seconds inserted since 1980: nine had been before, from
/// 1972-07-01 on, and each of the dates adds one.
pub proof fn law_leap_seconds(day: int)
    ensures
        leap_seconds_on(day) == since(day, 1972, 7) + since(day, 1973, 1) + since(day, 1974, 1)
            + since(day, 1975, 1) + since(day, 1976, 1) + since(day, 1977, 1) + since(day, 1978, 1)
            + since(day, 1979, 1) + since(day, 1980, 1) + since(day, 1981, 7) + since(day, 1982, 7)
            + since(day, 1983, 7) + since(day, 1985, 7) + since(day, 1988, 1) + since(day, 1990, 1)
            + since(day, 1991, 1) + since(day, 1992, 7) + since(day, 1993, 7) + since(day, 1994, 7)
            + since(day, 1996, 1) + since(day, 1997, 7) + since(day, 1999, 1) + since(day, 2006, 1)
            + since(day, 2009, 1) + since(day, 2012, 7) + since(day, 2015, 7) + since(day, 2017, 1)
            - 9,
{
    reveal_with_fuel(days_before_month, 8);
    assert(day_number(1972, 7, 1) == 720074 && day_number(1973, 1, 1) == 720258 && day_number(
        1974,
        1,
        1,
    ) == 720623 && day_number(1975, 1, 1) == 720988 && day_number(1976, 1, 1) == 721353);
    assert(day_number(1977, 1, 1) == 721719 && day_number(1978, 1, 1) == 722084 && day_number(
        1979,
        1,
        1,
    ) == 722449 && day_number(1980, 1, 1) == 722814 && day_number(1981, 7, 1) == 723361);
    assert(day_number(1982, 7, 1) == 723726 && day_number(1983, 7, 1) == 724091 && day_number(
        1985,
        7,
        1,
    ) == 724822 && day_number(1988, 1, 1) == 725736 && day_number(1990, 1, 1) == 726467);
    assert(day_number(1991, 1, 1) == 726832 && day_number(1992, 7, 1) == 727379 && day_number(
        1993,
        7,
        1,
    ) == 727744 && day_number(1994, 7, 1) == 728109 && day_number(1996, 1, 1) == 728658);
    assert(day_number(1997, 7, 1) == 729205 && day_number(1999, 1, 1) == 729754 && day_number(
        2006,
        1,
        1,
    ) == 732311 && day_number(2009, 1, 1) == 733407 && day_number(2012, 7, 1) == 734684);
    assert(day_number(2015, 7, 1) == 735779 && day_number(2017, 1, 1) == 736329);
}

/// A GLONASS reference epoch in UTC is that many leap seconds earlier than in GPS time, those of the
/// day of UTC it is in.
pub proof fn law_glonass_time(record: GlonassRecord)
    ensures
        glonass_gpst(record.toe_utc_j2000_s as int) == record.toe_utc_j2000_s + leap_seconds_on(
            day_number(2000, 1, 1) + (record.toe_utc_j2000_s + 43200) / 86400,
        ),
{
    reveal_with_fuel(days_before_month, 2);
    assert(day_number(2000, 1, 1) == 730119);
}

/// The epoch of a line is in its columns: a four-digit year in columns 5 to 8 and two-digit numbers
/// three columns apart in RINEX 3 and 4; in RINEX 2 a two-digit year in columns 4 and 5, from 1980
/// to 2079, and the seconds in columns 18 to 22.
pub proof fn law_epoch_columns(line: Seq<u8>, layout: Layout, policy: CivilSecondPolicy)
    ensures
        layout is V3 ==> match record_epoch(line, layout, policy) {
            Some(e) => {
                &&& int_columns(line, 4, 8) == Some(e.year as int)
                &&& int_columns(line, 9, 11) == Some(e.month as int)
                &&& int_columns(line, 12, 14) == Some(e.day as int)
                &&& int_columns(line, 15, 17) == Some(e.hour as int)
                &&& int_columns(line, 18, 20) == Some(e.minute as int)
                &&& int_columns(line, 21, 23) matches Some(s) && e.second == decimal_of(s)
            },
            None => true,
        },
        layout is V2 ==> match record_epoch(line, layout, policy) {
            Some(e) => {
                &&& int_columns(line, 3, 5) matches Some(y) && e.year == (if y < 80 {
                    2000 + y
                } else {
                    1900 + y
                })
                &&& int_columns(line, 6, 8) == Some(e.month as int)
                &&& int_columns(line, 9, 11) == Some(e.day as int)
                &&& int_columns(line, 12, 14) == Some(e.hour as int)
                &&& int_columns(line, 15, 17) == Some(e.minute as int)
                &&& field_number(columns(line, 17, 22)) == Some(e.second)
            },
            None => true,
        },
        layout is V2Lettered ==> match record_epoch(line, layout, policy) {
            Some(e) => {
                let w = words_of(columns(line, 4, 23));
                &&& w.len() == 6
                &&& integer_text(w[0]) matches Some(y) && e.year == (if y < 80 {
                    2000 + y
                } else if y < 100 {
                    1900 + y
                } else {
                    y
                })
                &&& integer_text(w[1]) == Some(e.month as int)
                &&& integer_text(w[2]) == Some(e.day as int)
                &&& integer_text(w[3]) == Some(e.hour as int)
                &&& integer_text(w[4]) == Some(e.minute as int)
                &&& field_number(w[5]) == Some(e.second)
            },
            None => true,
        },
        record_epoch(line, layout, policy) matches Some(e) ==> {
            &&& 1 <= e.month <= 12
            &&& 1 <= e.day <= month_length(e.year as int, e.month as int)
            &&& e.hour <= 23
            &&& e.minute <= 59
            &&& 0 <= seconds_of(e.second).whole
            &&& seconds_of(e.second).whole < 61
            &&& policy is Continuous ==> seconds_of(e.second).whole < 60
        },
{
    reveal(record_epoch);
    if let Some(e) = record_epoch(line, layout, policy) {
        law_calendar(e.year as int, e.month as int, e.day as int);
    }
}

/// An epoch whose numbers are stated and of the calendar is read: nothing else keeps a RINEX 3 or 4
/// epoch from being one.
pub proof fn law_epoch_read(line: Seq<u8>, policy: CivilSecondPolicy)
    requires
        match (int_columns(line, 4, 8), int_columns(line, 9, 11), int_columns(line, 12, 14)) {
            (Some(y), Some(m), Some(d)) => 0 <= y <= 9999 && 1 <= m <= 12 && 1 <= d
                <= month_length(y, m),
            _ => false,
        },
        int_columns(line, 15, 17) matches Some(h) && 0 <= h <= 23,
        int_columns(line, 18, 20) matches Some(n) && 0 <= n <= 59,
        int_columns(line, 21, 23) matches Some(s) && 0 <= seconds_of(decimal_of(s)).whole < 60,
    ensures
        record_epoch(line, Layout::V3, policy) is Some,
{
    reveal(record_epoch);
    law_calendar(
        int_columns(line, 4, 8)->0,
        int_columns(line, 9, 11)->0,
        int_columns(line, 12, 14)->0,
    );
}

} // verus!

//! What a record of decoded LNAV subframes holds of each of their parameters.

use vstd::arithmetic::div_mod::lemma_fundamental_div_mod;
use vstd::prelude::*;

use crate::accuracy::{at_most_hundredths, law_ura_meters, ura_steps};
use crate::decimal::{
    decimal_of, digit_count, lemma_digit_count, lemma_pow10_add, lemma_pow10_monotone,
    lemma_pow10_values, lemma_significand, lemma_strip_zeros, magnitude, pow10, round_half_even,
    significand, strip_zeros, Decimal,
};
use crate::health::{scaled_number, ura_value};
use crate::id::GnssSatelliteId;
use crate::lnav::{flag_fit_hours, lnav_record, radians, LnavDecoded, PI_19};
use crate::numerals::lemma_strip_power;

verus! {

/// The number of an integer is that integer.
proof fn lemma_decimal_integer(n: int)
    requires
        -10000000000000000000 < n < 10000000000000000000,
    ensures
        decimal_of(n).integer() == Some(n),
{
    lemma_pow10_values();
    if n == 0 {
        assert(0 * pow10(0) == 0) by (nonlinear_arith);
    } else {
        let m = magnitude(n);
        let (d, e) = strip_zeros(m, 0);
        lemma_strip_zeros(m, 0);
        lemma_strip_power(m, 0);
        lemma_digit_count(m);
        lemma_digit_count(d);
        if digit_count(m) > 20 {
            lemma_pow10_monotone(20, (digit_count(m) - 1) as nat);
            assert(pow10(20) == 10 * pow10(19)) by {
                reveal_with_fuel(pow10, 2);
            }
        }
        assert(0 <= e <= 20);
        let p = pow10(e as nat);
        assert(-(d as int) * p == -(d * p)) by (nonlinear_arith);
        assert(decimal_of(n).signed_digits() == (if n < 0 {
            -(d as int)
        } else {
            d as int
        }));
    }
}

/// Whether `r` is `s` semicircles in radians, with pi to nineteen digits and a relative error of at
/// most 10^-18.
pub open spec fn semicircles_of(s: Decimal, r: Decimal) -> bool {
    if s.digits == 0 {
        r.digits == 0
    } else {
        let up = r.exponent - s.exponent + 18;
        let exact = s.digits * 3141592653589793238;
        let value = r.digits * pow10(up as nat);
        &&& r.negative == s.negative
        &&& up >= 0
        &&& 1000000000000000000 * (value - exact) <= exact
        &&& 1000000000000000000 * (exact - value) <= exact
    }
}

/// An angle in semicircles is pi times as many radians.
pub proof fn law_semicircles(s: Decimal)
    requires
        s.wf(),
    ensures
        semicircles_of(s, radians(s)),
{
    lemma_pow10_values();
    if s.digits > 0 {
        let exact = (s.digits * PI_19) as nat;
        assert(3141592653589793238 <= exact < 10000000000000000000 * 3141592653589793238)
            by (nonlinear_arith)
            requires
                exact == s.digits * 3141592653589793238,
                0 < s.digits < 10000000000000000000,
        ;
        let c = digit_count(exact);
        lemma_digit_count(exact);
        if c < 19 {
            lemma_pow10_monotone(c, 18);
        }
        assert(c <= 38) by {
            if c > 38 {
                lemma_pow10_monotone(38, (c - 1) as nat);
                lemma_pow10_add(19, 19);
                assert(pow10(19) * pow10(19) == 10000000000000000000 * 10000000000000000000);
            }
        }
        let k = (c - 19) as nat;
        let unit = pow10(k);
        lemma_pow10_monotone(0, k);
        lemma_pow10_add(18, k);
        assert(exact >= 1000000000000000000 * unit);
        let (m, e) = significand(exact, s.exponent - 18, 19);
        lemma_significand(exact, s.exponent - 18, 19);
        let (d, x) = strip_zeros(m, e);
        lemma_strip_zeros(m, e);
        lemma_strip_power(m, e);
        lemma_digit_count(m);
        lemma_digit_count(d);
        if digit_count(m) > 19 {
            lemma_pow10_monotone(19, (digit_count(m) - 1) as nat);
        }
        let lift = (e - (s.exponent - 18)) as nat;
        assert(lift == k || lift == k + 1);
        let q = round_half_even(exact, unit);
        lemma_fundamental_div_mod(exact as int, unit as int);
        let quotient = exact as int / unit as int;
        let r = exact as int % unit as int;
        assert(c == 19 ==> m == exact && unit == 1) by {
            assert(exact * 1 == exact) by (nonlinear_arith);
        }
        assert((quotient + 1) * unit == unit * quotient + unit) by (nonlinear_arith);
        assert(quotient * unit == unit * quotient) by (nonlinear_arith);
        assert(-(unit as int) <= 2 * (q * unit - exact) <= unit);
        let value = m * pow10(lift);
        assert(value == q * unit || (c == 19 && value == exact)) by {
            if c == 19 {
                assert(m * pow10(0) == m) by (nonlinear_arith)
                    requires
                        pow10(0) == 1,
                ;
            } else if q == pow10(19) {
                assert(pow10((k + 1) as nat) == 10 * unit);
                assert(pow10(18) * (10 * unit) == (10 * pow10(18)) * unit) by (nonlinear_arith);
            }
        }
        let up = (x - s.exponent + 18) as nat;
        lemma_pow10_add((x - e) as nat, lift);
        assert((x - e) as nat + lift == up);
        assert(d * (pow10((x - e) as nat) * pow10(lift)) == (d * pow10((x - e) as nat)) * pow10(
            lift,
        )) by (nonlinear_arith);
    }
}

/// The hours of a curve fit: 4 without the flag; with it 6 for an ephemeris issue below 240, and for
/// one of 240 to 255, 8 for a clock issue of 240 to 247, 14 for one of 248 to 255 or 496, and 26 for
/// one of 497 to 503 or 1021 to 1023.
pub proof fn law_fit_hours(flag: int, iode: int, iodc: int)
    ensures
        flag == 0 ==> flag_fit_hours(flag, iode, iodc) == Some(4int),
        flag == 1 && 0 <= iode <= 239 ==> flag_fit_hours(flag, iode, iodc) == Some(6int),
        flag == 1 && 240 <= iode <= 255 && 240 <= iodc <= 247 ==> flag_fit_hours(flag, iode, iodc)
            == Some(8int),
        flag == 1 && 240 <= iode <= 255 && (248 <= iodc <= 255 || iodc == 496) ==> flag_fit_hours(
            flag,
            iode,
            iodc,
        ) == Some(14int),
        flag == 1 && 240 <= iode <= 255 && (497 <= iodc <= 503 || 1021 <= iodc <= 1023)
            ==> flag_fit_hours(flag, iode, iodc) == Some(26int),
        flag_fit_hours(flag, iode, iodc) is Some ==> flag == 0 || flag == 1 && 0 <= iode <= 255,
        flag == 1 && 240 <= iode <= 255 && flag_fit_hours(flag, iode, iodc) is Some ==> 240 <= iodc
            <= 255 || 496 <= iodc <= 503 || 1021 <= iodc <= 1023,
{
}

/// A record of decoded subframes holds each parameter of the message in its own place: the harmonic
/// terms, axis and eccentricity and the clock as they are, the angles in radians, and the reference
/// times as seconds of the full week.
pub proof fn law_subframe_parameters(
    decoded: LnavDecoded,
    satellite_id: GnssSatelliteId,
    full_week: u32,
)
    requires
        decoded.wf(),
        lnav_record(decoded, satellite_id, full_week) is Ok,
    ensures
        ({
            let r = lnav_record(decoded, satellite_id, full_week)->Ok_0;
            let e = r.elements;
            &&& r.satellite_id == satellite_id && r.message is GpsLnav
            &&& r.week == full_week
            &&& r.toe.week * 604800 + r.toe.tow_s.whole == full_week * 604800 + decoded.toe
            &&& r.toc.week * 604800 + r.toc.tow_s.whole == full_week * 604800 + decoded.toc
            &&& 0 <= r.toe.tow_s.whole < 604800 && r.toe.tow_s.quectos == 0
            &&& 0 <= r.toc.tow_s.whole < 604800 && r.toc.tow_s.quectos == 0
            &&& r.toe.system is Gpst && r.toc.system is Gpst
            &&& e.toe_sow.integer() == Some(decoded.toe as int)
            &&& r.clock.toc_sow.whole == decoded.toc && r.clock.toc_sow.quectos == 0
            &&& r.clock.af0 == decoded.af0 && r.clock.af1 == decoded.af1 && r.clock.af2
                == decoded.af2
            &&& e.sqrt_a == decoded.sqrt_a && e.e == decoded.eccentricity
            &&& e.cuc == decoded.cuc && e.cus == decoded.cus
            &&& e.crc == decoded.crc && e.crs == decoded.crs
            &&& e.cic == decoded.cic && e.cis == decoded.cis
            &&& semicircles_of(decoded.m0, e.m0)
            &&& semicircles_of(decoded.delta_n, e.delta_n)
            &&& semicircles_of(decoded.omega0, e.omega0)
            &&& semicircles_of(decoded.i0, e.i0)
            &&& semicircles_of(decoded.omega, e.omega)
            &&& semicircles_of(decoded.omega_dot, e.omega_dot)
            &&& semicircles_of(decoded.idot, e.idot)
            &&& r.group_delays.gps_tgd_s == Some(decoded.tgd)
            &&& r.cnav is None
            &&& r.sv_health.integer() == Some(decoded.sv_health as int)
            &&& r.stated.orbit6_field4 matches Some(d) && d.integer() == Some(decoded.iodc as int)
            &&& r.issue_of_data matches Some(issue) && issue.message is GpsLnav && (0
                <= decoded.iode <= 4294967295 ==> issue.issue == decoded.iode)
        }),
{
    let r = lnav_record(decoded, satellite_id, full_week)->Ok_0;
    law_semicircles(decoded.m0);
    law_semicircles(decoded.delta_n);
    law_semicircles(decoded.omega0);
    law_semicircles(decoded.i0);
    law_semicircles(decoded.omega);
    law_semicircles(decoded.omega_dot);
    law_semicircles(decoded.idot);
    lemma_decimal_integer(decoded.toe as int);
    lemma_decimal_integer(decoded.sv_health as int);
    lemma_decimal_integer(decoded.iodc as int);
    lemma_fundamental_div_mod(decoded.toe as int, 604800);
    lemma_fundamental_div_mod(decoded.toc as int, 604800);
    let iode = decoded.iode;
    assert(0 <= iode <= 4294967295i64 ==> iode & 0xffff_ffff == iode) by (bit_vector);
}

/// Subframes form a record exactly where they are of a GPS satellite, the week given is the one whose
/// last ten bits they state, their accuracy index is one of 0 to 14, and they state a curve fit; the
/// accuracy is that of the index and the fit that of the flag and issues.
pub proof fn law_subframes_accepted(
    decoded: LnavDecoded,
    satellite_id: GnssSatelliteId,
    full_week: u32,
)
    ensures
        ({
            let read = lnav_record(decoded, satellite_id, full_week);
            let hours = flag_fit_hours(
                decoded.fit_interval_flag as int,
                decoded.iode as int,
                decoded.iodc as int,
            );
            &&& read is Ok ==> {
                &&& satellite_id.system is Gps
                &&& (full_week - decoded.week_number) % 1024 == 0 && 0 <= decoded.week_number < 1024
                &&& 0 <= decoded.ura_index <= 14
                &&& hours matches Some(h) && read->Ok_0.fit_interval_h matches Some(d)
                    && d.integer() == Some(h)
                &&& read->Ok_0.sv_accuracy_m matches Some(a) && at_most_hundredths(
                    a,
                    ura_steps(decoded.ura_index as int),
                ) && !at_most_hundredths(a, (ura_steps(decoded.ura_index as int) - 1) as nat)
            }
            &&& satellite_id.system is Gps && (full_week - decoded.week_number) % 1024 == 0 && 0
                <= decoded.week_number < 1024 && 0 <= decoded.ura_index <= 14 && hours is Some && 0
                <= decoded.toe < 604800 && 0 <= decoded.toc < 604800 ==> read is Ok
        }),
{
    let read = lnav_record(decoded, satellite_id, full_week);
    lemma_fundamental_div_mod(full_week as int, 1024);
    let hours = flag_fit_hours(
        decoded.fit_interval_flag as int,
        decoded.iode as int,
        decoded.iodc as int,
    );
    if read is Ok {
        lemma_decimal_integer(hours->0);
        let i = decoded.ura_index as int;
        law_ura_meters(i);
        lemma_hundredths(ura_value(i) as int);
    }
}

/// Some hundredths are at most that many and no fewer.
proof fn lemma_hundredths(n: int)
    requires
        0 < n <= 1000000,
    ensures
        at_most_hundredths(scaled_number(n, 2), n as nat),
        !at_most_hundredths(scaled_number(n, 2), (n - 1) as nat),
{
    lemma_pow10_values();
    let m = n as nat;
    let (d, e) = strip_zeros(m, 0);
    lemma_strip_zeros(m, 0);
    lemma_strip_power(m, 0);
    lemma_digit_count(m);
    lemma_digit_count(d);
    if digit_count(m) > 7 {
        lemma_pow10_monotone(7, (digit_count(m) - 1) as nat);
    }
    assert(0 <= e <= 7);
}

} // verus!

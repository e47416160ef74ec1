//! What accuracies, health and group delays stand for.

use vstd::prelude::*;

use crate::decimal::{
    digit_count, lemma_digit_count, lemma_pow10_monotone, lemma_pow10_values, lemma_strip_zeros,
    pow10, strip_zeros, Decimal,
};
use crate::health::{
    at_least_midpoint, excluded, health_excluded, nearest_step, sisa_deviation, ura_deviation,
    ura_index_from, ura_index_of, ura_value, variance,
};
use crate::id::{GnssSatelliteId, GnssSystem};
use crate::queries::{law_selected_age, modern};
use crate::record::{
    ura_nominal, BroadcastGroupDelayTerm, BroadcastGroupDelays, BroadcastRecord, CnavParameters,
    CnavSignal, GroupDelay,
};
use crate::reread::lemma_strip_value;
use crate::store::{selected, Store};
use crate::time::GnssWeekTow;
use crate::ura::{ned_bound, two_to, UraNedBound};

verus! {

/// Whether a number is at most `n` hundredths, by its digits.
pub open spec fn at_most_hundredths(d: Decimal, n: nat) -> bool {
    d.negative || (if d.exponent >= -2 {
        d.digits * pow10((d.exponent + 2) as nat) <= n
    } else {
        d.digits <= n * pow10((-d.exponent - 2) as nat)
    })
}

/// The accuracy of each index in hundredths of a meter: 2.4, 3.4, 4.85, 6.85, 9.65 and 13.65 m, and
/// from 24 m on twice the one before.
pub open spec fn ura_steps(index: int) -> nat
    decreases index,
{
    if index <= 0 {
        240
    } else if index == 1 {
        340
    } else if index == 2 {
        485
    } else if index == 3 {
        685
    } else if index == 4 {
        965
    } else if index == 5 {
        1365
    } else if index == 6 {
        2400
    } else {
        2 * ura_steps(index - 1)
    }
}

/// The index of an accuracy is that of the first step that is not below it, and its deviation that
/// step; past the last step, 6144 m, it is the last.
pub proof fn law_ura_step(value: Decimal)
    ensures
        ({
            let i = ura_index_of(value);
            &&& 0 <= i <= 15
            &&& ura_deviation(value) == ura_steps(if i < 14 {
                i
            } else {
                14
            })
            &&& i < 15 ==> at_most_hundredths(value, ura_steps(i))
            &&& forall|k: int|
                0 <= k < i ==> !at_most_hundredths(value, #[trigger] ura_steps(k))
        }),
{
    reveal_with_fuel(ura_steps, 15);
    lemma_steps();
    lemma_index(value, 0);
}

/// The steps are the values of the indices.
proof fn lemma_steps()
    ensures
        forall|k: int| 0 <= k <= 14 ==> #[trigger] ura_steps(k) == ura_value(k),
{
    reveal_with_fuel(ura_steps, 15);
    assert forall|k: int| 0 <= k <= 14 implies #[trigger] ura_steps(k) == ura_value(k) by {
        assert(ura_steps(6) == 2400);
        assert(ura_steps(7) == 4800);
        assert(ura_steps(8) == 9600);
        assert(ura_steps(9) == 19200);
        assert(ura_steps(10) == 38400);
        assert(ura_steps(11) == 76800);
        assert(ura_steps(12) == 153600);
        assert(ura_steps(13) == 307200);
        assert(ura_steps(14) == 614400);
    }
}

/// The first index from one on.
proof fn lemma_index(value: Decimal, from: int)
    requires
        0 <= from <= 15,
    ensures
        ({
            let i = ura_index_from(value, from);
            &&& from <= i <= 15
            &&& i < 15 ==> at_most_hundredths(value, ura_steps(i))
            &&& forall|k: int|
                from <= k < i ==> !at_most_hundredths(value, #[trigger] ura_steps(k))
        }),
    decreases 15 - from,
{
    lemma_steps();
    if from < 15 {
        assert(ura_steps(from) == ura_value(from));
        if !value.at_most(ura_value(from), 2) {
            lemma_index(value, from + 1);
        }
    }
}

/// The meters of a 4-bit accuracy index are those of its step.
pub proof fn law_ura_meters(index: int)
    requires
        0 <= index <= 14,
    ensures
        ura_value(index) == ura_steps(index),
{
    lemma_steps();
}

/// A Galileo accuracy is rounded to the nearest value of its index, the higher of two as near: to 1 cm
/// up to 0.49 m, to 2 cm up to 0.98 m, to 4 cm up to 1.96 m and to 16 cm up to 6 m. Below zero and
/// above 6 m it stands for 500 m.
pub proof fn law_sisa_step(value: Decimal)
    ensures
        value.below_zero() || !at_most_hundredths(value, 600) ==> sisa_deviation(value) == 50000,
        !value.below_zero() && at_most_hundredths(value, 600) ==> ({
            let d = sisa_deviation(value);
            let step: nat = if at_most_hundredths(value, 49) {
                1
            } else if at_most_hundredths(value, 98) {
                2
            } else if at_most_hundredths(value, 196) {
                4
            } else {
                16
            };
            &&& d <= 600
            &&& at_most_hundredths(value, d + step)
            &&& d > step ==> !at_most_hundredths(value, (d - step) as nat)
            &&& step == 1 && d < 49 || step == 2 && d < 98 || step == 4 && d < 196 || step == 16 && d
                < 600 ==> value.below(10 * d + 5 * step, 3)
            &&& step == 1 && d > 0 || step == 2 && d > 50 || step == 4 && d > 100 || step == 16 && d
                > 200 ==> !value.below((10 * d - 5 * step) as nat, 3)
        }),
{
    if !value.below_zero() && value.at_most(600, 2) {
        if value.at_most(49, 2) {
            lemma_nearest_step(value, 0, 1, 0, 49);
        } else if value.at_most(98, 2) {
            lemma_nearest_step(value, 50, 2, 0, 24);
            if value.at_most(48, 2) {
                lemma_more(value, 48, 49);
            }
        } else if value.at_most(196, 2) {
            lemma_nearest_step(value, 100, 4, 0, 24);
            if value.at_most(96, 2) {
                lemma_more(value, 96, 98);
            }
        } else {
            lemma_nearest_step(value, 200, 16, 0, 25);
            if value.at_most(184, 2) {
                lemma_more(value, 184, 196);
            }
        }
    }
}

/// The step nearest to a value is within a step of it.
proof fn lemma_nearest_step(value: Decimal, start: int, step: int, from: int, last: int)
    requires
        0 <= start <= 1000,
        1 <= step <= 16,
        0 <= from <= last <= 100,
        from > 0 ==> at_least_midpoint(value, start, step, from - 1),
        !value.below_zero(),
        value.at_most((start + step * last) as nat, 2),
    ensures
        ({
            let n = nearest_step(value, start, step, from, last);
            let d = (start + step * n) as nat;
            &&& from <= n <= last
            &&& at_most_hundredths(value, d + step as nat)
            &&& n > 0 ==> !at_most_hundredths(value, (d - step) as nat)
            &&& n < last ==> value.below((10 * d + 5 * step) as nat, 3)
            &&& n > 0 ==> !value.below((10 * d - 5 * step) as nat, 3)
        }),
    decreases last - from,
{
    if from < last && at_least_midpoint(value, start, step, from) {
        lemma_nearest_step(value, start, step, from + 1, last);
    } else {
        let d = start + step * from;
        assert(step * from >= 0) by (nonlinear_arith)
            requires
                step >= 1,
                from >= 0,
        ;
        if from >= last {
            lemma_more(value, (start + step * last) as nat, (d + step) as nat);
        } else {
            assert(10 * step * from == 10 * (step * from)) by (nonlinear_arith);
            lemma_below_thousandths(value, (10 * d + 5 * step) as nat, (d + step) as nat);
        }
        if from > 0 {
            assert(10 * step * (from - 1) == 10 * (step * from) - 10 * step) by (nonlinear_arith);
            assert(step * from >= step) by (nonlinear_arith)
                requires
                    step >= 1,
                    from >= 1,
            ;
            lemma_above_thousandths(value, (10 * d - 5 * step) as nat, (d - step) as nat);
        }
    }
}

/// A number at most one bound is at most a higher one.
proof fn lemma_more(value: Decimal, n: nat, m: nat)
    requires
        value.at_most(n, 2),
        n <= m,
    ensures
        at_most_hundredths(value, m),
{
    let p = pow10((if value.exponent >= -2 {
        value.exponent + 2
    } else {
        -value.exponent - 2
    }) as nat);
    assert(n * p <= m * p) by (nonlinear_arith)
        requires
            n <= m,
            p >= 0,
    ;
}

/// A number below so many thousandths is at most the hundredths above.
proof fn lemma_below_thousandths(value: Decimal, n: nat, m: nat)
    requires
        value.below(n, 3),
        n <= 10 * m,
    ensures
        at_most_hundredths(value, m),
{
    if !value.negative {
        let e = value.exponent;
        if e >= -2 {
            let p = pow10((e + 2) as nat);
            assert(pow10((e + 3) as nat) == 10 * p);
            assert(value.digits * (10 * p) == 10 * (value.digits * p)) by (nonlinear_arith);
        } else if e == -3 {
            assert(pow10(0) == 1 && pow10(1) == 10 * pow10(0));
            assert(value.digits * pow10(0) == value.digits) by (nonlinear_arith)
                requires
                    pow10(0) == 1,
            ;
            assert(m * pow10(1) == 10 * m) by (nonlinear_arith)
                requires
                    pow10(1) == 10,
            ;
        } else {
            let p = pow10((-e - 3) as nat);
            assert(pow10((-e - 2) as nat) == 10 * p);
            assert(n * p <= m * (10 * p)) by (nonlinear_arith)
                requires
                    n <= 10 * m,
                    p >= 0,
            ;
        }
    }
}

/// A number not below so many thousandths is more than the hundredths below.
proof fn lemma_above_thousandths(value: Decimal, n: nat, m: nat)
    requires
        !value.below(n, 3),
        10 * m < n,
    ensures
        !at_most_hundredths(value, m),
{
    let e = value.exponent;
    if e >= -2 {
        let p = pow10((e + 2) as nat);
        assert(pow10((e + 3) as nat) == 10 * p);
        assert(value.digits * (10 * p) == 10 * (value.digits * p)) by (nonlinear_arith);
    } else if e == -3 {
        assert(pow10(0) == 1 && pow10(1) == 10 * pow10(0));
        assert(value.digits * pow10(0) == value.digits) by (nonlinear_arith)
            requires
                pow10(0) == 1,
        ;
        assert(m * pow10(1) == 10 * m) by (nonlinear_arith)
            requires
                pow10(1) == 10,
        ;
    } else {
        let p = pow10((-e - 3) as nat);
        assert(pow10((-e - 2) as nat) == 10 * p);
        lemma_pow10_monotone(0, (-e - 3) as nat);
        assert(m * (10 * p) < n * p) by (nonlinear_arith)
            requires
                10 * m < n,
                p >= 1,
        ;
    }
}

/// The variance of a deviation in hundredths of a meter is its square, in square meters.
pub proof fn law_variance(deviation: nat)
    requires
        0 < deviation <= 614400,
    ensures
        ({
            let v = variance(deviation);
            &&& !v.negative
            &&& v.exponent >= -4
            &&& v.digits * pow10((v.exponent + 4) as nat) == deviation * deviation
        }),
{
    let n = deviation * deviation;
    assert(0 < n <= 614400 * 614400) by (nonlinear_arith)
        requires
            0 < deviation <= 614400,
            n == deviation * deviation,
    ;
    lemma_strip_value(n, 0);
    lemma_strip_zeros(n, 0);
    lemma_digit_count(n);
    let (d, e) = strip_zeros(n, 0);
    lemma_pow10_values();
    if digit_count(n) > 12 {
        lemma_pow10_monotone(12, (digit_count(n) - 1) as nat);
    }
    lemma_digit_count(d);
}

/// Which accuracy a store accepts: for Galileo from 0 to 6 m, and for any other system up to 192 m,
/// whose step of 192 m is the last that is not above 300 m. A CNAV record needs an index that
/// predicts an accuracy, from -15 to 14.
pub proof fn law_accuracy_accepted(record: BroadcastRecord)
    requires
        !health_excluded(record),
    ensures
        ({
            let predicted = modern(record.message) ==> (record.cnav matches Some(c) && -15
                <= c.ura_ed_index <= 14);
            match record.sv_accuracy_m {
                None => excluded(record) == !predicted,
                Some(a) => if record.satellite_id.system is Galileo {
                    excluded(record) == (!predicted || a.below_zero() || !at_most_hundredths(a, 600))
                } else {
                    excluded(record) == (!predicted || !at_most_hundredths(a, 19200))
                },
            }
        }),
{
    if let Some(a) = record.sv_accuracy_m {
        law_sisa_step(a);
        law_ura_step(a);
        lemma_steps();
        let i = ura_index_of(a);
        reveal_with_fuel(ura_steps, 15);
        assert(ura_steps(9) == 19200 && ura_steps(10) == 38400);
        if i <= 9 {
            assert(ura_steps(i) <= 19200) by {
                assert(ura_steps(i) == ura_value(i));
            }
            lemma_more(a, ura_steps(i), 19200);
            assert(ura_value(i) <= 19200);
        } else {
            assert(!at_most_hundredths(a, ura_steps(9)));
            assert(ura_value(i) >= 38400);
        }
    }
}

/// A store that excludes unusable records selects none whose accuracy it does not accept.
pub proof fn law_inaccurate_left_out(store: Store, sat: GnssSatelliteId, t: int)
    requires
        store.exclude,
    ensures
        selected(store, sat, t) matches Some(record) ==> {
            &&& record.sv_accuracy_m matches Some(a) ==> if sat.system is Galileo {
                !a.below_zero() && at_most_hundredths(a, 600)
            } else {
                at_most_hundredths(a, 19200)
            }
            &&& modern(record.message) ==> (record.cnav matches Some(c) && -15 <= c.ura_ed_index
                <= 14)
        },
{
    law_selected_age(store, sat, t);
    if let Some(record) = selected(store, sat, t) {
        law_accuracy_accepted(record);
    }
}

/// The nominal accuracy of a CNAV index: 2.8, 5.7 and 11.3 m for 1, 3 and 5, two to the power of the
/// index less 2 from 6 on, and none for 15 and -16. Up to 6 it is two to half the index, times two
/// (see [`crate::ura::law_ura_nominal`]).
pub proof fn law_cnav_accuracy(index: int)
    ensures
        ura_nominal(index) is Some <==> -15 <= index <= 14,
        index == 1 ==> (ura_nominal(index) matches Some(d) && d.digits == 28 && d.exponent == -1),
        index == 3 ==> (ura_nominal(index) matches Some(d) && d.digits == 57 && d.exponent == -1),
        index == 5 ==> (ura_nominal(index) matches Some(d) && d.digits == 113 && d.exponent == -1),
        6 <= index <= 14 ==> (ura_nominal(index) matches Some(d) && d.digits == two_to(
            (index - 2) as nat,
        ) && d.exponent == 0),
        ura_nominal(index) matches Some(d) ==> !d.negative,
{
    reveal_with_fuel(two_to, 13);
}

/// The delay of a record's clock for the single-frequency user of its message: `TGD` for GPS and QZSS
/// LNAV and, scaled to L5, for NavIC; the E5a delay for Galileo F/NAV and the E5b one for I/NAV;
/// `TGD1` for BeiDou; for CNAV `TGD` less the L1 C/A correction, an absent one counting as zero.
pub proof fn law_clock_delay(record: BroadcastRecord)
    ensures
        ({
            let gd = record.group_delays;
            let delay = gd.message_delay(record.satellite_id.system, record.message);
            let term = |t: Option<Decimal>|
                match t {
                    Some(d) => Some(GroupDelay::Term(d)),
                    None => None,
                };
            match record.satellite_id.system {
                GnssSystem::Gps => {
                    &&& record.message is GpsLnav ==> delay == term(gd.gps_tgd_s)
                    &&& record.message is GpsCnav || record.message is GpsCnav2 ==> delay == Some(
                        cnav_delay_of(gd.gps_tgd_s, gd.cnav_isc_l1ca_s),
                    )
                },
                GnssSystem::Qzss => {
                    &&& record.message is QzssLnav ==> delay == term(gd.gps_tgd_s)
                    &&& record.message is QzssCnav || record.message is QzssCnav2 ==> delay == Some(
                        cnav_delay_of(gd.gps_tgd_s, gd.cnav_isc_l1ca_s),
                    )
                },
                GnssSystem::Navic => record.message is NavicLnav ==> delay == (
                match gd.gps_tgd_s {
                    Some(d) => Some(GroupDelay::NavicL5(d)),
                    None => None,
                }),
                GnssSystem::Galileo => {
                    &&& record.message is GalileoFnav ==> delay == term(gd.galileo_bgd_e5a_e1_s)
                    &&& record.message is GalileoInav ==> delay == term(gd.galileo_bgd_e5b_e1_s)
                },
                GnssSystem::BeiDou => record.message is BeidouD1 || record.message is BeidouD2
                    ==> delay == term(gd.beidou_tgd1_s),
                _ => delay is None,
            }
        }),
{
}

/// The CNAV delay: the first term less the second, an absent one counting as zero.
pub open spec fn cnav_delay_of(tgd: Option<Decimal>, isc: Option<Decimal>) -> GroupDelay {
    if tgd is Some && isc is Some {
        GroupDelay::Difference(tgd->0, isc->0)
    } else if tgd is Some {
        GroupDelay::Term(tgd->0)
    } else if isc is Some {
        GroupDelay::Negated(isc->0)
    } else {
        GroupDelay::Zero
    }
}

/// The delay terms by name, and the CNAV adjustment of a signal: `TGD` less the inter-signal
/// correction of that signal, where both are there.
pub proof fn law_delay_terms(gd: BroadcastGroupDelays)
    ensures
        gd.term(BroadcastGroupDelayTerm::GpsTgd) == gd.gps_tgd_s,
        gd.term(BroadcastGroupDelayTerm::GalileoBgdE5aE1) == gd.galileo_bgd_e5a_e1_s,
        gd.term(BroadcastGroupDelayTerm::GalileoBgdE5bE1) == gd.galileo_bgd_e5b_e1_s,
        gd.term(BroadcastGroupDelayTerm::BeidouTgd1) == gd.beidou_tgd1_s,
        gd.term(BroadcastGroupDelayTerm::BeidouTgd2) == gd.beidou_tgd2_s,
        gd.term(BroadcastGroupDelayTerm::CnavIscL1Ca) == gd.cnav_isc_l1ca_s,
        gd.term(BroadcastGroupDelayTerm::CnavIscL2C) == gd.cnav_isc_l2c_s,
        gd.term(BroadcastGroupDelayTerm::CnavIscL5I5) == gd.cnav_isc_l5i5_s,
        gd.term(BroadcastGroupDelayTerm::CnavIscL5Q5) == gd.cnav_isc_l5q5_s,
        gd.term(BroadcastGroupDelayTerm::CnavIscL1Cd) == gd.cnav_isc_l1cd_s,
        gd.term(BroadcastGroupDelayTerm::CnavIscL1Cp) == gd.cnav_isc_l1cp_s,
        forall|signal: CnavSignal|
            match #[trigger] gd.cnav_correction(signal) {
                Some(GroupDelay::Difference(tgd, isc)) => gd.gps_tgd_s == Some(tgd) && (
                match signal {
                    CnavSignal::L1Ca => gd.cnav_isc_l1ca_s,
                    CnavSignal::L2C => gd.cnav_isc_l2c_s,
                    CnavSignal::L5I5 => gd.cnav_isc_l5i5_s,
                    CnavSignal::L5Q5 => gd.cnav_isc_l5q5_s,
                    CnavSignal::L1Cp => gd.cnav_isc_l1cp_s,
                    CnavSignal::L1Cd => gd.cnav_isc_l1cd_s,
                }) == Some(isc),
                Some(_) => false,
                None => gd.gps_tgd_s is None || gd.isc(signal) is None,
            },
{
}

/// The bound of a CNAV record's non-elevation accuracy grows from its nominal value by 2^-(14 + NED1)
/// m for each second since the propagation epoch, and from 26 hours on by 2^-(28 + NED2) m for the
/// square of the seconds beyond.
pub proof fn law_ned_bound(bound: UraNedBound, params: CnavParameters, t: GnssWeekTow)
    requires
        ned_bound(bound, params, t),
    ensures
        ({
            let q: int = 1000000000000000000000000000000;
            let elapsed = ((t.week - params.top.week) * 604800 + t.tow_s.whole
                - params.top.tow_s.whole) * q + t.tow_s.quectos - params.top.tow_s.quectos;
            &&& ura_nominal(params.ura_ned0_index as int) == Some(bound.ned0_m)
            &&& bound.linear_power + params.ura_ned1_index == -14
            &&& bound.elapsed.total() == elapsed
            &&& bound.square is Some <==> elapsed > 93600 * q
            &&& bound.square matches Some((power, past)) ==> power + params.ura_ned2_index == -28
                && past.total() + 93600 * q == elapsed
        }),
{
}

} // verus!

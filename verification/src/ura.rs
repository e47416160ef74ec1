//! The accuracy bounds of CNAV messages.

use vstd::prelude::*;

use crate::decimal::{lemma_pow10_values, pow10, Decimal};
use crate::epoch::{exact_week_tow_epoch, native_total, ExactEpoch};
use crate::record::{cnav_ura_nominal_m, ura_nominal, CnavParameters};
use crate::time::{GnssWeekTow, TimeScale, QUECTOS_PER_SECOND};

verus! {

/// Two to the power `n`.
pub open spec fn two_to(n: nat) -> nat
    decreases n,
{
    if n == 0 {
        1
    } else {
        2 * two_to((n - 1) as nat)
    }
}

/// Powers of two up to the thirteenth.
proof fn lemma_two_to_values()
    ensures
        two_to(0) == 1,
        two_to(1) == 2,
        two_to(2) == 4,
        two_to(3) == 8,
        two_to(4) == 16,
        two_to(5) == 32,
        two_to(6) == 64,
        two_to(7) == 128,
        two_to(8) == 256,
        two_to(9) == 512,
        two_to(10) == 1024,
        two_to(11) == 2048,
        two_to(12) == 4096,
        two_to(13) == 8192,
{
    reveal_with_fuel(two_to, 15);
}

/// The powers of ten the squares are counted in.
proof fn lemma_even_powers()
    ensures
        pow10(0) == 1,
        pow10(2) == 100,
        pow10(4) == 10000,
        pow10(6) == 1000000,
        pow10(8) == 100000000,
        pow10(10) == 10000000000,
        pow10(12) == 1000000000000,
        pow10(32) == 100000000000000000000000000000000,
        pow10(34) == 10000000000000000000000000000000000,
        pow10(36) == 1000000000000000000000000000000000000,
{
    lemma_pow10_values();
    reveal_with_fuel(pow10, 8);
}

/// The nominal URA of an index from -15 to 6, apart from the three tabled values, is two to the
/// power `1 + index / 2`: exactly for an even index, and to within five units of its last digit for
/// an odd one.
pub proof fn law_ura_nominal(index: int)
    requires
        -15 <= index <= 6,
        index != 1,
        index != 3,
        index != 5,
    ensures
        ({
            let ura = ura_nominal(index)->0;
            let d = ura.digits as int;
            let above = two_to((if index > -2 { 2 + index } else { 0 }) as nat) as int;
            let below = two_to((if index < -2 { -2 - index } else { 0 }) as nat) as int;
            let unit = pow10((-2 * ura.exponent) as nat) as int;
            &&& ura_nominal(index) is Some
            &&& ura.exponent <= 0
            &&& index % 2 == 0 ==> d * d * below == above * unit
            &&& index % 2 != 0 ==> (d - 5) * (d - 5) * below <= above * unit <= (d + 5) * (d + 5)
                * below
        }),
{
    lemma_two_to_values();
    lemma_even_powers();
    let ura = ura_nominal(index)->0;
    let d = ura.digits as int;
    let above = two_to((if index > -2 { 2 + index } else { 0 }) as nat) as int;
    let below = two_to((if index < -2 { -2 - index } else { 0 }) as nat) as int;
    let unit = pow10((-2 * ura.exponent) as nat) as int;
    if index == -15 {
        assert((d - 5) * (d - 5) * below <= above * unit <= (d + 5) * (d + 5) * below) by (nonlinear_arith)
            requires
                d == 11048543456039804,
                above == 1,
                below == 8192,
                unit == 1000000000000000000000000000000000000,
        ;
    } else if index == -14 {
        assert(d * d * below == above * unit) by (nonlinear_arith)
            requires
                d == 15625,
                above == 1,
                below == 4096,
                unit == 1000000000000,
        ;
    } else if index == -13 {
        assert((d - 5) * (d - 5) * below <= above * unit <= (d + 5) * (d + 5) * below) by (nonlinear_arith)
            requires
                d == 22097086912079608,
                above == 1,
                below == 2048,
                unit == 1000000000000000000000000000000000000,
        ;
    } else if index == -12 {
        assert(d * d * below == above * unit) by (nonlinear_arith)
            requires
                d == 3125,
                above == 1,
                below == 1024,
                unit == 10000000000,
        ;
    } else if index == -11 {
        assert((d - 5) * (d - 5) * below <= above * unit <= (d + 5) * (d + 5) * below) by (nonlinear_arith)
            requires
                d == 44194173824159216,
                above == 1,
                below == 512,
                unit == 1000000000000000000000000000000000000,
        ;
    } else if index == -10 {
        assert(d * d * below == above * unit) by (nonlinear_arith)
            requires
                d == 625,
                above == 1,
                below == 256,
                unit == 100000000,
        ;
    } else if index == -9 {
        assert((d - 5) * (d - 5) * below <= above * unit <= (d + 5) * (d + 5) * below) by (nonlinear_arith)
            requires
                d == 8838834764831843,
                above == 1,
                below == 128,
                unit == 10000000000000000000000000000000000,
        ;
    } else if index == -8 {
        assert(d * d * below == above * unit) by (nonlinear_arith)
            requires
                d == 125,
                above == 1,
                below == 64,
                unit == 1000000,
        ;
    } else if index == -7 {
        assert((d - 5) * (d - 5) * below <= above * unit <= (d + 5) * (d + 5) * below) by (nonlinear_arith)
            requires
                d == 17677669529663687,
                above == 1,
                below == 32,
                unit == 10000000000000000000000000000000000,
        ;
    } else if index == -6 {
        assert(d * d * below == above * unit) by (nonlinear_arith)
            requires
                d == 25,
                above == 1,
                below == 16,
                unit == 10000,
        ;
    } else if index == -5 {
        assert((d - 5) * (d - 5) * below <= above * unit <= (d + 5) * (d + 5) * below) by (nonlinear_arith)
            requires
                d == 35355339059327373,
                above == 1,
                below == 8,
                unit == 10000000000000000000000000000000000,
        ;
    } else if index == -4 {
        assert(d * d * below == above * unit) by (nonlinear_arith)
            requires
                d == 5,
                above == 1,
                below == 4,
                unit == 100,
        ;
    } else if index == -3 {
        assert((d - 5) * (d - 5) * below <= above * unit <= (d + 5) * (d + 5) * below) by (nonlinear_arith)
            requires
                d == 7071067811865475,
                above == 1,
                below == 2,
                unit == 100000000000000000000000000000000,
        ;
    } else if index == -2 {
        assert(d * d * below == above * unit) by (nonlinear_arith)
            requires
                d == 1,
                above == 1,
                below == 1,
                unit == 1,
        ;
    } else if index == -1 {
        assert((d - 5) * (d - 5) * below <= above * unit <= (d + 5) * (d + 5) * below) by (nonlinear_arith)
            requires
                d == 14142135623730951,
                above == 2,
                below == 1,
                unit == 100000000000000000000000000000000,
        ;
    } else if index == 0 {
        assert(d * d * below == above * unit) by (nonlinear_arith)
            requires
                d == 2,
                above == 4,
                below == 1,
                unit == 1,
        ;
    } else if index == 2 {
        assert(d * d * below == above * unit) by (nonlinear_arith)
            requires
                d == 4,
                above == 16,
                below == 1,
                unit == 1,
        ;
    } else if index == 4 {
        assert(d * d * below == above * unit) by (nonlinear_arith)
            requires
                d == 8,
                above == 64,
                below == 1,
                unit == 1,
        ;
    } else if index == 6 {
        assert(d * d * below == above * unit) by (nonlinear_arith)
            requires
                d == 16,
                above == 256,
                below == 1,
                unit == 1,
        ;
    }
}

/// The time-dependent CNAV URA_NED bound in meters, as the terms it is formed of: the nominal URA,
/// plus two to the power `linear_power` times the seconds elapsed since the propagation epoch, and
/// past 26 hours plus two to the power `square_power` times the square of the seconds elapsed
/// beyond.
#[derive(Debug, Clone, Copy, PartialEq, Eq)]
pub struct UraNedBound {
    /// The nominal URA of the NED0 index, m.
    pub ned0_m: Decimal,
    /// The power of two of the NED1 rate.
    pub linear_power: i32,
    /// Seconds elapsed since the propagation epoch.
    pub elapsed: ExactEpoch,
    /// The power of two of the NED2 rate, and the seconds elapsed past 26 hours; `None` up to 26
    /// hours.
    pub square: Option<(i32, ExactEpoch)>,
}

/// Seconds after the propagation epoch the NED2 rate counts from.
pub const NED2_AFTER_S: i128 = 93600;

/// A time in weeks of one scale.
pub open spec fn on_gps_weeks(t: GnssWeekTow) -> int {
    native_total(GnssWeekTow { system: TimeScale::Gpst, ..t })
}

/// Whether a bound is the URA_NED bound of some parameters at `t`: the nominal URA of the NED0 index,
/// the rate of the NED1 index over the time since the propagation epoch and, once that is over 26
/// hours, the rate of the NED2 index over the time beyond.
pub open spec fn ned_bound(bound: UraNedBound, params: CnavParameters, t: GnssWeekTow) -> bool {
    let elapsed = on_gps_weeks(t) - on_gps_weeks(params.top);
    let limit = NED2_AFTER_S * QUECTOS_PER_SECOND;
    &&& ura_nominal(params.ura_ned0_index as int) == Some(bound.ned0_m)
    &&& bound.linear_power == -(14 + params.ura_ned1_index)
    &&& bound.elapsed.total() == elapsed
    &&& match bound.square {
        None => elapsed <= limit,
        Some((power, past)) => elapsed > limit && power == -(28 + params.ura_ned2_index)
            && past.total() == elapsed - limit,
    }
}

/// Time-dependent CNAV URA_NED bound at GPST `t`; `None` where the NED0 index carries no
/// prediction.
pub fn cnav_ura_ned_m(params: &CnavParameters, t: GnssWeekTow) -> (r: Option<UraNedBound>)
    ensures
        r is None <==> ura_nominal(params.ura_ned0_index as int) is None,
        r matches Some(bound) ==> ned_bound(bound, *params, t),
{
    let ned0_m: Decimal = match cnav_ura_nominal_m(params.ura_ned0_index) {
        Some(m) => m,
        None => {
            return None;
        },
    };
    let now = exact_week_tow_epoch(
        GnssWeekTow { system: TimeScale::Gpst, week: t.week, tow_s: t.tow_s },
    );
    let top = exact_week_tow_epoch(
        GnssWeekTow { system: TimeScale::Gpst, week: params.top.week, tow_s: params.top.tow_s },
    );
    proof {
        assert((GnssWeekTow { system: TimeScale::Gpst, ..t }) == (GnssWeekTow {
            system: TimeScale::Gpst,
            week: t.week,
            tow_s: t.tow_s,
        }));
        assert((GnssWeekTow { system: TimeScale::Gpst, ..params.top }) == (GnssWeekTow {
            system: TimeScale::Gpst,
            week: params.top.week,
            tow_s: params.top.tow_s,
        }));
    }
    let elapsed = now.minus(top);
    let limit = ExactEpoch { whole: NED2_AFTER_S, quectos: 0 };
    let square: Option<(i32, ExactEpoch)> = if limit.before(elapsed) {
        Some((-(28 + params.ura_ned2_index as i32), now.minus(top.moved(NED2_AFTER_S))))
    } else {
        None
    };
    Some(
        UraNedBound {
            ned0_m,
            linear_power: -(14 + params.ura_ned1_index as i32),
            elapsed,
            square,
        },
    )
}

} // verus!

//! Exact instants and the distances between them.

use vstd::arithmetic::div_mod::lemma_fundamental_div_mod;
use vstd::prelude::*;

use crate::decimal::Decimal;
use crate::id::GnssSystem;
use crate::instant::split_time;
use crate::record::{BroadcastRecord, GlonassRecord, SbasRecord};
use crate::time::{
    day_of_j2000, gps_minus_utc_at_utc_j2000_s, leap_seconds_on, seconds_of, week_epoch,
    week_epoch_day, GnssWeekTow, Seconds, J2000_DAY, MAX_WHOLE_SECONDS, QUECTOS_PER_SECOND,
    SECONDS_PER_DAY, SECONDS_PER_WEEK,
};

verus! {

/// Whole seconds an exact instant lies at most from J2000.
pub const MAX_EPOCH_SECONDS: i128 = 100000000000000000000;

/// An instant in seconds past J2000 noon, exact to 10^-30 s.
#[derive(Debug, Clone, Copy, PartialEq, Eq, Structural)]
pub struct ExactEpoch {
    /// Whole seconds, rounded down.
    pub whole: i128,
    /// The fraction above the whole seconds, in 10^-30 s.
    pub quectos: u128,
}

impl ExactEpoch {
    /// The fraction is below one second, and the instant is in range.
    pub open spec fn wf(self) -> bool {
        &&& self.quectos < QUECTOS_PER_SECOND
        &&& -MAX_EPOCH_SECONDS <= self.whole <= MAX_EPOCH_SECONDS
    }

    /// The instant in 10^-30 s.
    pub open spec fn total(self) -> int {
        self.whole * QUECTOS_PER_SECOND + self.quectos
    }

    /// The instant `s` past J2000 noon.
    pub fn from_j2000_seconds(s: Seconds) -> (r: ExactEpoch)
        ensures
            r.wf(),
            r.total() == s.total(),
            -9223372036854775808 <= r.whole <= 9223372037854775807,
    {
        let (whole, quectos) = split_time(s);
        ExactEpoch { whole, quectos }
    }

    /// The instant `whole` seconds and `attoseconds` 10^-18 s past J2000 noon.
    pub fn new(whole: i64, attoseconds: u64) -> (r: Option<ExactEpoch>)
        ensures
            r is Some == (attoseconds < 1000000000000000000),
            r matches Some(e) ==> e.wf() && e.total() == whole * QUECTOS_PER_SECOND + attoseconds
                * 1000000000000,
    {
        if attoseconds < 1000000000000000000 {
            Some(ExactEpoch { whole: whole as i128, quectos: attoseconds as u128 * 1000000000000 })
        } else {
            None
        }
    }

    /// The instant moved by whole seconds.
    pub(crate) fn moved(self, seconds: i128) -> (r: ExactEpoch)
        requires
            self.quectos < QUECTOS_PER_SECOND,
            -100000000000000000000000000000000000000 <= self.whole
                <= 100000000000000000000000000000000000000,
            -100000000000000000000 <= seconds <= 100000000000000000000,
        ensures
            r.total() == self.total() + seconds * QUECTOS_PER_SECOND,
            r.whole == self.whole + seconds,
            r.quectos == self.quectos,
    {
        proof {
            assert((self.whole + seconds) * QUECTOS_PER_SECOND == self.whole * QUECTOS_PER_SECOND
                + seconds * QUECTOS_PER_SECOND) by (nonlinear_arith);
        }
        ExactEpoch { whole: self.whole + seconds, quectos: self.quectos }
    }

    /// Whether the instant lies before another.
    pub fn before(self, other: ExactEpoch) -> (r: bool)
        requires
            self.quectos < QUECTOS_PER_SECOND,
            other.quectos < QUECTOS_PER_SECOND,
        ensures
            r == (self.total() < other.total()),
    {
        proof {
            let q = QUECTOS_PER_SECOND as int;
            if self.whole < other.whole {
                assert(self.whole * q + q <= other.whole * q) by (nonlinear_arith)
                    requires
                        self.whole + 1 <= other.whole,
                        q > 0,
                ;
            } else if other.whole < self.whole {
                assert(other.whole * q + q <= self.whole * q) by (nonlinear_arith)
                    requires
                        other.whole + 1 <= self.whole,
                        q > 0,
                ;
            }
        }
        self.whole < other.whole || (self.whole == other.whole && self.quectos < other.quectos)
    }

    /// The time from a reference to the instant, as a span from 0 seconds.
    pub(crate) fn minus(self, reference: ExactEpoch) -> (r: ExactEpoch)
        requires
            self.quectos < QUECTOS_PER_SECOND,
            reference.quectos < QUECTOS_PER_SECOND,
            -400000000000000000000 <= self.whole <= 400000000000000000000,
            -400000000000000000000 <= reference.whole <= 400000000000000000000,
        ensures
            r.quectos < QUECTOS_PER_SECOND,
            r.total() == self.total() - reference.total(),
            -900000000000000000000 <= r.whole <= 900000000000000000000,
    {
        let whole: i128 = self.whole - reference.whole;
        if self.quectos >= reference.quectos {
            proof {
                assert(whole * QUECTOS_PER_SECOND == self.whole * QUECTOS_PER_SECOND
                    - reference.whole * QUECTOS_PER_SECOND) by (nonlinear_arith)
                    requires
                        whole == self.whole - reference.whole,
                ;
            }
            ExactEpoch { whole, quectos: self.quectos - reference.quectos }
        } else {
            proof {
                assert((whole - 1) * QUECTOS_PER_SECOND == self.whole * QUECTOS_PER_SECOND
                    - reference.whole * QUECTOS_PER_SECOND - QUECTOS_PER_SECOND) by (nonlinear_arith)
                    requires
                        whole == self.whole - reference.whole,
                ;
            }
            ExactEpoch {
                whole: whole - 1,
                quectos: self.quectos + (QUECTOS_PER_SECOND - reference.quectos),
            }
        }
    }

    /// The distance between two instants.
    pub(crate) fn distance(self, other: ExactEpoch) -> (r: ExactEpoch)
        requires
            self.quectos < QUECTOS_PER_SECOND,
            other.quectos < QUECTOS_PER_SECOND,
            -400000000000000000000 <= self.whole <= 400000000000000000000,
            -400000000000000000000 <= other.whole <= 400000000000000000000,
        ensures
            r.quectos < QUECTOS_PER_SECOND,
            r.total() == gap(self.total(), other.total()),
    {
        if self.before(other) {
            other.minus(self)
        } else {
            self.minus(other)
        }
    }

    /// The time from a reference to the instant; `None` where it is out of the range of a
    /// [`Seconds`].
    pub fn seconds_since(self, reference: ExactEpoch) -> (r: Option<Seconds>)
        requires
            self.wf(),
            reference.wf(),
        ensures
            ({
                let d = self.total() - reference.total();
                let q = QUECTOS_PER_SECOND as int;
                match r {
                    Some(s) => s.wf() && s.total() == d,
                    None => d >= (i64::MAX + 1) * q || d < i64::MIN * q,
                }
            }),
    {
        let d = self.minus(reference);
        proof {
            let q = QUECTOS_PER_SECOND as int;
            assert(d.whole >= i64::MAX + 1 ==> d.whole * q >= (i64::MAX + 1) * q)
                by (nonlinear_arith)
                requires
                    q > 0,
            ;
            assert(d.whole + 1 <= i64::MIN ==> (d.whole + 1) * q <= i64::MIN * q)
                by (nonlinear_arith)
                requires
                    q > 0,
            ;
            assert((d.whole + 1) * q == d.whole * q + q) by (nonlinear_arith);
        }
        if d.whole > 9223372036854775807 || d.whole < -9223372036854775808 {
            None
        } else {
            Some(Seconds { whole: d.whole as i64, quectos: d.quectos })
        }
    }

    /// The instant `s` later; `None` where it is out of range.
    pub fn checked_add_seconds(self, s: Decimal) -> (r: Option<ExactEpoch>)
        requires
            self.wf(),
        ensures
            match r {
                Some(e) => e.wf() && e.total() == self.total() + seconds_of(s).total(),
                None => self.whole + MAX_WHOLE_SECONDS >= MAX_EPOCH_SECONDS || self.whole
                    - MAX_WHOLE_SECONDS <= -MAX_EPOCH_SECONDS,
            },
    {
        let step = ExactEpoch::from_j2000_seconds(Seconds::from_decimal(s));
        let zero = ExactEpoch { whole: 0, quectos: 0 };
        let back = zero.minus(step);
        let moved = self.minus(back);
        if moved.whole < -100000000000000000000 || moved.whole > 100000000000000000000 {
            proof {
                lemma_step_small(self, s, moved);
            }
            None
        } else {
            Some(moved)
        }
    }

    /// The instant `s` earlier; `None` where it is out of range.
    pub fn checked_sub_seconds(self, s: Decimal) -> (r: Option<ExactEpoch>)
        requires
            self.wf(),
        ensures
            match r {
                Some(e) => e.wf() && e.total() == self.total() - seconds_of(s).total(),
                None => self.whole + MAX_WHOLE_SECONDS >= MAX_EPOCH_SECONDS || self.whole
                    - MAX_WHOLE_SECONDS <= -MAX_EPOCH_SECONDS,
            },
    {
        let step = ExactEpoch::from_j2000_seconds(Seconds::from_decimal(s));
        let moved = self.minus(step);
        if moved.whole < -100000000000000000000 || moved.whole > 100000000000000000000 {
            proof {
                lemma_step_small(self, s, moved);
            }
            None
        } else {
            Some(moved)
        }
    }
}

/// The distance between two instants in 10^-30 s.
pub open spec fn gap(a: int, b: int) -> int {
    if a < b {
        b - a
    } else {
        a - b
    }
}

/// A step moves an instant by at most the largest number of seconds read.
proof fn lemma_step_small(e: ExactEpoch, s: Decimal, moved: ExactEpoch)
    requires
        e.wf(),
        moved.quectos < QUECTOS_PER_SECOND,
        seconds_of(s).wf(),
        -MAX_WHOLE_SECONDS <= seconds_of(s).whole <= MAX_WHOLE_SECONDS,
        moved.total() == e.total() + seconds_of(s).total() || moved.total() == e.total()
            - seconds_of(s).total(),
    ensures
        e.whole - MAX_WHOLE_SECONDS - 1 <= moved.whole <= e.whole + MAX_WHOLE_SECONDS + 1,
{
    let q = QUECTOS_PER_SECOND as int;
    let n = MAX_WHOLE_SECONDS as int;
    let w = seconds_of(s).whole as int;
    assert(-n * q <= w * q <= n * q) by (nonlinear_arith)
        requires
            -n <= w <= n,
            q > 0,
    ;
    assert(moved.whole * q <= e.whole * q + (n + 2) * q - 1 && moved.whole * q >= e.whole * q - (n
        + 2) * q + 1) by (nonlinear_arith)
        requires
            moved.whole * q <= e.whole * q + n * q + 2 * q - 1,
            moved.whole * q >= e.whole * q - n * q - 2 * q + 1,
    ;
    assert(moved.whole < e.whole + n + 2) by (nonlinear_arith)
        requires
            moved.whole * q < (e.whole + n + 2) * q,
            q > 0,
    ;
    assert(moved.whole > e.whole - n - 2) by (nonlinear_arith)
        requires
            moved.whole * q > (e.whole - n - 2) * q,
            q > 0,
    ;
}

/// A week and time of week in 10^-30 s past J2000 noon of its own scale.
pub open spec fn native_total(w: GnssWeekTow) -> int {
    (w.week * SECONDS_PER_WEEK + (week_epoch_day(w.system) - J2000_DAY) * SECONDS_PER_DAY - 43200)
        * QUECTOS_PER_SECOND + w.tow_s.total()
}

/// A week and time of week as an instant of its own scale, fraction and all.
pub fn exact_week_tow_epoch(time: GnssWeekTow) -> (r: ExactEpoch)
    ensures
        r.wf(),
        r.total() == native_total(time),
{
    let start: i64 = time.week as i64 * SECONDS_PER_WEEK + (week_epoch(time.system) - J2000_DAY)
        * SECONDS_PER_DAY - 43200;
    let tow = ExactEpoch::from_j2000_seconds(time.tow_s);
    tow.moved(start as i128)
}

/// Seconds BeiDou time is behind GPS time.
pub const GPST_MINUS_BDT_S: i64 = 14;

/// A GPS time instant in the time of a satellite's system, in 10^-30 s.
pub open spec fn native_time(system: GnssSystem, t: int) -> int {
    if system == GnssSystem::BeiDou {
        t - GPST_MINUS_BDT_S * QUECTOS_PER_SECOND
    } else {
        t
    }
}

/// A GPS time instant in the time of a satellite's system (see [`native_time`]).
pub fn native_epoch(system: GnssSystem, t: ExactEpoch) -> (r: ExactEpoch)
    requires
        t.wf(),
    ensures
        r.total() == native_time(system, t.total()),
        r.quectos < QUECTOS_PER_SECOND,
        -200000000000000000000 <= r.whole <= 200000000000000000000,
{
    if system == GnssSystem::BeiDou {
        t.moved(-14)
    } else {
        t
    }
}

/// The seconds of week of an instant of a Keplerian system in its own scale, in 10^-30 s; `None`
/// for GLONASS and SBAS, whose records have no week.
pub open spec fn native_sow(system: GnssSystem, t: int) -> Option<int> {
    if system == GnssSystem::Glonass || system == GnssSystem::Sbas {
        None
    } else {
        Some(
            (native_time(system, t) + J2000_GPS_SECONDS_OF_WEEK * QUECTOS_PER_SECOND) % (
            SECONDS_PER_WEEK * QUECTOS_PER_SECOND),
        )
    }
}

/// Seconds of GPS week at J2000 noon.
pub const J2000_GPS_SECONDS_OF_WEEK: i64 = 561600;

/// The seconds of week of an instant (see [`native_sow`]).
pub fn query_native_time(system: GnssSystem, t: ExactEpoch) -> (r: Option<Seconds>)
    requires
        t.wf(),
    ensures
        match r {
            Some(s) => native_sow(system, t.total()) == Some(s.total()) && s.wf() && 0 <= s.whole
                < SECONDS_PER_WEEK,
            None => native_sow(system, t.total()) is None,
        },
{
    if system == GnssSystem::Glonass || system == GnssSystem::Sbas {
        return None;
    }
    let native = native_epoch(system, t);
    let shifted = native.moved(J2000_GPS_SECONDS_OF_WEEK as i128);
    let sow: i128 = crate::instant::floor_mod(shifted.whole, SECONDS_PER_WEEK as i128);
    proof {
        let q = QUECTOS_PER_SECOND as int;
        let w = SECONDS_PER_WEEK as int;
        let n = shifted.whole as int;
        lemma_fundamental_div_mod(n, w);
        let k = n / w;
        assert(n * q == k * (w * q) + sow * q) by (nonlinear_arith)
            requires
                n == w * k + sow,
        ;
        assert(sow * q + shifted.quectos < w * q) by (nonlinear_arith)
            requires
                sow + 1 <= w,
                shifted.quectos < q,
        ;
        vstd::arithmetic::div_mod::lemma_fundamental_div_mod_converse(
            shifted.total(),
            w * q,
            k,
            sow * q + shifted.quectos,
        );
    }
    Some(Seconds { whole: sow as i64, quectos: shifted.quectos })
}

/// Largest distance, seconds, between a query and the `toe` of the Keplerian record selected for
/// it: GPS, QZSS and NavIC 7201 s, Galileo 14400 s, BeiDou 21601 s. The broadcast fit interval does
/// not enter the selection; it stays on the record as metadata.
pub open spec fn max_dtoe(system: GnssSystem) -> int {
    match system {
        GnssSystem::Galileo => 14400,
        GnssSystem::BeiDou => 21601,
        _ => 7201,
    }
}

/// The selection limit of a Keplerian system, seconds (see [`max_dtoe`]).
pub fn keplerian_max_dtoe_s(system: GnssSystem) -> (r: i64)
    ensures
        r == max_dtoe(system),
        0 < r < 100000,
{
    match system {
        GnssSystem::Galileo => 14400,
        GnssSystem::BeiDou => 21601,
        _ => 7201,
    }
}

/// Largest distance, seconds, between a query and the reference epoch of the GLONASS record
/// selected for it.
pub const GLONASS_MAX_AGE_S: i64 = 1800;

/// Largest distance, seconds, between a query and the reference epoch of the SBAS record selected
/// for it.
pub const SBAS_MAX_AGE_S: i64 = 360;

/// Whether two instants lie at most `limit` seconds apart.
pub fn within_exact_interval(query: ExactEpoch, reference: ExactEpoch, limit: i64) -> (r: bool)
    requires
        query.quectos < QUECTOS_PER_SECOND,
        reference.quectos < QUECTOS_PER_SECOND,
        -400000000000000000000 <= query.whole <= 400000000000000000000,
        -400000000000000000000 <= reference.whole <= 400000000000000000000,
    ensures
        r == (gap(query.total(), reference.total()) <= limit * QUECTOS_PER_SECOND),
{
    let bound = ExactEpoch { whole: limit as i128, quectos: 0 };
    !bound.before(query.distance(reference))
}

/// A record's `toe` in 10^-30 s of its own scale.
pub open spec fn toe_total(record: BroadcastRecord) -> int {
    native_total(record.toe)
}

/// Whether a record may be used at `t`, in 10^-30 s of GPS time: its `toe` lies within the limit of
/// its system, and a Galileo `toe` before `t`.
pub open spec fn within_limit(record: BroadcastRecord, t: int) -> bool {
    let system = record.satellite_id.system;
    let now = native_time(system, t);
    &&& system == GnssSystem::Galileo ==> toe_total(record) < now
    &&& gap(toe_total(record), now) <= max_dtoe(system) * QUECTOS_PER_SECOND
}

/// Whether a record may be used at `t` (see [`within_limit`]).
pub fn record_within_exact_limit(record: &BroadcastRecord, t: ExactEpoch) -> (r: bool)
    requires
        t.wf(),
    ensures
        r == within_limit(*record, t.total()),
{
    let system = record.satellite_id.system;
    let now = native_epoch(system, t);
    let toe = exact_week_tow_epoch(record.toe);
    if system == GnssSystem::Galileo && !toe.before(now) {
        return false;
    }
    within_exact_interval(toe, now, keplerian_max_dtoe_s(system))
}

/// A GLONASS reference epoch in whole seconds of GPS time past J2000: `tb` in UTC plus GPS - UTC
/// from the leap-second table at that instant.
pub open spec fn glonass_gpst(utc: int) -> int {
    utc + leap_seconds_on(day_of_j2000(utc))
}

/// GPS - UTC at any instant in whole seconds of UTC past J2000.
pub fn leap_seconds_at(utc: i128) -> (r: i64)
    ensures
        r == leap_seconds_on(day_of_j2000(utc as int)),
        -9 <= r <= 18,
{
    if utc > 1000000000000000000 {
        assert(day_of_j2000(utc as int) >= 736329);
        18
    } else if utc < -1000000000000000000 {
        assert(day_of_j2000(utc as int) < 720074);
        -9
    } else {
        gps_minus_utc_at_utc_j2000_s(utc as i64)
    }
}

impl GlonassRecord {
    /// The reference epoch in GPS time.
    pub fn toe_gpst_j2000_s(&self) -> (r: ExactEpoch)
        ensures
            r.wf(),
            r.quectos == 0,
            r.whole == glonass_gpst(self.toe_utc_j2000_s as int),
    {
        let utc: i128 = self.toe_utc_j2000_s as i128;
        ExactEpoch { whole: utc + leap_seconds_at(utc) as i128, quectos: 0 }
    }
}

impl SbasRecord {
    /// The reference epoch `t0` in GPS time.
    pub fn t0_j2000_s(&self) -> (r: ExactEpoch)
        ensures
            r.wf(),
            r.total() == self.epoch.j2000().total(),
    {
        ExactEpoch::from_j2000_seconds(self.epoch.j2000_s())
    }
}

} // verus!

//! Building a GPS LNAV record from decoded navigation-message subframes.

use vstd::prelude::*;

use crate::decimal::{
    decimal_of, lemma_pow10_values, lemma_significand, round_significant, significand,
    strip_trailing, strip_zeros, zero, Decimal,
};
use crate::format::{int_string, int_text};
use crate::health::{gps_ura_index_to_meters, scaled_number, ura_value};
use crate::id::{token_of_satellite, GnssSatelliteId, GnssSystem};
use crate::record::{
    no_delays, nothing_stated, BroadcastGroupDelays, BroadcastIssue, BroadcastRecord,
    ClockPolynomial, KeplerianElements, NavMessage, StatedNavFields,
};
use crate::text::{own, push, utf8};
use crate::time::{GnssWeekTow, Seconds, TimeScale};

verus! {

/// Decoded GPS LNAV subframes 1 to 3, in the units of the message: the angular elements in
/// semicircles or semicircles per second, the harmonic terms in radians and meters.
#[derive(Debug, Clone, Copy, PartialEq, Eq, Structural)]
pub struct LnavDecoded {
    /// The 10-bit week number.
    pub week_number: i64,
    /// The codes on L2.
    pub l2_code: i64,
    /// The URA index.
    pub ura_index: i64,
    /// The health word.
    pub sv_health: i64,
    /// The issue of data, clock.
    pub iodc: i64,
    /// The group delay, s.
    pub tgd: Decimal,
    /// The clock reference time, seconds of week.
    pub toc: i64,
    /// Clock bias, s.
    pub af0: Decimal,
    /// Clock drift, s/s.
    pub af1: Decimal,
    /// Clock drift rate, s/s^2.
    pub af2: Decimal,
    /// The issue of data, ephemeris.
    pub iode: i64,
    /// Sine harmonic of the radius, m.
    pub crs: Decimal,
    /// Mean motion difference, semicircles/s.
    pub delta_n: Decimal,
    /// Mean anomaly at reference time, semicircles.
    pub m0: Decimal,
    /// Cosine harmonic of the argument of latitude, rad.
    pub cuc: Decimal,
    /// Eccentricity.
    pub eccentricity: Decimal,
    /// Sine harmonic of the argument of latitude, rad.
    pub cus: Decimal,
    /// Square root of the semi-major axis, sqrt(m).
    pub sqrt_a: Decimal,
    /// The ephemeris reference time, seconds of week.
    pub toe: i64,
    /// The fit interval flag.
    pub fit_interval_flag: i64,
    /// The age of data offset.
    pub aodo: i64,
    /// Cosine harmonic of the inclination, rad.
    pub cic: Decimal,
    /// Longitude of ascending node at weekly epoch, semicircles.
    pub omega0: Decimal,
    /// Sine harmonic of the inclination, rad.
    pub cis: Decimal,
    /// Inclination at reference time, semicircles.
    pub i0: Decimal,
    /// Cosine harmonic of the radius, m.
    pub crc: Decimal,
    /// Argument of perigee, semicircles.
    pub omega: Decimal,
    /// Rate of right ascension, semicircles/s.
    pub omega_dot: Decimal,
    /// Rate of inclination, semicircles/s.
    pub idot: Decimal,
}

impl LnavDecoded {
    /// The angular elements are numbers in range.
    pub open spec fn wf(self) -> bool {
        &&& self.delta_n.wf()
        &&& self.m0.wf()
        &&& self.omega0.wf()
        &&& self.i0.wf()
        &&& self.omega.wf()
        &&& self.omega_dot.wf()
        &&& self.idot.wf()
    }
}

/// Failure building a [`BroadcastRecord`] from decoded LNAV subframes.
#[derive(Debug, Clone, Copy, PartialEq, Eq)]
pub enum LnavRecordError {
    /// LNAV is the GPS L1 C/A message; the satellite is not a GPS satellite.
    NotGps(GnssSatelliteId),
    /// A derived week/time-of-week value was not representable.
    InvalidEpoch(&'static str),
    /// The caller-supplied `full_week` does not reduce to the decoded 10-bit week
    /// (`full_week % 1024 != decoded_week`), so it unrolls to the wrong GPS week.
    WeekMismatch {
        /// The caller-supplied unrolled week.
        full_week: u32,
        /// The 10-bit week decoded from the message.
        decoded_week: i64,
    },
    /// URA index 15 (or an out-of-range index) carries no accuracy prediction.
    NoUraPrediction(i64),
    /// The fit-interval flag / IODE / IODC combination is reserved or otherwise not a defined
    /// curve-fit interval.
    FitIntervalUnsupported {
        /// The 1-bit fit-interval flag from the message.
        fit_interval_flag: i64,
        /// The decoded IODE.
        iode: i64,
        /// The decoded IODC.
        iodc: i64,
    },
}

/// The text of an error.
pub open spec fn lnav_error_text(e: LnavRecordError) -> Seq<u8> {
    match e {
        LnavRecordError::NotGps(sat) => utf8("LNAV is a GPS message; "@) + token_of_satellite(sat)
            + utf8(" is not a GPS satellite"@),
        LnavRecordError::InvalidEpoch(field) => utf8("derived "@) + utf8(field@) + utf8(
            " week/TOW is not representable"@,
        ),
        LnavRecordError::WeekMismatch { full_week, decoded_week } => utf8("full_week "@) + int_text(
            full_week as int,
        ) + utf8(" (week % 1024 = "@) + int_text(full_week as int % 1024) + utf8(
            ") disagrees with decoded 10-bit week "@,
        ) + int_text(decoded_week as int),
        LnavRecordError::NoUraPrediction(index) => utf8("URA index "@) + int_text(index as int)
            + utf8(" carries no accuracy prediction"@),
        LnavRecordError::FitIntervalUnsupported { fit_interval_flag, iode, iodc } => utf8(
            "fit interval flag "@,
        ) + int_text(fit_interval_flag as int) + utf8(" with IODE "@) + int_text(iode as int)
            + utf8(" / IODC "@) + int_text(iodc as int) + utf8(
            " is not a defined curve-fit interval"@,
        ),
    }
}

/// Append an integer.
fn push_integer(out: &mut String, n: i64)
    ensures
        utf8(final(out)@) == utf8(old(out)@) + int_text(n as int),
{
    let text = int_string(n);
    push(out, text.as_str());
}

impl LnavRecordError {
    /// The error in words.
    pub fn text(&self) -> (r: String)
        ensures
            utf8(r@) == lnav_error_text(*self),
    {
        match self {
            LnavRecordError::NotGps(sat) => {
                let mut out = own("LNAV is a GPS message; ");
                sat.push_token(&mut out);
                push(&mut out, " is not a GPS satellite");
                out
            },
            LnavRecordError::InvalidEpoch(field) => {
                let mut out = own("derived ");
                push(&mut out, field);
                push(&mut out, " week/TOW is not representable");
                out
            },
            LnavRecordError::WeekMismatch { full_week, decoded_week } => {
                let mut out = own("full_week ");
                push_integer(&mut out, *full_week as i64);
                push(&mut out, " (week % 1024 = ");
                push_integer(&mut out, (*full_week % 1024) as i64);
                push(&mut out, ") disagrees with decoded 10-bit week ");
                push_integer(&mut out, *decoded_week);
                out
            },
            LnavRecordError::NoUraPrediction(index) => {
                let mut out = own("URA index ");
                push_integer(&mut out, *index);
                push(&mut out, " carries no accuracy prediction");
                out
            },
            LnavRecordError::FitIntervalUnsupported { fit_interval_flag, iode, iodc } => {
                let mut out = own("fit interval flag ");
                push_integer(&mut out, *fit_interval_flag);
                push(&mut out, " with IODE ");
                push_integer(&mut out, *iode);
                push(&mut out, " / IODC ");
                push_integer(&mut out, *iodc);
                push(&mut out, " is not a defined curve-fit interval");
                out
            },
        }
    }
}

/// Pi to nineteen digits, times ten to the eighteen.
pub const PI_19: u128 = 3141592653589793238;

/// Semicircles in radians, to nineteen significant digits.
pub open spec fn radians(d: Decimal) -> Decimal {
    if d.digits == 0 {
        zero()
    } else {
        let (m, e) = significand((d.digits * PI_19) as nat, d.exponent - 18, 19);
        let (digits, exponent) = strip_zeros(m, e);
        Decimal { negative: d.negative, digits: digits as u128, exponent: exponent as i32 }
    }
}

/// Semicircles in radians (see [`radians`]).
pub fn semicircles_to_radians(d: Decimal) -> (r: Decimal)
    requires
        d.wf(),
    ensures
        r == radians(d),
{
    if d.digits == 0 {
        return Decimal::zero();
    }
    proof {
        lemma_pow10_values();
        assert(0 < d.digits * PI_19 <= 10000000000000000000 * 3141592653589793238)
            by (nonlinear_arith)
            requires
                0 < d.digits < 10000000000000000000,
                PI_19 == 3141592653589793238,
        ;
    }
    let product: u128 = d.digits * PI_19;
    let (m, e) = round_significant(product, d.exponent as i64 - 18, 19);
    proof {
        lemma_significand(product as nat, d.exponent - 18, 19);
    }
    let (digits, exponent) = strip_trailing(m, e);
    Decimal { negative: d.negative, digits, exponent: exponent as i32 }
}

/// The curve-fit interval in hours of a fit-interval flag, IODE and IODC: flag 0 is the nominal
/// 4-hour fit; flag 1 is an extended fit of 6 hours where `IODE < 240`, and of 8, 14 or 26 hours by
/// the range of the IODC where `IODE` is 240 to 255. Reserved IODC values and any other combination
/// are `None`.
pub open spec fn flag_fit_hours(flag: int, iode: int, iodc: int) -> Option<int> {
    if flag == 0 {
        Some(4)
    } else if flag != 1 {
        None
    } else if 0 <= iode < 240 {
        Some(6)
    } else if !(240 <= iode <= 255) {
        None
    } else if 240 <= iodc <= 247 {
        Some(8)
    } else if 248 <= iodc <= 255 || iodc == 496 {
        Some(14)
    } else if 497 <= iodc <= 503 || 1021 <= iodc <= 1023 {
        Some(26)
    } else {
        None
    }
}

/// The curve-fit interval in hours of a fit-interval flag, IODE and IODC (see [`flag_fit_hours`]).
pub fn gps_fit_interval_from_flag(fit_interval_flag: i64, iode: i64, iodc: i64) -> (r: Result<
    i64,
    LnavRecordError,
>)
    ensures
        match flag_fit_hours(fit_interval_flag as int, iode as int, iodc as int) {
            Some(hours) => r == Ok::<i64, LnavRecordError>(hours as i64),
            None => r == Err::<i64, LnavRecordError>(
                LnavRecordError::FitIntervalUnsupported { fit_interval_flag, iode, iodc },
            ),
        },
{
    let unsupported = LnavRecordError::FitIntervalUnsupported { fit_interval_flag, iode, iodc };
    if fit_interval_flag == 0 {
        Ok(4)
    } else if fit_interval_flag != 1 {
        Err(unsupported)
    } else if 0 <= iode && iode < 240 {
        Ok(6)
    } else if iode < 240 || iode > 255 {
        Err(unsupported)
    } else if 240 <= iodc && iodc <= 247 {
        Ok(8)
    } else if (248 <= iodc && iodc <= 255) || iodc == 496 {
        Ok(14)
    } else if (497 <= iodc && iodc <= 503) || (1021 <= iodc && iodc <= 1023) {
        Ok(26)
    } else {
        Err(unsupported)
    }
}

/// The elements of decoded subframes, angles in radians.
pub open spec fn lnav_elements(decoded: LnavDecoded) -> KeplerianElements {
    KeplerianElements {
        sqrt_a: decoded.sqrt_a,
        e: decoded.eccentricity,
        m0: radians(decoded.m0),
        delta_n: radians(decoded.delta_n),
        omega0: radians(decoded.omega0),
        i0: radians(decoded.i0),
        omega: radians(decoded.omega),
        omega_dot: radians(decoded.omega_dot),
        idot: radians(decoded.idot),
        cuc: decoded.cuc,
        cus: decoded.cus,
        crc: decoded.crc,
        crs: decoded.crs,
        cic: decoded.cic,
        cis: decoded.cis,
        toe_sow: decimal_of(decoded.toe as int),
    }
}

/// A week and whole seconds of week as a reference time.
pub open spec fn lnav_time(week: u32, seconds: i64) -> Option<GnssWeekTow> {
    (GnssWeekTow { system: TimeScale::Gpst, week, tow_s: Seconds { whole: seconds, quectos: 0 } })
        .carried()
}

/// The record of decoded subframes.
pub open spec fn lnav_record(decoded: LnavDecoded, satellite_id: GnssSatelliteId, full_week: u32) -> Result<
    BroadcastRecord,
    LnavRecordError,
> {
    let hours = flag_fit_hours(
        decoded.fit_interval_flag as int,
        decoded.iode as int,
        decoded.iodc as int,
    );
    if satellite_id.system != GnssSystem::Gps {
        Err(LnavRecordError::NotGps(satellite_id))
    } else if full_week % 1024 != decoded.week_number {
        Err(
            LnavRecordError::WeekMismatch { full_week, decoded_week: decoded.week_number },
        )
    } else if !(0 <= decoded.ura_index <= 14) {
        Err(LnavRecordError::NoUraPrediction(decoded.ura_index))
    } else if hours is None {
        Err(
            LnavRecordError::FitIntervalUnsupported {
                fit_interval_flag: decoded.fit_interval_flag,
                iode: decoded.iode,
                iodc: decoded.iodc,
            },
        )
    } else {
        match (lnav_time(full_week, decoded.toe), lnav_time(full_week, decoded.toc)) {
            (None, _) => Err(LnavRecordError::InvalidEpoch("toe")),
            (_, None) => Err(LnavRecordError::InvalidEpoch("toc")),
            (Some(toe), Some(toc)) => Ok(
                BroadcastRecord {
                    satellite_id,
                    message: NavMessage::GpsLnav,
                    issue_of_data: Some(
                        BroadcastIssue {
                            issue: (decoded.iode & 0xffff_ffff) as u32,
                            message: NavMessage::GpsLnav,
                        },
                    ),
                    week: full_week,
                    toe,
                    toc,
                    elements: lnav_elements(decoded),
                    clock: ClockPolynomial {
                        af0: decoded.af0,
                        af1: decoded.af1,
                        af2: decoded.af2,
                        toc_sow: Seconds { whole: decoded.toc, quectos: 0 },
                    },
                    group_delays: BroadcastGroupDelays {
                        gps_tgd_s: Some(decoded.tgd),
                        ..no_delays()
                    },
                    cnav: None,
                    sv_health: decimal_of(decoded.sv_health as int),
                    sv_accuracy_m: Some(
                        scaled_number(ura_value(decoded.ura_index as int) as int, 2),
                    ),
                    fit_interval_h: Some(decimal_of(hours->0)),
                    stated: StatedNavFields {
                        orbit6_field4: Some(decimal_of(decoded.iodc as int)),
                        orbit7_field2: Some(decimal_of(hours->0)),
                        ..nothing_stated()
                    },
                },
            ),
        }
    }
}

/// The elements of decoded subframes (see [`lnav_elements`]).
fn elements_of(decoded: &LnavDecoded) -> (r: KeplerianElements)
    requires
        decoded.wf(),
    ensures
        r == lnav_elements(*decoded),
{
    KeplerianElements {
        sqrt_a: decoded.sqrt_a,
        e: decoded.eccentricity,
        m0: semicircles_to_radians(decoded.m0),
        delta_n: semicircles_to_radians(decoded.delta_n),
        omega0: semicircles_to_radians(decoded.omega0),
        i0: semicircles_to_radians(decoded.i0),
        omega: semicircles_to_radians(decoded.omega),
        omega_dot: semicircles_to_radians(decoded.omega_dot),
        idot: semicircles_to_radians(decoded.idot),
        cuc: decoded.cuc,
        cus: decoded.cus,
        crc: decoded.crc,
        crs: decoded.crs,
        cic: decoded.cic,
        cis: decoded.cis,
        toe_sow: Decimal::from_integer(decoded.toe),
    }
}

impl BroadcastRecord {
    /// Build a GPS LNAV record from decoded navigation-message subframes. The record is the one
    /// the RINEX navigation parser gives except for the inputs only the air interface carries:
    ///
    /// - The decoded angular elements are in semicircles (and semicircles/second); they are scaled
    ///   to radians. The harmonic terms pass through unchanged.
    /// - The 10-bit transmitted week number is ambiguous across the GPS 1024-week rollover, so the
    ///   full (unrolled) week is taken from `full_week`, which has to agree with the decoded week
    ///   (`full_week % 1024 == decoded.week_number`); a disagreement is rejected with
    ///   [`LnavRecordError::WeekMismatch`].
    /// - The fit interval is derived from the fit-interval flag together with IODE/IODC (see
    ///   [`flag_fit_hours`]); reserved combinations are rejected with
    ///   [`LnavRecordError::FitIntervalUnsupported`].
    /// - The 4-bit URA index maps to its meters value; index 15 (no accuracy prediction) is
    ///   rejected with [`LnavRecordError::NoUraPrediction`].
    /// - The IODC is kept in [`StatedNavFields::orbit6_field4`] as a RINEX record states it; the fit
    ///   interval is stated in hours.
    ///
    /// LNAV is the GPS L1 C/A message, so a non-GPS `satellite_id` is rejected.
    pub fn from_lnav(decoded: &LnavDecoded, satellite_id: GnssSatelliteId, full_week: u32) -> (r:
        Result<BroadcastRecord, LnavRecordError>)
        requires
            decoded.wf(),
        ensures
            r == lnav_record(*decoded, satellite_id, full_week),
    {
        if satellite_id.system != GnssSystem::Gps {
            return Err(LnavRecordError::NotGps(satellite_id));
        }
        if (full_week % 1024) as i64 != decoded.week_number {
            return Err(
                LnavRecordError::WeekMismatch { full_week, decoded_week: decoded.week_number },
            );
        }
        let accuracy: Decimal = match gps_ura_index_to_meters(decoded.ura_index) {
            Some(meters) => meters,
            None => {
                return Err(LnavRecordError::NoUraPrediction(decoded.ura_index));
            },
        };
        let hours: i64 = match gps_fit_interval_from_flag(
            decoded.fit_interval_flag,
            decoded.iode,
            decoded.iodc,
        ) {
            Ok(hours) => hours,
            Err(e) => {
                return Err(e);
            },
        };
        let toe = GnssWeekTow::new(
            TimeScale::Gpst,
            full_week,
            Seconds { whole: decoded.toe, quectos: 0 },
        ).normalized();
        let toc_sow = Seconds { whole: decoded.toc, quectos: 0 };
        let toc = GnssWeekTow::new(TimeScale::Gpst, full_week, toc_sow).normalized();
        let (toe, toc): (GnssWeekTow, GnssWeekTow) = match (toe, toc) {
            (None, _) => {
                return Err(LnavRecordError::InvalidEpoch("toe"));
            },
            (_, None) => {
                return Err(LnavRecordError::InvalidEpoch("toc"));
            },
            (Some(toe), Some(toc)) => (toe, toc),
        };
        let iode: i64 = decoded.iode;
        assert(0 <= iode & 0xffff_ffff <= 0xffff_ffff) by (bit_vector);
        let mut stated = StatedNavFields::default();
        stated.orbit6_field4 = Some(Decimal::from_integer(decoded.iodc));
        stated.orbit7_field2 = Some(Decimal::from_integer(hours));
        Ok(
            BroadcastRecord {
                satellite_id,
                message: NavMessage::GpsLnav,
                issue_of_data: Some(
                    BroadcastIssue {
                        issue: (iode & 0xffff_ffff) as u32,
                        message: NavMessage::GpsLnav,
                    },
                ),
                week: full_week,
                toe,
                toc,
                elements: elements_of(decoded),
                clock: ClockPolynomial {
                    af0: decoded.af0,
                    af1: decoded.af1,
                    af2: decoded.af2,
                    toc_sow,
                },
                group_delays: BroadcastGroupDelays::gps_lnav(decoded.tgd),
                cnav: None,
                sv_health: Decimal::from_integer(decoded.sv_health),
                sv_accuracy_m: Some(accuracy),
                fit_interval_h: Some(Decimal::from_integer(hours)),
                stated,
            },
        )
    }
}

/// A record built from decoded subframes states its fit interval as the writer reads it back: the
/// stated hours are the fit interval.
pub proof fn law_lnav_fit_stated(decoded: LnavDecoded, sat: GnssSatelliteId, full_week: u32)
    requires
        lnav_record(decoded, sat, full_week) is Ok,
    ensures
        ({
            let record = lnav_record(decoded, sat, full_week)->Ok_0;
            record.stated.orbit7_field2 == record.fit_interval_h && record.fit_interval_h is Some
        }),
{
}

} // verus!

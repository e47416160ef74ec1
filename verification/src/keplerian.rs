//! Legacy Keplerian records: GPS/QZSS LNAV, Galileo I/NAV and F/NAV, BeiDou D1/D2, NavIC LNAV.

use vstd::prelude::*;

use crate::decimal::Decimal;
use crate::error::{bad_field, faults, Fault, NavParseError};
use crate::fields::{
    adjust_week_to, adjusted_week, broadcast_time_scale, check_extra_lines, epoch_week_tow,
    extra_departures, first_missing, given, given_field, missing, optional_delay, optional_value,
    parse_record_epoch, raw_at, raw_record_field, record_epoch, record_field, scale_of,
    stated_departures, stated_field, stated_value, value_at, week_and_tow, CivilSecondPolicy,
    Layout,
};
use crate::id::{GnssSatelliteId, GnssSystem};
use crate::record::{
    beidou_geo, is_beidou_geo, no_delays, positive, BroadcastGroupDelays, BroadcastIssue,
    BroadcastRecord, ClockPolynomial, KeplerianElements, NavMessage, NavVersion, StatedNavFields,
};
use crate::text::{blank, texts, utf8};
use crate::time::{seconds_of, GnssWeekTow, Seconds, TimeScale};

verus! {

/// A record decoded from its lines, with the departures from the format read through.
pub struct Decoded<T> {
    /// The record.
    pub value: T,
    /// The departures, in the order they were met.
    pub departures: Vec<NavParseError>,
}

/// Whether a reader's outcome is the one stated: the record and its departures, or the error.
pub open spec fn outcome<T>(
    r: Result<Decoded<T>, NavParseError>,
    stated: Result<(T, Seq<Fault>), Fault>,
) -> bool {
    match r {
        Ok(decoded) => stated == Ok::<(T, Seq<Fault>), Fault>(
            (decoded.value, faults(decoded.departures@)),
        ),
        Err(e) => stated == Err::<(T, Seq<Fault>), Fault>(e@),
    }
}

/// The fields a Keplerian record has to state, in the order they are asked for.
pub open spec fn keplerian_required() -> Seq<(usize, &'static str)> {
    seq![
        (4, "crs"),
        (5, "deltaN"),
        (6, "m0"),
        (7, "cuc"),
        (8, "e"),
        (9, "cus"),
        (10, "sqrtA"),
        (11, "toe"),
        (12, "cic"),
        (13, "omega0"),
        (14, "cis"),
        (15, "i0"),
        (16, "crc"),
        (17, "omega"),
        (18, "omegaDot"),
        (19, "idot"),
        (0, "af0"),
        (1, "af1"),
        (2, "af2"),
        (21, "week"),
    ]
}

/// The orbital elements a Keplerian record states.
pub open spec fn stated_elements(lines: Seq<Seq<u8>>, layout: Layout) -> KeplerianElements {
    KeplerianElements {
        crs: given(lines, layout, 4),
        delta_n: given(lines, layout, 5),
        m0: given(lines, layout, 6),
        cuc: given(lines, layout, 7),
        e: given(lines, layout, 8),
        cus: given(lines, layout, 9),
        sqrt_a: given(lines, layout, 10),
        toe_sow: given(lines, layout, 11),
        cic: given(lines, layout, 12),
        omega0: given(lines, layout, 13),
        cis: given(lines, layout, 14),
        i0: given(lines, layout, 15),
        crc: given(lines, layout, 16),
        omega: given(lines, layout, 17),
        omega_dot: given(lines, layout, 18),
        idot: given(lines, layout, 19),
    }
}

/// The message a Galileo data-source word names: its source bits decide where they name one
/// message (bit 1 F/NAV, bits 0 and 2 I/NAV), else its clock bits (bit 9 I/NAV, bit 8 F/NAV),
/// else none.
pub open spec fn galileo_word_message(word: u32) -> NavMessage {
    let fnav = word & 2 != 0;
    let inav = word & 5 != 0;
    let e5a = word & 256 != 0;
    let e5b = word & 512 != 0;
    if inav && !fnav {
        NavMessage::GalileoInav
    } else if fnav && !inav {
        NavMessage::GalileoFnav
    } else if e5b && !e5a {
        NavMessage::GalileoInav
    } else if e5a && !e5b {
        NavMessage::GalileoFnav
    } else {
        NavMessage::GalileoUnclassified
    }
}

/// Whether a Galileo data-source word has a pattern its table forbids: bits 0-2 all set, or bits
/// 8 and 9 both set.
pub open spec fn galileo_word_forbidden(word: u32) -> bool {
    word & 7 == 7 || (word & 256 != 0 && word & 512 != 0)
}

/// Classify a Galileo record from its data-source word (orbit-5 field 2), converted to the
/// nearest integer. The second value is whether the word has a pattern the table forbids. `None`
/// for a value that is no 32-bit word.
pub fn galileo_message(data_sources: Decimal) -> (r: Option<(NavMessage, bool)>)
    ensures
        r == (match data_sources.nearest_word() {
            Some(word) => Some((galileo_word_message(word), galileo_word_forbidden(word))),
            None => None,
        }),
{
    let word: u32 = match data_sources.to_nearest_word() {
        Some(word) => word,
        None => {
            return None;
        },
    };
    let fnav_source: bool = word & 2 != 0;
    let inav_source: bool = word & 5 != 0;
    let e5a_clock: bool = word & 256 != 0;
    let e5b_clock: bool = word & 512 != 0;
    let forbidden: bool = word & 7 == 7 || (e5a_clock && e5b_clock);
    let message = match (inav_source, fnav_source, e5b_clock, e5a_clock) {
        (true, false, _, _) => NavMessage::GalileoInav,
        (false, true, _, _) => NavMessage::GalileoFnav,
        (_, _, true, false) => NavMessage::GalileoInav,
        (_, _, false, true) => NavMessage::GalileoFnav,
        _ => NavMessage::GalileoUnclassified,
    };
    Some((message, forbidden))
}

/// The message of a Keplerian record, with whether its Galileo data-source word is forbidden:
/// the one its frame marker names, else the one its system and its data-source word name. `None`
/// for a Galileo record without a readable word.
pub open spec fn keplerian_message(
    sat: GnssSatelliteId,
    named: Option<NavMessage>,
    word: Option<Decimal>,
) -> Option<(NavMessage, bool)> {
    match named {
        Some(message) => Some((message, false)),
        None => match sat.system {
            GnssSystem::Galileo => match word {
                Some(value) => match value.nearest_word() {
                    Some(w) => Some((galileo_word_message(w), galileo_word_forbidden(w))),
                    None => None,
                },
                None => None,
            },
            GnssSystem::BeiDou => Some(
                (
                    if beidou_geo(sat) {
                        NavMessage::BeidouD2
                    } else {
                        NavMessage::BeidouD1
                    },
                    false,
                ),
            ),
            GnssSystem::Qzss => Some((NavMessage::QzssLnav, false)),
            GnssSystem::Navic => Some((NavMessage::NavicLnav, false)),
            _ => Some((NavMessage::GpsLnav, false)),
        },
    }
}

fn message_of(sat: GnssSatelliteId, named: Option<NavMessage>, word: Option<Decimal>) -> (r: Option<
    (NavMessage, bool),
>)
    ensures
        r == keplerian_message(sat, named, word),
{
    match named {
        Some(message) => Some((message, false)),
        None => match sat.system {
            GnssSystem::Galileo => match word {
                Some(value) => galileo_message(value),
                None => None,
            },
            GnssSystem::BeiDou => if is_beidou_geo(sat) {
                Some((NavMessage::BeidouD2, false))
            } else {
                Some((NavMessage::BeidouD1, false))
            },
            GnssSystem::Qzss => Some((NavMessage::QzssLnav, false)),
            GnssSystem::Navic => Some((NavMessage::NavicLnav, false)),
            _ => Some((NavMessage::GpsLnav, false)),
        },
    }
}

/// The group delays of a Keplerian record, from its ORBIT-6 fields 3 and 4; the name of the field
/// that does not read.
pub open spec fn keplerian_delays(system: GnssSystem, field3: Seq<u8>, field4: Seq<u8>) -> Result<
    BroadcastGroupDelays,
    &'static str,
> {
    match system {
        GnssSystem::Gps => match optional_value(field3) {
            Ok(tgd) => Ok(BroadcastGroupDelays { gps_tgd_s: tgd, ..no_delays() }),
            Err(()) => Err("gps tgd"),
        },
        GnssSystem::Qzss => match optional_value(field3) {
            Ok(tgd) => Ok(BroadcastGroupDelays { gps_tgd_s: tgd, ..no_delays() }),
            Err(()) => Err("qzss tgd"),
        },
        GnssSystem::Navic => match optional_value(field3) {
            Ok(tgd) => Ok(BroadcastGroupDelays { gps_tgd_s: tgd, ..no_delays() }),
            Err(()) => Err("navic tgd"),
        },
        GnssSystem::Galileo => match optional_value(field3) {
            Err(()) => Err("bgd e5a/e1"),
            Ok(e5a) => match optional_value(field4) {
                Err(()) => Err("bgd e5b/e1"),
                Ok(e5b) => Ok(
                    BroadcastGroupDelays {
                        galileo_bgd_e5a_e1_s: e5a,
                        galileo_bgd_e5b_e1_s: e5b,
                        ..no_delays()
                    },
                ),
            },
        },
        GnssSystem::BeiDou => match optional_value(field3) {
            Err(()) => Err("beidou tgd1"),
            Ok(tgd1) => match optional_value(field4) {
                Err(()) => Err("beidou tgd2"),
                Ok(tgd2) => Ok(
                    BroadcastGroupDelays {
                        beidou_tgd1_s: tgd1,
                        beidou_tgd2_s: tgd2,
                        ..no_delays()
                    },
                ),
            },
        },
        _ => Ok(no_delays()),
    }
}

fn delays_of(system: GnssSystem, field3: &str, field4: &str) -> (r: Result<
    BroadcastGroupDelays,
    &'static str,
>)
    requires
        utf8(field3@).len() <= 19,
        utf8(field4@).len() <= 19,
    ensures
        r == keplerian_delays(system, utf8(field3@), utf8(field4@)),
{
    match system {
        GnssSystem::Gps => match optional_delay(field3) {
            Ok(tgd) => Ok(BroadcastGroupDelays::gps_lnav_opt(tgd)),
            Err(()) => Err("gps tgd"),
        },
        GnssSystem::Qzss => match optional_delay(field3) {
            Ok(tgd) => Ok(BroadcastGroupDelays::gps_lnav_opt(tgd)),
            Err(()) => Err("qzss tgd"),
        },
        GnssSystem::Navic => match optional_delay(field3) {
            Ok(tgd) => Ok(BroadcastGroupDelays::gps_lnav_opt(tgd)),
            Err(()) => Err("navic tgd"),
        },
        GnssSystem::Galileo => match optional_delay(field3) {
            Err(()) => Err("bgd e5a/e1"),
            Ok(e5a) => match optional_delay(field4) {
                Err(()) => Err("bgd e5b/e1"),
                Ok(e5b) => Ok(BroadcastGroupDelays::galileo_opt(e5a, e5b)),
            },
        },
        GnssSystem::BeiDou => match optional_delay(field3) {
            Err(()) => Err("beidou tgd1"),
            Ok(tgd1) => match optional_delay(field4) {
                Err(()) => Err("beidou tgd2"),
                Ok(tgd2) => Ok(BroadcastGroupDelays::beidou_opt(tgd1, tgd2)),
            },
        },
        _ => Ok(BroadcastGroupDelays::default()),
    }
}

/// The GPS fit interval, hours, a non-negative ORBIT-7 field 2 value states in `version`: hours,
/// with zero for an unknown interval; in RINEX 3.00-3.02 the flag 0 for four hours and 1 for six.
pub open spec fn fit_hours(value: Decimal, version: NavVersion) -> Option<Decimal> {
    if value.digits == 0 {
        if version.legacy_fit_flag() {
            Some(positive(4, 0))
        } else {
            None
        }
    } else if version.legacy_fit_flag() && value == positive(1, 0) {
        Some(positive(6, 0))
    } else {
        Some(value)
    }
}

/// The GPS fit interval, hours, of a non-negative ORBIT-7 field 2 value (see [`fit_hours`]).
pub fn gps_fit_interval_from_value(value: Decimal, version: NavVersion) -> (r: Option<Decimal>)
    ensures
        r == fit_hours(value, version),
{
    let legacy: bool = version.gps_fit_interval_uses_legacy_flag();
    if value.digits == 0 {
        if legacy {
            Some(Decimal { negative: false, digits: 4, exponent: 0 })
        } else {
            None
        }
    } else if legacy && !value.negative && value.digits == 1 && value.exponent == 0 {
        Some(Decimal { negative: false, digits: 6, exponent: 0 })
    } else {
        Some(value)
    }
}

/// The QZSS fit interval, hours, of a fit flag: 0 is two hours, anything else four.
pub open spec fn qzss_fit_hours(flag: Decimal) -> Decimal {
    if flag.digits == 0 {
        positive(2, 0)
    } else {
        positive(4, 0)
    }
}

/// The QZSS fit interval, hours, of a fit flag (see [`qzss_fit_hours`]).
pub fn qzss_fit_interval_h(flag: Decimal) -> (r: Decimal)
    ensures
        r == qzss_fit_hours(flag),
{
    if flag.digits == 0 {
        Decimal { negative: false, digits: 2, exponent: 0 }
    } else {
        Decimal { negative: false, digits: 4, exponent: 0 }
    }
}

/// The GPS fit interval, hours, its ORBIT-7 field states; `Err` for a field that is not blank and
/// is unreadable or negative. A blank field states none.
pub open spec fn gps_fit(raw: Seq<u8>, version: NavVersion) -> Result<Option<Decimal>, ()> {
    if blank(raw) {
        Ok(None)
    } else {
        match stated_value(raw) {
            None => Err(()),
            Some(value) => if value.below_zero() {
                Err(())
            } else {
                Ok(fit_hours(value, version))
            },
        }
    }
}

/// The GPS fit interval, hours, its ORBIT-7 field states (see [`gps_fit`]).
pub fn gps_fit_interval_h(raw: &str, version: NavVersion) -> (r: Result<Option<Decimal>, ()>)
    requires
        utf8(raw@).len() <= 19,
    ensures
        r == gps_fit(utf8(raw@), version),
{
    match optional_delay(raw) {
        Ok(None) => Ok(None),
        Ok(Some(value)) => if value.negative && value.digits > 0 {
            Err(())
        } else {
            Ok(gps_fit_interval_from_value(value, version))
        },
        Err(()) => Err(()),
    }
}

/// The fields a Keplerian record states that the models do not read.
pub open spec fn keplerian_stated(
    lines: Seq<Seq<u8>>,
    layout: Layout,
    system: GnssSystem,
) -> StatedNavFields {
    StatedNavFields {
        orbit5_field2: value_at(lines, layout, 20),
        orbit5_field4: value_at(lines, layout, 22),
        orbit6_field4: if system == GnssSystem::Gps || system == GnssSystem::Qzss || system
            == GnssSystem::Navic {
            value_at(lines, layout, 26)
        } else {
            None
        },
        transmission_time_sow: value_at(lines, layout, 27),
        orbit7_field2: value_at(lines, layout, 28),
        orbit7_field3: value_at(lines, layout, 29),
        orbit7_field4: value_at(lines, layout, 30),
    }
}

/// The fit interval, hours, a Keplerian record states.
pub open spec fn keplerian_fit(
    lines: Seq<Seq<u8>>,
    layout: Layout,
    system: GnssSystem,
    version: NavVersion,
) -> Option<Decimal> {
    match system {
        GnssSystem::Gps => match gps_fit(raw_at(lines, layout, 28), version) {
            Ok(hours) => hours,
            Err(()) => None,
        },
        GnssSystem::Qzss => match value_at(lines, layout, 28) {
            Some(flag) => Some(qzss_fit_hours(flag)),
            None => None,
        },
        _ => None,
    }
}

/// The departures of a Keplerian record, in the order they are met.
pub open spec fn keplerian_departures(
    lines: Seq<Seq<u8>>,
    layout: Layout,
    system: GnssSystem,
    version: NavVersion,
    sat: Seq<u8>,
    forbidden: bool,
) -> Seq<Fault> {
    let raw = |index: int| raw_at(lines, layout, index);
    extra_departures(lines, 8, sat) + stated_departures(raw(20), sat, "orbit-5 field 2")
        + stated_departures(raw(22), sat, "orbit-5 field 4") + stated_departures(
        raw(27),
        sat,
        "transmission time",
    ) + stated_departures(raw(29), sat, "orbit-7 field 3") + stated_departures(
        raw(30),
        sat,
        "orbit-7 field 4",
    ) + (if forbidden {
        seq![bad_field(sat, "data sources")]
    } else {
        Seq::empty()
    }) + (if value_at(lines, layout, 23) is None {
        seq![bad_field(sat, "accuracy")]
    } else {
        Seq::empty()
    }) + (if system == GnssSystem::Gps || system == GnssSystem::Qzss || system
        == GnssSystem::Navic {
        stated_departures(raw(26), sat, "iodc")
    } else {
        Seq::empty()
    }) + (match system {
        GnssSystem::Gps => if gps_fit(raw(28), version) is Err {
            seq![bad_field(sat, "fit interval")]
        } else {
            Seq::empty()
        },
        GnssSystem::Qzss => stated_departures(raw(28), sat, "fit interval"),
        _ => stated_departures(raw(28), sat, "orbit-7 field 2"),
    })
}

/// The reference times of a Keplerian record: the stated week, `toe` and `toc`.
pub open spec fn keplerian_times(
    lines: Seq<Seq<u8>>,
    layout: Layout,
    scale: TimeScale,
    toc_week: u32,
    toc_sow: Seconds,
    sat: Seq<u8>,
) -> Result<(u32, GnssWeekTow, GnssWeekTow), Fault> {
    match given(lines, layout, 21).integer_within(0, u32::MAX as int) {
        None => Err(bad_field(sat, "week")),
        Some(week) => match (GnssWeekTow {
            system: scale,
            week: toc_week,
            tow_s: toc_sow,
        }).carried() {
            None => Err(bad_field(sat, "toc")),
            Some(toc) => match (GnssWeekTow {
                system: scale,
                week: week as u32,
                tow_s: seconds_of(given(lines, layout, 11)),
            }).carried() {
                None => Err(bad_field(sat, "toe")),
                Some(toe) => Ok(
                    (
                        week as u32,
                        GnssWeekTow { week: adjusted_week(toe.week, toe.tow_s, toc), ..toe },
                        toc,
                    ),
                ),
            },
        },
    }
}

/// The Keplerian record that lines state for a satellite, with the departures read through; the
/// first problem that keeps them from being one.
#[verifier::opaque]
pub open spec fn keplerian_record(
    lines: Seq<Seq<u8>>,
    satellite_id: GnssSatelliteId,
    sat: Seq<u8>,
    named: Option<NavMessage>,
    version: NavVersion,
    layout: Layout,
) -> Result<(BroadcastRecord, Seq<Fault>), Fault> {
    let system = satellite_id.system;
    let scale = scale_of(system);
    if lines.len() < 8 {
        Err(Fault::TruncatedRecord(sat))
    } else {
        match clock_time(lines[0], layout, scale) {
            None => Err(bad_field(sat, "toc epoch")),
            Some((toc_week, toc_sow)) => match missing(lines, layout, keplerian_required()) {
                Some(field) => Err(bad_field(sat, field)),
                None => match keplerian_times(lines, layout, scale, toc_week, toc_sow, sat) {
                    Err(fault) => Err(fault),
                    Ok((week, toe, toc)) => match keplerian_message(
                        satellite_id,
                        named,
                        value_at(lines, layout, 20),
                    ) {
                        None => Err(bad_field(sat, "data sources")),
                        Some((message, forbidden)) => match issue_value(value_at(lines, layout, 3)) {
                            None => Err(bad_field(sat, "issue of data")),
                            Some(issue) => if value_at(lines, layout, 24) is None {
                                Err(bad_field(sat, "health"))
                            } else {
                                match keplerian_delays(
                                    system,
                                    raw_at(lines, layout, 25),
                                    raw_at(lines, layout, 26),
                                ) {
                                    Err(field) => Err(bad_field(sat, field)),
                                    Ok(group_delays) => Ok(
                                        (
                                            BroadcastRecord {
                                                satellite_id,
                                                message,
                                                issue_of_data: Some(
                                                    BroadcastIssue { issue, message },
                                                ),
                                                week,
                                                toe,
                                                toc,
                                                elements: stated_elements(lines, layout),
                                                clock: ClockPolynomial {
                                                    af0: given(lines, layout, 0),
                                                    af1: given(lines, layout, 1),
                                                    af2: given(lines, layout, 2),
                                                    toc_sow,
                                                },
                                                group_delays,
                                                cnav: None,
                                                sv_health: given(lines, layout, 24),
                                                sv_accuracy_m: value_at(lines, layout, 23),
                                                fit_interval_h: keplerian_fit(
                                                    lines,
                                                    layout,
                                                    system,
                                                    version,
                                                ),
                                                stated: keplerian_stated(lines, layout, system),
                                            },
                                            keplerian_departures(
                                                lines,
                                                layout,
                                                system,
                                                version,
                                                sat,
                                                forbidden,
                                            ),
                                        ),
                                    ),
                                }
                            },
                        },
                    },
                },
            },
        }
    }
}

/// The clock reference time a record's first line states, as week and time of week.
pub open spec fn clock_time(line: Seq<u8>, layout: Layout, scale: TimeScale) -> Option<
    (u32, Seconds),
> {
    match record_epoch(line, layout, CivilSecondPolicy::Continuous) {
        None => None,
        Some(epoch) => week_and_tow(epoch, scale),
    }
}

/// The issue of data a field states: a 32-bit integer.
pub open spec fn issue_value(value: Option<Decimal>) -> Option<u32> {
    match value {
        None => None,
        Some(d) => match d.integer_within(0, u32::MAX as int) {
            None => None,
            Some(n) => Some(n as u32),
        },
    }
}

/// The reference times of a Keplerian record (see [`keplerian_times`]).
fn times_of(
    lines: &[&str],
    layout: Layout,
    scale: TimeScale,
    toc_week: u32,
    toc_sow: Seconds,
    sat: &str,
) -> (r: Result<(u32, GnssWeekTow, GnssWeekTow), NavParseError>)
    requires
        value_at(texts(lines@), layout, 21) is Some,
        value_at(texts(lines@), layout, 11) is Some,
        toc_sow.wf(),
    ensures
        match r {
            Ok(times) => keplerian_times(
                texts(lines@),
                layout,
                scale,
                toc_week,
                toc_sow,
                utf8(sat@),
            ) == Ok::<(u32, GnssWeekTow, GnssWeekTow), Fault>(times),
            Err(e) => keplerian_times(texts(lines@), layout, scale, toc_week, toc_sow, utf8(sat@))
                == Err::<(u32, GnssWeekTow, GnssWeekTow), Fault>(e@),
        },
{
    let week: u32 = match given_field(lines, layout, 21).to_integer(0, 4294967295) {
        None => {
            return Err(NavParseError::bad(sat, "week"));
        },
        Some(week) => week as u32,
    };
    let toc = match GnssWeekTow::new(scale, toc_week, toc_sow).normalized() {
        None => {
            return Err(NavParseError::bad(sat, "toc"));
        },
        Some(toc) => toc,
    };
    let toe_sow: Seconds = Seconds::from_decimal(given_field(lines, layout, 11));
    let mut toe = match GnssWeekTow::new(scale, week, toe_sow).normalized() {
        None => {
            return Err(NavParseError::bad(sat, "toe"));
        },
        Some(toe) => toe,
    };
    toe.week = adjust_week_to(toe.week, toe.tow_s, toc);
    Ok((week, toe, toc))
}

/// Decode a legacy Keplerian record from its eight lines (see [`keplerian_record`]).
#[verifier::rlimit(60)]
pub fn parse_keplerian_block(
    lines: &[&str],
    satellite_id: GnssSatelliteId,
    sat: &str,
    message_override: Option<NavMessage>,
    version: NavVersion,
    layout: Layout,
) -> (r: Result<Decoded<BroadcastRecord>, NavParseError>)
    ensures
        outcome(
            r,
            keplerian_record(
                texts(lines@),
                satellite_id,
                utf8(sat@),
                message_override,
                version,
                layout,
            ),
        ),
{
    reveal(keplerian_record);
    let ghost all = texts(lines@);
    if lines.len() < 8 {
        return Err(NavParseError::truncated(sat));
    }
    let system = satellite_id.system;
    let mut departures: Vec<NavParseError> = Vec::new();
    assert(faults(departures@) =~= Seq::empty());
    check_extra_lines(lines, 8, sat, &mut departures);
    // Clock line: epoch (-> toc) and the af0/af1/af2 polynomial.
    let time_scale = broadcast_time_scale(system);
    let epoch = match parse_record_epoch(
        lines[0],
        layout,
        sat,
        "toc epoch",
        CivilSecondPolicy::Continuous,
    ) {
        Ok(epoch) => epoch,
        Err(e) => {
            return Err(e);
        },
    };
    let (toc_week, toc_sow): (u32, Seconds) = match epoch_week_tow(&epoch, time_scale) {
        Some(time) => time,
        None => {
            return Err(NavParseError::bad(sat, "toc epoch"));
        },
    };
    let required: [(usize, &'static str); 20] = [
        (4, "crs"),
        (5, "deltaN"),
        (6, "m0"),
        (7, "cuc"),
        (8, "e"),
        (9, "cus"),
        (10, "sqrtA"),
        (11, "toe"),
        (12, "cic"),
        (13, "omega0"),
        (14, "cis"),
        (15, "i0"),
        (16, "crc"),
        (17, "omega"),
        (18, "omegaDot"),
        (19, "idot"),
        (0, "af0"),
        (1, "af1"),
        (2, "af2"),
        (21, "week"),
    ];
    assert(required@ =~= keplerian_required());
    if let Some(field) = first_missing(lines, layout, &required) {
        return Err(NavParseError::bad(sat, field));
    }
    proof {
        assert forall|k: int| 0 <= k < 20 implies value_at(
            all,
            layout,
            (#[trigger] keplerian_required()[k]).0 as int,
        ) is Some by {
            assert(required@[k] == keplerian_required()[k]);
        }
        lemma_required_given(all, layout);
    }
    let elements = KeplerianElements {
        crs: given_field(lines, layout, 4),
        delta_n: given_field(lines, layout, 5),
        m0: given_field(lines, layout, 6),
        cuc: given_field(lines, layout, 7),
        e: given_field(lines, layout, 8),
        cus: given_field(lines, layout, 9),
        sqrt_a: given_field(lines, layout, 10),
        toe_sow: given_field(lines, layout, 11),
        cic: given_field(lines, layout, 12),
        omega0: given_field(lines, layout, 13),
        cis: given_field(lines, layout, 14),
        i0: given_field(lines, layout, 15),
        crc: given_field(lines, layout, 16),
        omega: given_field(lines, layout, 17),
        omega_dot: given_field(lines, layout, 18),
        idot: given_field(lines, layout, 19),
    };
    let clock = ClockPolynomial {
        af0: given_field(lines, layout, 0),
        af1: given_field(lines, layout, 1),
        af2: given_field(lines, layout, 2),
        toc_sow,
    };
    let (week, toe, toc): (u32, GnssWeekTow, GnssWeekTow) = match times_of(
        lines,
        layout,
        time_scale,
        toc_week,
        toc_sow,
        sat,
    ) {
        Ok(times) => times,
        Err(e) => {
            return Err(e);
        },
    };
    let mut stated = StatedNavFields::default();
    stated.orbit5_field2 =
    stated_field(
        raw_record_field(lines, layout, 20),
        "orbit-5 field 2",
        sat,
        &mut departures,
    );
    stated.orbit5_field4 =
    stated_field(
        raw_record_field(lines, layout, 22),
        "orbit-5 field 4",
        sat,
        &mut departures,
    );
    stated.transmission_time_sow =
    stated_field(
        raw_record_field(lines, layout, 27),
        "transmission time",
        sat,
        &mut departures,
    );
    stated.orbit7_field3 =
    stated_field(
        raw_record_field(lines, layout, 29),
        "orbit-7 field 3",
        sat,
        &mut departures,
    );
    stated.orbit7_field4 =
    stated_field(
        raw_record_field(lines, layout, 30),
        "orbit-7 field 4",
        sat,
        &mut departures,
    );
    let (message, forbidden): (NavMessage, bool) = match message_of(
        satellite_id,
        message_override,
        stated.orbit5_field2,
    ) {
        Some(message) => message,
        None => {
            return Err(NavParseError::bad(sat, "data sources"));
        },
    };
    push_if(forbidden, sat, "data sources", &mut departures);
    let issue: u32 = match issue_of(record_field(lines, layout, 3)) {
        Some(issue) => issue,
        None => {
            return Err(NavParseError::bad(sat, "issue of data"));
        },
    };
    // A blank or unreadable accuracy is not known: the record keeps its orbit and clock, and the
    // departure is reported.
    let sv_accuracy_m = record_field(lines, layout, 23);
    push_if(sv_accuracy_m.is_none(), sat, "accuracy", &mut departures);
    let sv_health: Decimal = match record_field(lines, layout, 24) {
        Some(health) => health,
        None => {
            return Err(NavParseError::bad(sat, "health"));
        },
    };
    let group_delays = match delays_of(
        system,
        raw_record_field(lines, layout, 25),
        raw_record_field(lines, layout, 26),
    ) {
        Ok(delays) => delays,
        Err(field) => {
            return Err(NavParseError::bad(sat, field));
        },
    };
    if matches!(system, GnssSystem::Gps | GnssSystem::Qzss | GnssSystem::Navic) {
        stated.orbit6_field4 =
        stated_field(raw_record_field(lines, layout, 26), "iodc", sat, &mut departures);
    }
    // ORBIT-7 field 2: the GPS fit interval, the QZSS fit flag, the BeiDou AODC.
    let raw = raw_record_field(lines, layout, 28);
    let fit_interval_h = match system {
        GnssSystem::Gps => {
            stated.orbit7_field2 = record_field(lines, layout, 28);
            // An unreadable or negative fit field states no fit interval; the record keeps its
            // orbit and clock, and the departure is reported.
            let fit = gps_fit_interval_h(raw, version);
            push_if(fit.is_err(), sat, "fit interval", &mut departures);
            match fit {
                Ok(hours) => hours,
                Err(()) => None,
            }
        },
        GnssSystem::Qzss => {
            stated.orbit7_field2 = stated_field(raw, "fit interval", sat, &mut departures);
            match stated.orbit7_field2 {
                Some(flag) => Some(qzss_fit_interval_h(flag)),
                None => None,
            }
        },
        _ => {
            stated.orbit7_field2 = stated_field(raw, "orbit-7 field 2", sat, &mut departures);
            None
        },
    };
    proof {
        assert(faults(departures@) =~= keplerian_departures(
            all,
            layout,
            system,
            version,
            utf8(sat@),
            forbidden,
        ));
    }
    Ok(
        Decoded {
            value: BroadcastRecord {
                satellite_id,
                message,
                issue_of_data: Some(BroadcastIssue { issue, message }),
                week,
                toe,
                toc,
                elements,
                clock,
                group_delays,
                cnav: None,
                sv_health,
                sv_accuracy_m,
                fit_interval_h,
                stated,
            },
            departures,
        },
    )
}

/// The required fields by index.
proof fn lemma_required_given(lines: Seq<Seq<u8>>, layout: Layout)
    requires
        forall|k: int|
            0 <= k < 20 ==> value_at(
                lines,
                layout,
                (#[trigger] keplerian_required()[k]).0 as int,
            ) is Some,
    ensures
        forall|i: int|
            0 <= i <= 2 || 4 <= i <= 19 || i == 21 ==> (#[trigger] value_at(
                lines,
                layout,
                i,
            )) is Some,
{
    let r = keplerian_required();
    assert forall|i: int| 0 <= i <= 2 || 4 <= i <= 19 || i == 21 implies (#[trigger] value_at(
        lines,
        layout,
        i,
    )) is Some by {
        let k = if i <= 2 {
            16 + i
        } else if i == 21 {
            19
        } else {
            i - 4
        };
        assert(r[k].0 == i);
    }
}

/// Report a bad field where `bad`.
fn push_if(bad: bool, sat: &str, field: &'static str, departures: &mut Vec<NavParseError>)
    ensures
        faults(final(departures)@) == faults(old(departures)@) + (if bad {
            seq![bad_field(utf8(sat@), field)]
        } else {
            Seq::empty()
        }),
{
    if bad {
        departures.push(NavParseError::bad(sat, field));
    }
    assert(faults(departures@) =~= faults(old(departures)@) + (if bad {
        seq![bad_field(utf8(sat@), field)]
    } else {
        Seq::empty()
    }));
}

/// The issue of data a field states (see [`issue_value`]).
fn issue_of(value: Option<Decimal>) -> (r: Option<u32>)
    ensures
        r == issue_value(value),
{
    match value {
        None => None,
        Some(d) => match d.to_integer(0, 4294967295) {
            None => None,
            Some(n) => Some(n as u32),
        },
    }
}

} // verus!

//! GPS/QZSS CNAV and CNAV-2 records.

use vstd::prelude::*;

use crate::decimal::{decimal_of, field_number, formatted, read_field, round_formatted, Decimal};
use crate::error::{bad_field, faults, Fault, NavParseError};
use crate::fields::{
    check_extra_lines, epoch_week_tow, extra_departures, given, given_field, optional_delay,
    optional_value, parse_record_epoch, raw_at, raw_record_field, record_field, value_at,
    CivilSecondPolicy, Layout,
};
use crate::id::GnssSatelliteId;
use crate::keplerian::{clock_time, outcome, Decoded};
use crate::record::{
    cnav_ura_nominal_m, no_delays, nothing_stated, ura_nominal, BroadcastGroupDelays,
    BroadcastRecord, ClockPolynomial, CnavParameters, KeplerianElements, NavMessage,
    StatedNavFields,
};
use crate::text::{blank, is_blank, texts, utf8};
use crate::time::{seconds_of, GnssWeekTow, Seconds, TimeScale};

verus! {

/// The number of lines of a CNAV record: nine, ten for CNAV-2.
pub open spec fn cnav_lines(cnav2: bool) -> int {
    if cnav2 {
        10
    } else {
        9
    }
}

/// The index of the first field of the last line of a CNAV record.
pub open spec fn cnav_tail(cnav2: bool) -> int {
    if cnav2 {
        35
    } else {
        31
    }
}

/// Whether a delay is written as the value CNAV broadcasts for one that is not available,
/// -4096 times 2^-35.
pub open spec fn unavailable(d: Decimal) -> bool {
    d.below_zero() && formatted(d.digits as nat, d.exponent as int, 13, false) == (
        1192092895508nat,
        -19int,
    )
}

/// An optional CNAV delay field: blank, or the value for a delay that is not available, is no
/// delay; `Err` for a value that does not read or cannot be written back.
pub open spec fn cnav_delay(raw: Seq<u8>) -> Result<Option<Decimal>, ()> {
    match optional_value(raw) {
        Ok(Some(d)) => if unavailable(d) {
            Ok(None)
        } else {
            Ok(Some(d))
        },
        other => other,
    }
}

/// The delay of a field that reads as one.
pub open spec fn cnav_delay_at(lines: Seq<Seq<u8>>, index: int) -> Option<Decimal> {
    match cnav_delay(raw_at(lines, Layout::V3, index)) {
        Ok(d) => d,
        Err(()) => None,
    }
}

/// An optional integer field: blank is none; `Err` for a value that is no 32-bit integer.
pub open spec fn optional_word(raw: Seq<u8>) -> Result<Option<u32>, ()> {
    if blank(raw) {
        Ok(None)
    } else {
        match field_number(raw) {
            None => Err(()),
            Some(d) => match d.integer_within(0, u32::MAX as int) {
                None => Err(()),
                Some(n) => Ok(Some(n as u32)),
            },
        }
    }
}

/// The integer from `min` to `max` a field states.
pub open spec fn int_at(lines: Seq<Seq<u8>>, index: int, min: int, max: int) -> Option<int> {
    match value_at(lines, Layout::V3, index) {
        None => None,
        Some(d) => d.integer_within(min, max),
    }
}

/// The propagation epoch of a CNAV record: its WNop week and top seconds of week.
pub open spec fn cnav_top(lines: Seq<Seq<u8>>, cnav2: bool) -> Option<GnssWeekTow> {
    match (int_at(lines, cnav_tail(cnav2) + 1, 0, u32::MAX as int), value_at(
        lines,
        Layout::V3,
        11,
    )) {
        (Some(week), Some(top)) => (GnssWeekTow {
            system: TimeScale::Gpst,
            week: week as u32,
            tow_s: seconds_of(top),
        }).carried(),
        _ => None,
    }
}

/// The first field of a CNAV record, in the order they are asked for, that keeps its lines from
/// being one.
pub open spec fn cnav_bad_field(lines: Seq<Seq<u8>>, cnav2: bool) -> Option<&'static str> {
    let v = |index: int| value_at(lines, Layout::V3, index) is Some;
    let tail = cnav_tail(cnav2);
    if !v(0) {
        Some("af0")
    } else if !v(1) {
        Some("af1")
    } else if !v(2) {
        Some("af2")
    } else if !v(4) {
        Some("crs")
    } else if !v(5) {
        Some("deltaN0")
    } else if !v(6) {
        Some("m0")
    } else if !v(7) {
        Some("cuc")
    } else if !v(8) {
        Some("e")
    } else if !v(9) {
        Some("cus")
    } else if !v(10) {
        Some("sqrtA0")
    } else if !v(12) {
        Some("cic")
    } else if !v(13) {
        Some("omega0")
    } else if !v(14) {
        Some("cis")
    } else if !v(15) {
        Some("i0")
    } else if !v(16) {
        Some("crc")
    } else if !v(17) {
        Some("omega")
    } else if !v(18) {
        Some("omegaDot")
    } else if !v(19) {
        Some("idot")
    } else if int_at(lines, tail + 1, 0, u32::MAX as int) is None {
        Some("wn_op")
    } else if cnav_top(lines, cnav2) is None {
        Some("top")
    } else {
        cnav_bad_status_field(lines, cnav2)
    }
}

/// The first of the later fields of a CNAV record that keeps its lines from being one.
pub open spec fn cnav_bad_status_field(lines: Seq<Seq<u8>>, cnav2: bool) -> Option<&'static str> {
    let tail = cnav_tail(cnav2);
    if int_at(lines, 23, -16, 15) is None {
        Some("ura_ed")
    } else if int_at(lines, 21, -16, 15) is None {
        Some("ura_ned0")
    } else if int_at(lines, 22, 0, 7) is None {
        Some("ura_ned1")
    } else if int_at(lines, 26, 0, 7) is None {
        Some("ura_ned2")
    } else if int_at(lines, 24, 0, if cnav2 { 1 } else { 7 }) is None {
        Some("health")
    } else if value_at(lines, Layout::V3, tail) is None {
        Some("t_tm")
    } else if optional_word(raw_at(lines, Layout::V3, tail + 2)) is Err {
        Some("flags")
    } else if cnav_delay(raw_at(lines, Layout::V3, 25)) is Err {
        Some("tgd")
    } else if cnav_delay(raw_at(lines, Layout::V3, 27)) is Err {
        Some("isc_l1ca")
    } else if cnav_delay(raw_at(lines, Layout::V3, 28)) is Err {
        Some("isc_l2c")
    } else if cnav_delay(raw_at(lines, Layout::V3, 29)) is Err {
        Some("isc_l5i5")
    } else if cnav_delay(raw_at(lines, Layout::V3, 30)) is Err {
        Some("isc_l5q5")
    } else if cnav2 && cnav_delay(raw_at(lines, Layout::V3, 31)) is Err {
        Some("isc_l1cd")
    } else if cnav2 && cnav_delay(raw_at(lines, Layout::V3, 32)) is Err {
        Some("isc_l1cp")
    } else if value_at(lines, Layout::V3, 3) is None {
        Some("adot")
    } else if value_at(lines, Layout::V3, 20) is None {
        Some("deltaN0Dot")
    } else {
        None
    }
}

/// The number a time of week of whole seconds is.
pub open spec fn whole_decimal(tow: Seconds) -> Decimal {
    decimal_of(tow.whole as int)
}

/// The orbital elements a CNAV record states; its ephemeris reference time is that of its clock.
pub open spec fn cnav_elements(lines: Seq<Seq<u8>>, toc_sow: Seconds) -> KeplerianElements {
    let v = |index: int| given(lines, Layout::V3, index);
    KeplerianElements {
        crs: v(4),
        delta_n: v(5),
        m0: v(6),
        cuc: v(7),
        e: v(8),
        cus: v(9),
        sqrt_a: v(10),
        toe_sow: whole_decimal(toc_sow),
        cic: v(12),
        omega0: v(13),
        cis: v(14),
        i0: v(15),
        crc: v(16),
        omega: v(17),
        omega_dot: v(18),
        idot: v(19),
    }
}

/// The CNAV parameters a record without a bad field states.
pub open spec fn cnav_parameters(lines: Seq<Seq<u8>>, cnav2: bool) -> CnavParameters {
    let tail = cnav_tail(cnav2);
    CnavParameters {
        adot_m_s: given(lines, Layout::V3, 3),
        delta_n0_dot_rad_s2: given(lines, Layout::V3, 20),
        top: cnav_top(lines, cnav2)->0,
        ura_ed_index: int_at(lines, 23, -16, 15)->0 as i8,
        ura_ned0_index: int_at(lines, 21, -16, 15)->0 as i8,
        ura_ned1_index: int_at(lines, 22, 0, 7)->0 as u8,
        ura_ned2_index: int_at(lines, 26, 0, 7)->0 as u8,
        transmission_time_sow: given(lines, Layout::V3, tail),
        flags: match optional_word(raw_at(lines, Layout::V3, tail + 2)) {
            Ok(word) => word,
            Err(()) => None,
        },
    }
}

/// The group delays a CNAV record states.
pub open spec fn cnav_delays(lines: Seq<Seq<u8>>, cnav2: bool) -> BroadcastGroupDelays {
    BroadcastGroupDelays {
        gps_tgd_s: cnav_delay_at(lines, 25),
        cnav_isc_l1ca_s: cnav_delay_at(lines, 27),
        cnav_isc_l2c_s: cnav_delay_at(lines, 28),
        cnav_isc_l5i5_s: cnav_delay_at(lines, 29),
        cnav_isc_l5q5_s: cnav_delay_at(lines, 30),
        cnav_isc_l1cd_s: if cnav2 {
            cnav_delay_at(lines, 31)
        } else {
            None
        },
        cnav_isc_l1cp_s: if cnav2 {
            cnav_delay_at(lines, 32)
        } else {
            None
        },
        ..no_delays()
    }
}

/// The CNAV or CNAV-2 record that lines state for a satellite, with the departures read through;
/// the first problem that keeps them from being one.
#[verifier::opaque]
pub open spec fn cnav_record(
    lines: Seq<Seq<u8>>,
    satellite_id: GnssSatelliteId,
    sat: Seq<u8>,
    message: NavMessage,
) -> Result<(BroadcastRecord, Seq<Fault>), Fault> {
    let cnav2 = message.cnav2();
    if lines.len() < cnav_lines(cnav2) {
        Err(Fault::TruncatedRecord(sat))
    } else {
        match clock_time(lines[0], Layout::V3, TimeScale::Gpst) {
            None => Err(bad_field(sat, "toc epoch")),
            Some((week, toc_sow)) => match cnav_bad_field(lines, cnav2) {
                Some(field) => Err(bad_field(sat, field)),
                None => {
                    let toc = GnssWeekTow { system: TimeScale::Gpst, week, tow_s: toc_sow };
                    let parameters = cnav_parameters(lines, cnav2);
                    Ok(
                        (
                            BroadcastRecord {
                                satellite_id,
                                message,
                                issue_of_data: None,
                                week,
                                toe: toc,
                                toc,
                                elements: cnav_elements(lines, toc_sow),
                                clock: ClockPolynomial {
                                    af0: given(lines, Layout::V3, 0),
                                    af1: given(lines, Layout::V3, 1),
                                    af2: given(lines, Layout::V3, 2),
                                    toc_sow,
                                },
                                group_delays: cnav_delays(lines, cnav2),
                                cnav: Some(parameters),
                                sv_health: decimal_of(
                                    int_at(
                                        lines,
                                        24,
                                        0,
                                        if cnav2 {
                                            1
                                        } else {
                                            7
                                        },
                                    )->0,
                                ),
                                sv_accuracy_m: ura_nominal(parameters.ura_ed_index as int),
                                fit_interval_h: None,
                                stated: nothing_stated(),
                            },
                            extra_departures(lines, cnav_lines(cnav2), sat),
                        ),
                    )
                },
            },
        }
    }
}

/// An optional CNAV delay field (see [`cnav_delay`]).
pub fn optional_cnav_delay(raw: &str) -> (r: Result<Option<Decimal>, ()>)
    requires
        utf8(raw@).len() <= 19,
    ensures
        r == cnav_delay(utf8(raw@)),
        r matches Ok(Some(d)) ==> d.wf(),
{
    match optional_delay(raw) {
        Ok(Some(d)) => {
            if d.negative && d.digits > 0 {
                let (m, e): (u128, i64) = round_formatted(d.digits, d.exponent as i64, 13, false);
                if m == 1192092895508 && e == -19 {
                    return Ok(None);
                }
            }
            Ok(Some(d))
        },
        other => other,
    }
}

/// An optional integer field (see [`optional_word`]).
pub fn optional_integral_u32(raw: &str) -> (r: Result<Option<u32>, ()>)
    requires
        utf8(raw@).len() <= 19,
    ensures
        r == optional_word(utf8(raw@)),
{
    if is_blank(raw) {
        return Ok(None);
    }
    match read_field(raw) {
        None => Err(()),
        Some(d) => match d.to_integer(0, 4294967295) {
            None => Err(()),
            Some(n) => Ok(Some(n as u32)),
        },
    }
}

/// The integer from `min` to `max` a field states (see [`int_at`]).
fn integral_field(lines: &[&str], index: usize, min: i64, max: i64) -> (r: Option<i64>)
    requires
        min > i64::MIN,
    ensures
        r is Some == int_at(texts(lines@), index as int, min as int, max as int) is Some,
        r matches Some(n) ==> int_at(texts(lines@), index as int, min as int, max as int) == Some(
            n as int,
        ),
        r matches Some(n) ==> min <= n <= max,
{
    match record_field(lines, Layout::V3, index) {
        None => None,
        Some(d) => d.to_integer(min, max),
    }
}

/// The propagation epoch of a CNAV record (see [`cnav_top`]).
fn top_of(lines: &[&str], cnav2: bool) -> (r: Option<GnssWeekTow>)
    ensures
        r == cnav_top(texts(lines@), cnav2),
{
    let tail: usize = if cnav2 {
        35
    } else {
        31
    };
    match (integral_field(lines, tail + 1, 0, 4294967295), record_field(lines, Layout::V3, 11)) {
        (Some(week), Some(top)) => GnssWeekTow::new(
            TimeScale::Gpst,
            week as u32,
            Seconds::from_decimal(top),
        ).normalized(),
        _ => None,
    }
}

/// Whether a field of a record states no value.
fn absent(lines: &[&str], index: usize) -> (r: bool)
    ensures
        r == (value_at(texts(lines@), Layout::V3, index as int) is None),
{
    record_field(lines, Layout::V3, index).is_none()
}

/// Whether a field of a record is no CNAV delay.
fn bad_delay(lines: &[&str], index: usize) -> (r: bool)
    ensures
        r == (cnav_delay(raw_at(texts(lines@), Layout::V3, index as int)) is Err),
{
    optional_cnav_delay(raw_record_field(lines, Layout::V3, index)).is_err()
}

/// The first of the later fields of a CNAV record that keeps its lines from being one.
fn find_bad_status_field(lines: &[&str], cnav2: bool) -> (r: Option<&'static str>)
    ensures
        r == cnav_bad_status_field(texts(lines@), cnav2),
{
    let tail: usize = if cnav2 {
        35
    } else {
        31
    };
    let health_max: i64 = if cnav2 {
        1
    } else {
        7
    };
    if integral_field(lines, 23, -16, 15).is_none() {
        Some("ura_ed")
    } else if integral_field(lines, 21, -16, 15).is_none() {
        Some("ura_ned0")
    } else if integral_field(lines, 22, 0, 7).is_none() {
        Some("ura_ned1")
    } else if integral_field(lines, 26, 0, 7).is_none() {
        Some("ura_ned2")
    } else if integral_field(lines, 24, 0, health_max).is_none() {
        Some("health")
    } else if absent(lines, tail) {
        Some("t_tm")
    } else if optional_integral_u32(raw_record_field(lines, Layout::V3, tail + 2)).is_err() {
        Some("flags")
    } else if bad_delay(lines, 25) {
        Some("tgd")
    } else if bad_delay(lines, 27) {
        Some("isc_l1ca")
    } else if bad_delay(lines, 28) {
        Some("isc_l2c")
    } else if bad_delay(lines, 29) {
        Some("isc_l5i5")
    } else if bad_delay(lines, 30) {
        Some("isc_l5q5")
    } else if cnav2 && bad_delay(lines, 31) {
        Some("isc_l1cd")
    } else if cnav2 && bad_delay(lines, 32) {
        Some("isc_l1cp")
    } else if absent(lines, 3) {
        Some("adot")
    } else if absent(lines, 20) {
        Some("deltaN0Dot")
    } else {
        None
    }
}

/// The first field that keeps lines from being a CNAV record (see [`cnav_bad_field`]).
fn find_bad_field(lines: &[&str], cnav2: bool) -> (r: Option<&'static str>)
    ensures
        r == cnav_bad_field(texts(lines@), cnav2),
{
    let tail: usize = if cnav2 {
        35
    } else {
        31
    };
    if absent(lines, 0) {
        Some("af0")
    } else if absent(lines, 1) {
        Some("af1")
    } else if absent(lines, 2) {
        Some("af2")
    } else if absent(lines, 4) {
        Some("crs")
    } else if absent(lines, 5) {
        Some("deltaN0")
    } else if absent(lines, 6) {
        Some("m0")
    } else if absent(lines, 7) {
        Some("cuc")
    } else if absent(lines, 8) {
        Some("e")
    } else if absent(lines, 9) {
        Some("cus")
    } else if absent(lines, 10) {
        Some("sqrtA0")
    } else if absent(lines, 12) {
        Some("cic")
    } else if absent(lines, 13) {
        Some("omega0")
    } else if absent(lines, 14) {
        Some("cis")
    } else if absent(lines, 15) {
        Some("i0")
    } else if absent(lines, 16) {
        Some("crc")
    } else if absent(lines, 17) {
        Some("omega")
    } else if absent(lines, 18) {
        Some("omegaDot")
    } else if absent(lines, 19) {
        Some("idot")
    } else if integral_field(lines, tail + 1, 0, 4294967295).is_none() {
        Some("wn_op")
    } else if top_of(lines, cnav2).is_none() {
        Some("top")
    } else {
        find_bad_status_field(lines, cnav2)
    }
}

/// The CNAV delay of a field that is one.
fn delay_of(lines: &[&str], index: usize) -> (r: Option<Decimal>)
    ensures
        r == cnav_delay_at(texts(lines@), index as int),
{
    match optional_cnav_delay(raw_record_field(lines, Layout::V3, index)) {
        Ok(d) => d,
        Err(()) => None,
    }
}

/// The CNAV parameters of a record without a bad field (see [`cnav_parameters`]).
fn parameters_of(lines: &[&str], cnav2: bool) -> (r: CnavParameters)
    requires
        cnav_bad_field(texts(lines@), cnav2) is None,
    ensures
        r == cnav_parameters(texts(lines@), cnav2),
{
    let tail: usize = if cnav2 {
        35
    } else {
        31
    };
    let top = match top_of(lines, cnav2) {
        Some(top) => top,
        None => GnssWeekTow::new(TimeScale::Gpst, 0, Seconds { whole: 0, quectos: 0 }),
    };
    let flags = match optional_integral_u32(raw_record_field(lines, Layout::V3, tail + 2)) {
        Ok(flags) => flags,
        Err(()) => None,
    };
    CnavParameters {
        adot_m_s: given_field(lines, Layout::V3, 3),
        delta_n0_dot_rad_s2: given_field(lines, Layout::V3, 20),
        top,
        ura_ed_index: index_of(integral_field(lines, 23, -16, 15)) as i8,
        ura_ned0_index: index_of(integral_field(lines, 21, -16, 15)) as i8,
        ura_ned1_index: index_of(integral_field(lines, 22, 0, 7)) as u8,
        ura_ned2_index: index_of(integral_field(lines, 26, 0, 7)) as u8,
        transmission_time_sow: given_field(lines, Layout::V3, tail),
        flags,
    }
}

/// The value of a field known to state one.
fn index_of(n: Option<i64>) -> (r: i64)
    requires
        n is Some,
    ensures
        Some(r) == n,
{
    match n {
        Some(n) => n,
        None => 0,
    }
}

/// Decode a GPS/QZSS CNAV (9 lines) or CNAV-2 (10 lines) RINEX 4 record (see [`cnav_record`]).
pub fn parse_cnav_block(
    block: &[&str],
    satellite_id: GnssSatelliteId,
    sat: &str,
    message: NavMessage,
) -> (r: Result<Decoded<BroadcastRecord>, NavParseError>)
    ensures
        outcome(r, cnav_record(texts(block@), satellite_id, utf8(sat@), message)),
{
    reveal(cnav_record);
    let ghost all = texts(block@);
    let is_cnav2: bool = message.is_cnav2();
    let required_lines: usize = if is_cnav2 {
        10
    } else {
        9
    };
    if block.len() < required_lines {
        return Err(NavParseError::truncated(sat));
    }
    let mut departures: Vec<NavParseError> = Vec::new();
    check_extra_lines(block, required_lines, sat, &mut departures);
    assert(faults(departures@) =~= extra_departures(all, cnav_lines(is_cnav2), utf8(sat@)));
    let epoch = match parse_record_epoch(
        block[0],
        Layout::V3,
        sat,
        "toc epoch",
        CivilSecondPolicy::Continuous,
    ) {
        Ok(epoch) => epoch,
        Err(e) => {
            return Err(e);
        },
    };
    let (week, toc_sow): (u32, Seconds) = match epoch_week_tow(&epoch, TimeScale::Gpst) {
        Some(time) => time,
        None => {
            return Err(NavParseError::bad(sat, "toc epoch"));
        },
    };
    if let Some(field) = find_bad_field(block, is_cnav2) {
        return Err(NavParseError::bad(sat, field));
    }
    let elements = KeplerianElements {
        crs: given_field(block, Layout::V3, 4),
        delta_n: given_field(block, Layout::V3, 5),
        m0: given_field(block, Layout::V3, 6),
        cuc: given_field(block, Layout::V3, 7),
        e: given_field(block, Layout::V3, 8),
        cus: given_field(block, Layout::V3, 9),
        sqrt_a: given_field(block, Layout::V3, 10),
        toe_sow: Decimal::from_integer(toc_sow.whole),
        cic: given_field(block, Layout::V3, 12),
        omega0: given_field(block, Layout::V3, 13),
        cis: given_field(block, Layout::V3, 14),
        i0: given_field(block, Layout::V3, 15),
        crc: given_field(block, Layout::V3, 16),
        omega: given_field(block, Layout::V3, 17),
        omega_dot: given_field(block, Layout::V3, 18),
        idot: given_field(block, Layout::V3, 19),
    };
    let clock = ClockPolynomial {
        af0: given_field(block, Layout::V3, 0),
        af1: given_field(block, Layout::V3, 1),
        af2: given_field(block, Layout::V3, 2),
        toc_sow,
    };
    let toc = GnssWeekTow::new(TimeScale::Gpst, week, toc_sow);
    let cnav = parameters_of(block, is_cnav2);
    let health_max: i64 = if is_cnav2 {
        1
    } else {
        7
    };
    let sv_health: Decimal = Decimal::from_integer(
        index_of(integral_field(block, 24, 0, health_max)),
    );
    let (isc_l1cd, isc_l1cp): (Option<Decimal>, Option<Decimal>) = if is_cnav2 {
        (delay_of(block, 31), delay_of(block, 32))
    } else {
        (None, None)
    };
    let group_delays = BroadcastGroupDelays::cnav(
        delay_of(block, 25),
        delay_of(block, 27),
        delay_of(block, 28),
        delay_of(block, 29),
        delay_of(block, 30),
        isc_l1cd,
        isc_l1cp,
    );
    Ok(
        Decoded {
            value: BroadcastRecord {
                satellite_id,
                message,
                // The RINEX 4 CNAV and CNAV-2 records carry no issue of data.
                issue_of_data: None,
                week,
                toe: toc,
                toc,
                elements,
                clock,
                group_delays,
                cnav: Some(cnav),
                sv_health,
                sv_accuracy_m: cnav_ura_nominal_m(cnav.ura_ed_index),
                // The RINEX 4 CNAV and CNAV-2 records state no fit interval.
                fit_interval_h: None,
                stated: StatedNavFields::default(),
            },
            departures,
        },
    )
}

} // verus!

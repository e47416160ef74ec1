//! The lines records and frames are written in.
//!
//! Numeric fields use the RINEX `D19.12` width, the same thirteen significant figures the files
//! carry, so a value read from a file is written as the same value.

use vstd::prelude::*;

use crate::decimal::{decimal_of, Decimal};
use crate::format::{
    int_text, left, push_int, push_left, push_line, push_right, push_zero_filled, right,
    tenths_string, tenths_text, zero_filled,
};
use crate::frames::{
    EarthOrientation, IonFrame, IonosphereFrame, OffsetFrame, OrientationFrame, SystemTimeOffset,
};
use crate::glonass::{fold_glonass_channel, folded_channel};
use crate::header::same_number;
use crate::id::{token_of_satellite, GnssSatelliteId, GnssSystem};
use crate::instant::{
    civil_from_j2000_s, clock_civil, clock_epoch_civil, j2000_civil, serialized_week_tow, settled,
    written, written_seconds, CivilTime,
};
use crate::keplerian::{
    fit_hours, galileo_message, galileo_word_message, gps_fit_interval_from_value, qzss_fit_hours,
    qzss_fit_interval_h,
};
use crate::record::{
    positive, BroadcastIssue, BroadcastRecord, CnavParameters, GlonassRecord, NavMessage,
    NavVersion, SbasRecord,
};
use crate::text::{no_text, own, push, push_spaces, spaces, strings, trim_end, trim_end_of, utf8};
use crate::time::{floor_div, seconds_of, NavEpoch, Seconds};

verus! {

/// The columns a record is written in.
#[derive(Debug, Clone, Copy, PartialEq, Eq, Structural)]
pub enum RecordColumns {
    /// Version 3/4: the three-character satellite token, a four-digit year.
    V3,
    /// Version 2 with a numeric PRN.
    V2 {
        /// The PRN.
        prn: u8,
    },
}

impl RecordColumns {
    /// The blanks that start an orbit line.
    pub open spec fn indent(self) -> nat {
        match self {
            RecordColumns::V3 => 4,
            RecordColumns::V2 { .. } => 3,
        }
    }

    /// The blanks that start an orbit line.
    fn indent_width(self) -> (r: usize)
        ensures
            r == self.indent(),
    {
        match self {
            RecordColumns::V3 => 4,
            RecordColumns::V2 { .. } => 3,
        }
    }
}

/// The civil time of an epoch.
pub open spec fn civil_of(epoch: NavEpoch) -> CivilTime {
    CivilTime {
        year: epoch.year as i64,
        month: epoch.month,
        day: epoch.day,
        hour: epoch.hour,
        minute: epoch.minute,
        second: epoch.second,
    }
}

/// The civil time of an epoch.
fn civil_epoch_of(epoch: &NavEpoch) -> (r: CivilTime)
    ensures
        r == civil_of(*epoch),
{
    CivilTime {
        year: epoch.year as i64,
        month: epoch.month,
        day: epoch.day,
        hour: epoch.hour,
        minute: epoch.minute,
        second: epoch.second,
    }
}

/// A civil time as `yyyy mm dd hh mm ss`, its second rounded down.
pub open spec fn civil_text(c: CivilTime) -> Seq<u8> {
    zero_filled(c.year as int, 4) + spaces(1) + zero_filled(c.month as int, 2) + spaces(1)
        + zero_filled(c.day as int, 2) + spaces(1) + zero_filled(c.hour as int, 2) + spaces(1)
        + zero_filled(c.minute as int, 2) + spaces(1) + zero_filled(
        seconds_of(c.second).whole as int,
        2,
    )
}

/// A civil time as `yy mm dd hh mm ss.s`.
pub open spec fn short_civil_text(c: CivilTime) -> Seq<u8> {
    zero_filled(c.year as int % 100, 2) + spaces(1) + right(int_text(c.month as int), 2) + spaces(1)
        + right(int_text(c.day as int), 2) + spaces(1) + right(int_text(c.hour as int), 2)
        + spaces(1) + right(int_text(c.minute as int), 2) + right(tenths_text(c.second), 5)
}

/// The first line's satellite and epoch.
pub open spec fn prefix_text(columns: RecordColumns, sat: GnssSatelliteId, c: CivilTime) -> Seq<
    u8,
> {
    match columns {
        RecordColumns::V3 => left(token_of_satellite(sat), 3) + spaces(1) + civil_text(c),
        RecordColumns::V2 { prn } => right(int_text(prn as int), 2) + spaces(1) + short_civil_text(
            c,
        ),
    }
}

/// A value in a nineteen-column field; blanks where there is none.
pub open spec fn field_text(d: Option<Decimal>) -> Seq<u8> {
    match d {
        Some(d) => d.d19_12(),
        None => spaces(19),
    }
}

/// Four values after `indent` blanks.
#[verifier::opaque]
pub open spec fn orbit_text(
    indent: nat,
    a: Option<Decimal>,
    b: Option<Decimal>,
    c: Option<Decimal>,
    d: Option<Decimal>,
) -> Seq<u8> {
    spaces(indent) + field_text(a) + field_text(b) + field_text(c) + field_text(d)
}

/// The first line of a record: satellite, epoch and three values.
#[verifier::opaque]
pub open spec fn first_text(
    columns: RecordColumns,
    sat: GnssSatelliteId,
    c: CivilTime,
    x: Decimal,
    y: Decimal,
    z: Option<Decimal>,
) -> Seq<u8> {
    prefix_text(columns, sat, c) + x.d19_12() + y.d19_12() + field_text(z)
}

/// A coordinate's position, velocity and acceleration in kilometers, and one more value.
#[verifier::opaque]
pub open spec fn axis_text(indent: nat, p: Decimal, v: Decimal, a: Decimal, d: Option<Decimal>) -> Seq<
    u8,
> {
    spaces(indent) + p.kilometers_d19_12() + v.kilometers_d19_12() + a.kilometers_d19_12()
        + field_text(d)
}

/// Append a civil time as `yyyy mm dd hh mm ss` (see [`civil_text`]).
fn push_civil(out: &mut String, c: CivilTime)
    ensures
        utf8(final(out)@) == utf8(old(out)@) + civil_text(c),
{
    let ghost before = utf8(out@);
    push_zero_filled(out, c.year, 4);
    push_spaces(out, 1);
    push_zero_filled(out, c.month as i64, 2);
    push_spaces(out, 1);
    push_zero_filled(out, c.day as i64, 2);
    push_spaces(out, 1);
    push_zero_filled(out, c.hour as i64, 2);
    push_spaces(out, 1);
    push_zero_filled(out, c.minute as i64, 2);
    push_spaces(out, 1);
    push_zero_filled(out, Seconds::from_decimal(c.second).whole, 2);
    assert(utf8(out@) =~= before + civil_text(c));
}

/// Append a civil time as `yy mm dd hh mm ss.s` (see [`short_civil_text`]).
fn push_short_civil(out: &mut String, c: CivilTime)
    ensures
        utf8(final(out)@) == utf8(old(out)@) + short_civil_text(c),
{
    let ghost before = utf8(out@);
    let century: i64 = floor_div(c.year, 100);
    proof {
        vstd::arithmetic::div_mod::lemma_fundamental_div_mod(c.year as int, 100);
    }
    push_zero_filled(out, (c.year as i128 - century as i128 * 100) as i64, 2);
    push_spaces(out, 1);
    push_int(out, c.month as i64, 2);
    push_spaces(out, 1);
    push_int(out, c.day as i64, 2);
    push_spaces(out, 1);
    push_int(out, c.hour as i64, 2);
    push_spaces(out, 1);
    push_int(out, c.minute as i64, 2);
    let second = tenths_string(c.second);
    push_right(out, second.as_str(), 5);
    assert(utf8(out@) =~= before + short_civil_text(c));
}

/// The first line's satellite and epoch (see [`prefix_text`]).
fn epoch_prefix(columns: RecordColumns, sat: GnssSatelliteId, c: CivilTime) -> (r: String)
    ensures
        utf8(r@) == prefix_text(columns, sat, c),
{
    let mut out = own(no_text());
    match columns {
        RecordColumns::V3 => {
            let token = sat.token();
            push_left(&mut out, token.as_str(), 3);
            push_spaces(&mut out, 1);
            push_civil(&mut out, c);
        },
        RecordColumns::V2 { prn } => {
            push_int(&mut out, prn as i64, 2);
            push_spaces(&mut out, 1);
            push_short_civil(&mut out, c);
        },
    }
    assert(utf8(out@) =~= prefix_text(columns, sat, c));
    out
}

/// Append a value in nineteen columns (see [`field_text`]).
fn push_field(out: &mut String, d: Option<Decimal>)
    ensures
        utf8(final(out)@) == utf8(old(out)@) + field_text(d),
{
    match d {
        Some(d) => d.push_d19_12(out),
        None => push_spaces(out, 19),
    }
}

/// Four values after `indent` blanks (see [`orbit_text`]).
fn orbit_line(
    indent: usize,
    a: Option<Decimal>,
    b: Option<Decimal>,
    c: Option<Decimal>,
    d: Option<Decimal>,
) -> (r: String)
    ensures
        utf8(r@) == orbit_text(indent as nat, a, b, c, d),
{
    reveal(orbit_text);
    let mut line = own(no_text());
    push_spaces(&mut line, indent);
    push_field(&mut line, a);
    push_field(&mut line, b);
    push_field(&mut line, c);
    push_field(&mut line, d);
    assert(utf8(line@) =~= orbit_text(indent as nat, a, b, c, d));
    line
}

/// The first line of a record (see [`first_text`]).
fn first_line_of(
    columns: RecordColumns,
    sat: GnssSatelliteId,
    c: CivilTime,
    x: Decimal,
    y: Decimal,
    z: Option<Decimal>,
) -> (r: String)
    ensures
        utf8(r@) == first_text(columns, sat, c, x, y, z),
{
    reveal(first_text);
    let mut line = epoch_prefix(columns, sat, c);
    x.push_d19_12(&mut line);
    y.push_d19_12(&mut line);
    push_field(&mut line, z);
    assert(utf8(line@) =~= first_text(columns, sat, c, x, y, z));
    line
}

/// A coordinate in kilometers and one more value (see [`axis_text`]).
fn axis_line(indent: usize, p: Decimal, v: Decimal, a: Decimal, d: Option<Decimal>) -> (r: String)
    ensures
        utf8(r@) == axis_text(indent as nat, p, v, a, d),
{
    reveal(axis_text);
    let mut line = own(no_text());
    push_spaces(&mut line, indent);
    p.push_kilometers(&mut line);
    v.push_kilometers(&mut line);
    a.push_kilometers(&mut line);
    push_field(&mut line, d);
    assert(utf8(line@) =~= axis_text(indent as nat, p, v, a, d));
    line
}

/// The Galileo data-source word to write: the stated word when it reads, in `version`, as the
/// record's message, else the source bit naming that message with the clock bit it implies: 517
/// (bits 0, 2 and 9) for I/NAV and 258 (bits 1 and 8) for F/NAV. A RINEX 4 frame names the message
/// itself, so there the stated word is written as it is.
pub open spec fn galileo_word(record: BroadcastRecord, version: NavVersion) -> Decimal {
    let named = match record.message {
        NavMessage::GalileoFnav => positive(258, 0),
        NavMessage::GalileoInav => positive(517, 0),
        _ => positive(0, 0),
    };
    match record.stated.orbit5_field2 {
        Some(word) => if version.major >= 4 || (word.nearest_word() matches Some(w)
            && galileo_word_message(w) == record.message) {
            word
        } else {
            named
        },
        None => named,
    }
}

/// The Galileo data-source word to write (see [`galileo_word`]).
fn galileo_data_sources(record: &BroadcastRecord, version: NavVersion) -> (r: Decimal)
    ensures
        r == galileo_word(*record, version),
{
    if let Some(word) = record.stated.orbit5_field2 {
        let reads: bool = match galileo_message(word) {
            Some((message, _)) => message == record.message,
            None => false,
        };
        if version.major >= 4 || reads {
            return word;
        }
    }
    let digits: u128 = match record.message {
        NavMessage::GalileoFnav => 258,
        NavMessage::GalileoInav => 517,
        _ => 0,
    };
    Decimal { negative: false, digits, exponent: 0 }
}

/// The GPS ORBIT-7 field 2 to write: the stated value when it reads, in `version`, as the record's
/// fit interval (a negative value states none), else the fit interval in hours.
pub open spec fn gps_fit_value(record: BroadcastRecord, version: NavVersion) -> Option<Decimal> {
    match record.stated.orbit7_field2 {
        Some(value) => if record.fit_interval_h == (if value.below_zero() {
            None
        } else {
            fit_hours(value, version)
        }) {
            Some(value)
        } else {
            record.fit_interval_h
        },
        None => record.fit_interval_h,
    }
}

/// The GPS ORBIT-7 field 2 to write (see [`gps_fit_value`]).
fn gps_fit_field(record: &BroadcastRecord, version: NavVersion) -> (r: Option<Decimal>)
    ensures
        r == gps_fit_value(*record, version),
{
    if let Some(value) = record.stated.orbit7_field2 {
        let reads_as: Option<Decimal> = if value.negative && value.digits > 0 {
            None
        } else {
            gps_fit_interval_from_value(value, version)
        };
        if same_number(reads_as, record.fit_interval_h) {
            return Some(value);
        }
    }
    record.fit_interval_h
}

/// The QZSS fit flag to write: the stated flag when it reads as the record's fit interval, else 0
/// for two hours and 1 for anything longer.
pub open spec fn qzss_fit_value(record: BroadcastRecord) -> Option<Decimal> {
    let flag = match record.fit_interval_h {
        Some(hours) => Some(if hours == positive(2, 0) { positive(0, 0) } else { positive(1, 0) }),
        None => None,
    };
    match record.stated.orbit7_field2 {
        Some(value) => if record.fit_interval_h == Some(qzss_fit_hours(value)) {
            Some(value)
        } else {
            flag
        },
        None => flag,
    }
}

/// The QZSS fit flag to write (see [`qzss_fit_value`]).
fn qzss_fit_field(record: &BroadcastRecord) -> (r: Option<Decimal>)
    ensures
        r == qzss_fit_value(*record),
{
    if let Some(value) = record.stated.orbit7_field2 {
        if same_number(record.fit_interval_h, Some(qzss_fit_interval_h(value))) {
            return Some(value);
        }
    }
    match record.fit_interval_h {
        Some(hours) => {
            let short: bool = hours == (Decimal { negative: false, digits: 2, exponent: 0 });
            Some(
                Decimal {
                    negative: false,
                    digits: if short {
                        0
                    } else {
                        1
                    },
                    exponent: 0,
                },
            )
        },
        None => None,
    }
}

/// The issue of data to write.
pub open spec fn issue_field(issue: Option<BroadcastIssue>) -> Option<Decimal> {
    match issue {
        Some(issue) => Some(decimal_of(issue.issue as int)),
        None => None,
    }
}

/// ORBIT-5 field 2 as written.
pub open spec fn orbit5_field2(record: BroadcastRecord, version: NavVersion) -> Option<Decimal> {
    if record.satellite_id.system == GnssSystem::Galileo {
        Some(galileo_word(record, version))
    } else {
        record.stated.orbit5_field2
    }
}

/// ORBIT-6 fields 3 and 4 as written.
pub open spec fn orbit6_tail(record: BroadcastRecord) -> (Option<Decimal>, Option<Decimal>) {
    let gd = record.group_delays;
    match record.satellite_id.system {
        GnssSystem::Galileo => (gd.galileo_bgd_e5a_e1_s, gd.galileo_bgd_e5b_e1_s),
        GnssSystem::BeiDou => (gd.beidou_tgd1_s, gd.beidou_tgd2_s),
        _ => (gd.gps_tgd_s, record.stated.orbit6_field4),
    }
}

/// ORBIT-7 field 2 as written.
pub open spec fn orbit7_field2(record: BroadcastRecord, version: NavVersion) -> Option<Decimal> {
    match record.satellite_id.system {
        GnssSystem::Gps => gps_fit_value(record, version),
        GnssSystem::Qzss => qzss_fit_value(record),
        _ => record.stated.orbit7_field2,
    }
}

/// The eight lines of a legacy Keplerian record.
pub open spec fn keplerian_lines(
    record: BroadcastRecord,
    version: NavVersion,
    columns: RecordColumns,
) -> Seq<Seq<u8>> {
    let e = record.elements;
    let stated = record.stated;
    let n = columns.indent();
    seq![
        first_text(
            columns,
            record.satellite_id,
            clock_civil(record.toc),
            record.clock.af0,
            record.clock.af1,
            Some(record.clock.af2),
        ),
        orbit_text(n, issue_field(record.issue_of_data), Some(e.crs), Some(e.delta_n), Some(e.m0)),
        orbit_text(n, Some(e.cuc), Some(e.e), Some(e.cus), Some(e.sqrt_a)),
        orbit_text(n, Some(e.toe_sow), Some(e.cic), Some(e.omega0), Some(e.cis)),
        orbit_text(n, Some(e.i0), Some(e.crc), Some(e.omega), Some(e.omega_dot)),
        orbit_text(
            n,
            Some(e.idot),
            orbit5_field2(record, version),
            Some(decimal_of(record.week as int)),
            stated.orbit5_field4,
        ),
        orbit_text(
            n,
            record.sv_accuracy_m,
            Some(record.sv_health),
            orbit6_tail(record).0,
            orbit6_tail(record).1,
        ),
        orbit_text(
            n,
            stated.transmission_time_sow,
            orbit7_field2(record, version),
            stated.orbit7_field3,
            stated.orbit7_field4,
        ),
    ]
}

/// Append the lines of a legacy Keplerian record (see [`keplerian_lines`]).
pub fn write_record(
    out: &mut Vec<String>,
    record: &BroadcastRecord,
    version: NavVersion,
    columns: RecordColumns,
)
    ensures
        strings(final(out)@) == strings(old(out)@) + keplerian_lines(*record, version, columns),
{
    let ghost before = strings(out@);
    let system = record.satellite_id.system;
    let e = &record.elements;
    let stated = &record.stated;
    let n: usize = columns.indent_width();
    push_line(
        out,
        first_line_of(
            columns,
            record.satellite_id,
            clock_epoch_civil(record.toc),
            record.clock.af0,
            record.clock.af1,
            Some(record.clock.af2),
        ),
    );
    let issue: Option<Decimal> = match record.issue_of_data {
        Some(issue) => Some(Decimal::from_integer(issue.issue as i64)),
        None => None,
    };
    push_line(out, orbit_line(n, issue, Some(e.crs), Some(e.delta_n), Some(e.m0)));
    push_line(out, orbit_line(n, Some(e.cuc), Some(e.e), Some(e.cus), Some(e.sqrt_a)));
    push_line(out, orbit_line(n, Some(e.toe_sow), Some(e.cic), Some(e.omega0), Some(e.cis)));
    push_line(out, orbit_line(n, Some(e.i0), Some(e.crc), Some(e.omega), Some(e.omega_dot)));
    let field2: Option<Decimal> = if system == GnssSystem::Galileo {
        Some(galileo_data_sources(record, version))
    } else {
        stated.orbit5_field2
    };
    let week: Decimal = Decimal::from_integer(record.week as i64);
    push_line(out, orbit_line(n, Some(e.idot), field2, Some(week), stated.orbit5_field4));
    let gd = &record.group_delays;
    let (delay3, field4): (Option<Decimal>, Option<Decimal>) = match system {
        GnssSystem::Galileo => (gd.galileo_bgd_e5a_e1_s, gd.galileo_bgd_e5b_e1_s),
        GnssSystem::BeiDou => (gd.beidou_tgd1_s, gd.beidou_tgd2_s),
        _ => (gd.gps_tgd_s, stated.orbit6_field4),
    };
    push_line(out, orbit_line(n, record.sv_accuracy_m, Some(record.sv_health), delay3, field4));
    let fit: Option<Decimal> = match system {
        GnssSystem::Gps => gps_fit_field(record, version),
        GnssSystem::Qzss => qzss_fit_field(record),
        _ => stated.orbit7_field2,
    };
    push_line(
        out,
        orbit_line(n, stated.transmission_time_sow, fit, stated.orbit7_field3, stated.orbit7_field4),
    );
    assert(strings(out@) =~= before + keplerian_lines(*record, version, columns));
}

/// The lines of a CNAV-family record: ten with CNAV-2, nine with CNAV.
pub open spec fn cnav_lines_of(record: BroadcastRecord, cnav: CnavParameters) -> Seq<Seq<u8>> {
    let e = record.elements;
    let gd = record.group_delays;
    let top = settled(cnav.top, 3);
    let head = seq![
        first_text(
            RecordColumns::V3,
            record.satellite_id,
            clock_civil(record.toc),
            record.clock.af0,
            record.clock.af1,
            Some(record.clock.af2),
        ),
        orbit_text(4, Some(cnav.adot_m_s), Some(e.crs), Some(e.delta_n), Some(e.m0)),
        orbit_text(4, Some(e.cuc), Some(e.e), Some(e.cus), Some(e.sqrt_a)),
        orbit_text(4, Some(written(top.tow_s)), Some(e.cic), Some(e.omega0), Some(e.cis)),
        orbit_text(4, Some(e.i0), Some(e.crc), Some(e.omega), Some(e.omega_dot)),
        orbit_text(
            4,
            Some(e.idot),
            Some(cnav.delta_n0_dot_rad_s2),
            Some(decimal_of(cnav.ura_ned0_index as int)),
            Some(decimal_of(cnav.ura_ned1_index as int)),
        ),
        orbit_text(
            4,
            Some(decimal_of(cnav.ura_ed_index as int)),
            Some(record.sv_health),
            gd.gps_tgd_s,
            Some(decimal_of(cnav.ura_ned2_index as int)),
        ),
        orbit_text(4, gd.cnav_isc_l1ca_s, gd.cnav_isc_l2c_s, gd.cnav_isc_l5i5_s, gd.cnav_isc_l5q5_s),
    ];
    let isc = if record.message.cnav2() {
        seq![orbit_text(4, gd.cnav_isc_l1cd_s, gd.cnav_isc_l1cp_s, None, None)]
    } else {
        Seq::empty()
    };
    let flags = match cnav.flags {
        Some(flags) => Some(decimal_of(flags as int)),
        None => None,
    };
    head + isc + seq![
        orbit_text(
            4,
            Some(cnav.transmission_time_sow),
            Some(decimal_of(top.week as int)),
            flags,
            None,
        ),
    ]
}

/// Append the lines of a CNAV-family record (see [`cnav_lines_of`]).
pub fn write_cnav_record(out: &mut Vec<String>, record: &BroadcastRecord, cnav: &CnavParameters)
    ensures
        strings(final(out)@) == strings(old(out)@) + cnav_lines_of(*record, *cnav),
        cnav_lines_of(*record, *cnav).len() == (if record.message.cnav2() {
            10int
        } else {
            9int
        }),
{
    let ghost before = strings(out@);
    let top = serialized_week_tow(cnav.top);
    let e = &record.elements;
    let gd = &record.group_delays;
    push_line(
        out,
        first_line_of(
            RecordColumns::V3,
            record.satellite_id,
            clock_epoch_civil(record.toc),
            record.clock.af0,
            record.clock.af1,
            Some(record.clock.af2),
        ),
    );
    push_line(out, orbit_line(4, Some(cnav.adot_m_s), Some(e.crs), Some(e.delta_n), Some(e.m0)));
    push_line(out, orbit_line(4, Some(e.cuc), Some(e.e), Some(e.cus), Some(e.sqrt_a)));
    let tow: Decimal = written_seconds(top.tow_s);
    push_line(out, orbit_line(4, Some(tow), Some(e.cic), Some(e.omega0), Some(e.cis)));
    push_line(out, orbit_line(4, Some(e.i0), Some(e.crc), Some(e.omega), Some(e.omega_dot)));
    push_line(
        out,
        orbit_line(
            4,
            Some(e.idot),
            Some(cnav.delta_n0_dot_rad_s2),
            Some(Decimal::from_integer(cnav.ura_ned0_index as i64)),
            Some(Decimal::from_integer(cnav.ura_ned1_index as i64)),
        ),
    );
    push_line(
        out,
        orbit_line(
            4,
            Some(Decimal::from_integer(cnav.ura_ed_index as i64)),
            Some(record.sv_health),
            gd.gps_tgd_s,
            Some(Decimal::from_integer(cnav.ura_ned2_index as i64)),
        ),
    );
    push_line(
        out,
        orbit_line(
            4,
            gd.cnav_isc_l1ca_s,
            gd.cnav_isc_l2c_s,
            gd.cnav_isc_l5i5_s,
            gd.cnav_isc_l5q5_s,
        ),
    );
    if record.message.is_cnav2() {
        push_line(out, orbit_line(4, gd.cnav_isc_l1cd_s, gd.cnav_isc_l1cp_s, None, None));
    }
    let flags: Option<Decimal> = match cnav.flags {
        Some(flags) => Some(Decimal::from_integer(flags as i64)),
        None => None,
    };
    push_line(
        out,
        orbit_line(
            4,
            Some(cnav.transmission_time_sow),
            Some(Decimal::from_integer(top.week as i64)),
            flags,
            None,
        ),
    );
    assert(strings(out@) =~= before + cnav_lines_of(*record, *cnav));
}

/// The frequency channel to write: the stated one while it folds to the record's channel.
pub open spec fn channel_written(record: GlonassRecord) -> int {
    if folded_channel(record.stated_freq_channel as int) == record.freq_channel {
        record.stated_freq_channel as int
    } else {
        record.freq_channel as int
    }
}

/// The lines of a GLONASS record: five where the version has the fourth orbit line, else four.
pub open spec fn glonass_lines_of(
    record: GlonassRecord,
    version: NavVersion,
    columns: RecordColumns,
) -> Seq<Seq<u8>> {
    let n = columns.indent();
    let (p, v, a) = (record.pos_m@, record.vel_m_s@, record.acc_m_s2@);
    let head = seq![
        first_text(
            columns,
            record.satellite_id,
            j2000_civil(record.epoch_utc_j2000_s),
            record.clk_bias,
            record.gamma_n,
            record.message_frame_time_s,
        ),
        axis_text(n, p[0], v[0], a[0], Some(record.sv_health)),
        axis_text(n, p[1], v[1], a[1], Some(decimal_of(channel_written(record)))),
        axis_text(n, p[2], v[2], a[2], record.age_days),
    ];
    if version.fourth_glonass_line() {
        head.push(
            orbit_text(
                n,
                record.status_flags,
                record.l1_l2_group_delay_field_s,
                record.urai,
                record.health_flags,
            ),
        )
    } else {
        head
    }
}

/// Append the lines of a GLONASS record (see [`glonass_lines_of`]).
pub fn write_glonass_record(
    out: &mut Vec<String>,
    record: &GlonassRecord,
    version: NavVersion,
    columns: RecordColumns,
)
    ensures
        strings(final(out)@) == strings(old(out)@) + glonass_lines_of(*record, version, columns),
{
    let ghost before = strings(out@);
    let n: usize = columns.indent_width();
    push_line(
        out,
        first_line_of(
            columns,
            record.satellite_id,
            civil_from_j2000_s(record.epoch_utc_j2000_s),
            record.clk_bias,
            record.gamma_n,
            record.message_frame_time_s,
        ),
    );
    push_line(
        out,
        axis_line(
            n,
            record.pos_m[0],
            record.vel_m_s[0],
            record.acc_m_s2[0],
            Some(record.sv_health),
        ),
    );
    let channel: i32 = if fold_glonass_channel(record.stated_freq_channel) == record.freq_channel {
        record.stated_freq_channel
    } else {
        record.freq_channel
    };
    push_line(
        out,
        axis_line(
            n,
            record.pos_m[1],
            record.vel_m_s[1],
            record.acc_m_s2[1],
            Some(Decimal::from_integer(channel as i64)),
        ),
    );
    push_line(
        out,
        axis_line(n, record.pos_m[2], record.vel_m_s[2], record.acc_m_s2[2], record.age_days),
    );
    if version.glonass_has_fourth_orbit_line() {
        push_line(
            out,
            orbit_line(
                n,
                record.status_flags,
                record.l1_l2_group_delay_field_s,
                record.urai,
                record.health_flags,
            ),
        );
    }
    assert(strings(out@) =~= before + glonass_lines_of(*record, version, columns));
}

/// The four lines of an SBAS record.
pub open spec fn sbas_lines_of(record: SbasRecord, columns: RecordColumns) -> Seq<Seq<u8>> {
    let n = columns.indent();
    let (p, v, a) = (record.pos_m@, record.vel_m_s@, record.acc_m_s2@);
    seq![
        first_text(
            columns,
            record.satellite_id,
            civil_of(record.epoch),
            record.af0_s,
            record.af1_s_s,
            record.message_frame_time_s,
        ),
        axis_text(n, p[0], v[0], a[0], Some(record.health)),
        axis_text(n, p[1], v[1], a[1], record.ura_m),
        axis_text(n, p[2], v[2], a[2], record.iodn),
    ]
}

/// Append the lines of an SBAS record (see [`sbas_lines_of`]).
pub fn write_sbas_record(out: &mut Vec<String>, record: &SbasRecord, columns: RecordColumns)
    ensures
        strings(final(out)@) == strings(old(out)@) + sbas_lines_of(*record, columns),
{
    let ghost before = strings(out@);
    let n: usize = columns.indent_width();
    push_line(
        out,
        first_line_of(
            columns,
            record.satellite_id,
            civil_epoch_of(&record.epoch),
            record.af0_s,
            record.af1_s_s,
            record.message_frame_time_s,
        ),
    );
    push_line(
        out,
        axis_line(
            n,
            record.pos_m[0],
            record.vel_m_s[0],
            record.acc_m_s2[0],
            Some(record.health),
        ),
    );
    push_line(
        out,
        axis_line(n, record.pos_m[1], record.vel_m_s[1], record.acc_m_s2[1], record.ura_m),
    );
    push_line(
        out,
        axis_line(n, record.pos_m[2], record.vel_m_s[2], record.acc_m_s2[2], record.iodn),
    );
    assert(strings(out@) =~= before + sbas_lines_of(*record, columns));
}

/// A frame marker: the frame type, the satellite and the message.
pub open spec fn marker_text(frame: Seq<u8>, sat: GnssSatelliteId, token: Seq<u8>) -> Seq<u8> {
    frame + token_of_satellite(sat) + spaces(1) + token
}

/// A frame marker (see [`marker_text`]).
pub fn marker_line(frame: &str, sat: GnssSatelliteId, token: &str) -> (r: String)
    ensures
        utf8(r@) == marker_text(utf8(frame@), sat, utf8(token@)),
{
    let mut out = own(frame);
    sat.push_token(&mut out);
    push_spaces(&mut out, 1);
    push(&mut out, token);
    assert(utf8(out@) =~= marker_text(utf8(frame@), sat, utf8(token@)));
    out
}

/// A text or nothing.
pub open spec fn text_or_empty(t: Option<Seq<u8>>) -> Seq<u8> {
    match t {
        Some(t) => t,
        None => Seq::empty(),
    }
}

/// The lines of a system time offset frame.
pub open spec fn offset_lines(frame: OffsetFrame) -> Seq<Seq<u8>> {
    seq![
        marker_text(utf8("> STO "@), frame.satellite_id, frame.token),
        spaces(4) + civil_text(civil_of(frame.epoch)) + spaces(1) + left(frame.code, 18) + spaces(1)
            + left(text_or_empty(frame.sbas_id), 18) + spaces(1) + left(
            text_or_empty(frame.utc_id),
            18,
        ),
        orbit_text(4, Some(frame.sent), Some(frame.a0), frame.a1, frame.a2),
    ]
}

/// Append an optional text at the left of `width` columns.
pub fn push_optional_left(out: &mut String, text: &Option<String>, width: usize)
    ensures
        utf8(final(out)@) == utf8(old(out)@) + left(
            text_or_empty(crate::text::opt_utf8(*text)),
            width as nat,
        ),
{
    match text {
        Some(text) => push_left(out, text.as_str(), width),
        None => push_left(out, no_text(), width),
    }
}

/// Append the lines of a system time offset frame (see [`offset_lines`]).
pub fn write_sto_frame(out: &mut Vec<String>, frame: &SystemTimeOffset)
    ensures
        strings(final(out)@) == strings(old(out)@) + offset_lines(frame@),
{
    let ghost before = strings(out@);
    push_line(out, marker_line("> STO ", frame.satellite_id, frame.message_token.as_str()));
    let mut line = own(no_text());
    push_spaces(&mut line, 4);
    push_civil(&mut line, civil_epoch_of(&frame.reference_epoch));
    push_spaces(&mut line, 1);
    push_left(&mut line, frame.offset_code.as_str(), 18);
    push_spaces(&mut line, 1);
    push_optional_left(&mut line, &frame.sbas_id, 18);
    push_spaces(&mut line, 1);
    push_optional_left(&mut line, &frame.utc_id, 18);
    assert(utf8(line@) =~= offset_lines(frame@)[1]);
    push_line(out, line);
    push_line(
        out,
        orbit_line(
            4,
            Some(frame.transmission_time_sow),
            Some(frame.a0_s),
            frame.a1_s_s,
            frame.a2_s_s2,
        ),
    );
    assert(strings(out@) =~= before + offset_lines(frame@));
}

/// The lines of an Earth orientation frame.
pub open spec fn orientation_lines(frame: OrientationFrame) -> Seq<Seq<u8>> {
    seq![
        marker_text(utf8("> EOP "@), frame.satellite_id, frame.token),
        spaces(4) + civil_text(civil_of(frame.epoch)) + field_text(frame.xp[0]) + field_text(
            frame.xp[1],
        ) + field_text(frame.xp[2]),
        spaces(23) + field_text(frame.yp[0]) + field_text(frame.yp[1]) + field_text(frame.yp[2]),
        orbit_text(4, Some(frame.sent), frame.dut1[0], frame.dut1[1], frame.dut1[2]),
    ]
}

/// Append the lines of an Earth orientation frame (see [`orientation_lines`]).
pub fn write_eop_frame(out: &mut Vec<String>, frame: &EarthOrientation)
    ensures
        strings(final(out)@) == strings(old(out)@) + orientation_lines(frame@),
{
    let ghost before = strings(out@);
    push_line(out, marker_line("> EOP ", frame.satellite_id, frame.message_token.as_str()));
    let mut line = own(no_text());
    push_spaces(&mut line, 4);
    push_civil(&mut line, civil_epoch_of(&frame.reference_epoch));
    push_field(&mut line, frame.xp[0]);
    push_field(&mut line, frame.xp[1]);
    push_field(&mut line, frame.xp[2]);
    assert(utf8(line@) =~= orientation_lines(frame@)[1]);
    push_line(out, line);
    let mut line = own(no_text());
    push_spaces(&mut line, 23);
    push_field(&mut line, frame.yp[0]);
    push_field(&mut line, frame.yp[1]);
    push_field(&mut line, frame.yp[2]);
    assert(utf8(line@) =~= orientation_lines(frame@)[2]);
    push_line(out, line);
    push_line(
        out,
        orbit_line(
            4,
            Some(frame.transmission_time_sow),
            frame.dut1[0],
            frame.dut1[1],
            frame.dut1[2],
        ),
    );
    assert(strings(out@) =~= before + orientation_lines(frame@));
}

/// The values of a frame from one index up to another, in nineteen columns each.
pub open spec fn values_text(values: Seq<Option<Decimal>>, from: int, to: int) -> Seq<u8>
    decreases to - from,
{
    if from >= to {
        Seq::empty()
    } else {
        values_text(values, from, to - 1) + field_text(
            if to - 1 < values.len() {
                values[to - 1]
            } else {
                None
            },
        )
    }
}

/// The number of lines the values of an ionosphere frame after the first three take.
pub open spec fn ion_value_lines(count: int) -> int {
    if count <= 3 {
        0
    } else {
        (count - 3 + 3) / 4
    }
}

/// The lines of an ionosphere frame: its epoch and three values, then four values to a line,
/// without blanks at the end of a line.
pub open spec fn ion_lines_of(frame: IonFrame) -> Seq<Seq<u8>> {
    let n = frame.values.len();
    seq![
        marker_text(utf8("> ION "@), frame.satellite_id, frame.token),
        trim_end_of(
            spaces(4) + civil_text(civil_of(frame.epoch)) + values_text(frame.values, 0, 3),
        ),
    ] + Seq::new(
        ion_value_lines(n as int) as nat,
        |j: int|
            trim_end_of(
                spaces(4) + values_text(
                    frame.values,
                    3 + 4 * j,
                    if 7 + 4 * j < n {
                        7 + 4 * j
                    } else {
                        n as int
                    },
                ),
            ),
    )
}

/// Append values in nineteen columns each (see [`values_text`]).
fn push_values(out: &mut String, values: &Vec<Option<Decimal>>, from: usize, to: usize)
    requires
        from <= to,
    ensures
        utf8(final(out)@) == utf8(old(out)@) + values_text(values@, from as int, to as int),
{
    let ghost before = utf8(out@);
    let mut i: usize = from;
    assert(before + values_text(values@, from as int, from as int) =~= before);
    while i < to
        invariant
            from <= i <= to,
            utf8(out@) == before + values_text(values@, from as int, i as int),
        decreases to - i,
    {
        let value: Option<Decimal> = if i < values.len() {
            values[i]
        } else {
            None
        };
        push_field(out, value);
        assert(utf8(out@) =~= before + values_text(values@, from as int, i + 1));
        i = i + 1;
    }
}

/// Append the lines of an ionosphere frame (see [`ion_lines_of`]).
pub fn write_ion_frame(out: &mut Vec<String>, frame: &IonosphereFrame)
    ensures
        strings(final(out)@) == strings(old(out)@) + ion_lines_of(frame@),
{
    let ghost before = strings(out@);
    push_line(out, marker_line("> ION ", frame.satellite_id, frame.message_token.as_str()));
    let mut line = own(no_text());
    push_spaces(&mut line, 4);
    push_civil(&mut line, civil_epoch_of(&frame.transmission_epoch));
    push_values(&mut line, &frame.values, 0, 3);
    push_line(out, own(trim_end(line.as_str())));
    let n: usize = frame.values.len();
    let ghost all = ion_lines_of(frame@);
    assert(strings(out@) =~= before + all.subrange(0, 2));
    let mut at: usize = 3;
    let ghost mut done: int = 0;
    while at < n
        invariant
            n == frame.values@.len(),
            all == ion_lines_of(frame@),
            at == 3 + 4 * done || (at >= n && done == ion_value_lines(n as int)),
            0 <= done <= ion_value_lines(n as int),
            at >= n ==> done == ion_value_lines(n as int),
            strings(out@) == before + all.subrange(0, 2 + done),
        decreases n - at,
    {
        let end: usize = if n - at > 4 {
            at + 4
        } else {
            n
        };
        let mut line = own(no_text());
        push_spaces(&mut line, 4);
        push_values(&mut line, &frame.values, at, end);
        let text = own(trim_end(line.as_str()));
        assert(utf8(text@) == all[2 + done]);
        push_line(out, text);
        proof {
            assert(all.subrange(0, 2 + done + 1) =~= all.subrange(0, 2 + done).push(all[2 + done]));
            assert(strings(out@) =~= before + all.subrange(0, 2 + done + 1));
            done = done + 1;
        }
        at = end;
    }
    assert(all.subrange(0, 2 + done) =~= all);
}

} // verus!

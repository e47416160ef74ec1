//! CNAV-family records: their fields, accuracy, selection and writing.

#![allow(dead_code, unused_imports)]

use sidereon_nav::body::{NavEntry, NavItem};
use sidereon_nav::decimal::Decimal;
use sidereon_nav::epoch::{exact_week_tow_epoch, ExactEpoch};
use sidereon_nav::error::{
    NavDiagnostic, NavParseError, OtherNavBlockKind, SkippedGlonass,
};
use sidereon_nav::file::{
    parse_glonass, parse_glonass_lenient, parse_iono_corrections, parse_leap_seconds, parse_nav,
    parse_nav_file, parse_nav_lenient, parse_sbas, NavFile,
};
use sidereon_nav::frames::IonosphereModel;
use sidereon_nav::id::{GnssSatelliteId, GnssSystem};
use sidereon_nav::record::{
    cnav_ura_nominal_m, is_beidou_geo, BroadcastGroupDelays, BroadcastIssue, BroadcastRecord,
    ClockPolynomial, CnavParameters, CnavSignal, ConstellationConstants, GlonassRecord, GroupDelay,
    KeplerianElements, KlobucharAlphaBeta, NavMessage, NavVersion, StatedNavFields,
};
use sidereon_nav::store::{BroadcastStore, NavMessagePreference};
use sidereon_nav::time::{GnssWeekTow, NavEpoch, Seconds, TimeScale};
use sidereon_nav::write::{encode_nav, encode_nav_file, NavWriteError};

/// The number a double prints as.
fn d(x: f64) -> Decimal {
    let text = format!("{:e}", x.abs());
    let (mantissa, exponent) = text.split_once('e').unwrap();
    let exponent: i32 = exponent.parse().unwrap();
    let fraction = mantissa.split_once('.').map_or(0, |(_, f)| f.len() as i32);
    let mut digits: u128 = mantissa.replace('.', "").parse().unwrap();
    let mut exponent = exponent - fraction;
    if digits == 0 {
        return Decimal::zero();
    }
    while digits % 10 == 0 {
        digits /= 10;
        exponent += 1;
    }
    Decimal { negative: x < 0.0, digits, exponent }
}

/// A time of a whole and a fraction.
fn secs(x: f64) -> Seconds {
    Seconds::from_decimal(d(x))
}

/// The instant `offset` seconds after a record's `toe`, in GPS time.
fn toe_plus(record: &BroadcastRecord, offset: f64) -> ExactEpoch {
    let native = exact_week_tow_epoch(record.toe);
    let bdt = if record.satellite_id.system == GnssSystem::BeiDou { 14.0 } else { 0.0 };
    native.checked_add_seconds(d(offset)).unwrap().checked_add_seconds(d(bdt)).unwrap()
}

/// The instant `offset` seconds after another.
fn later(t: ExactEpoch, offset: f64) -> ExactEpoch {
    t.checked_add_seconds(d(offset)).unwrap()
}

fn civil(year: i32, month: u8, day: u8, hour: u8, minute: u8, second: f64) -> NavEpoch {
    NavEpoch { year, month, day, hour, minute, second: d(second) }
}

fn d19_12(value: f64) -> String {
    let mut out = String::new();
    d(value).push_d19_12(&mut out);
    out
}

fn broadcast_time(system: GnssSystem, week: u32, sow: f64) -> GnssWeekTow {
    let scale = match system {
        GnssSystem::Galileo => TimeScale::Gst,
        GnssSystem::BeiDou => TimeScale::Bdt,
        _ => TimeScale::Gpst,
    };
    GnssWeekTow::new(scale, week, secs(sow)).normalized().unwrap()
}

const G01_LINES: &[&str] = &[
    "G01 2020 06 25 04 00 00 1.604342833161e-05 7.048583938740e-12 0.000000000000e+00",
    "     5.800000000000e+01-3.968750000000e+01 4.304822170265e-09 6.342094507864e-01",
    "    -2.177432179451e-06 1.000394229777e-02 1.937150955200e-06 5.153707128525e+03",
    "     3.600000000000e+05-1.508742570877e-07 2.572838528869e+00 1.359730958939e-07",
    "     9.806518601091e-01 3.539687500000e+02 7.941703015008e-01-8.384634967987e-09",
    "    -5.714523747137e-11 1.000000000000e+00 2.111000000000e+03 0.000000000000e+00",
    "     2.000000000000e+00 0.000000000000e+00 5.122274160385e-09 5.800000000000e+01",
    "     3.561060000000e+05 4.000000000000e+00",
];

const E01_LINES: &[&str] = &[
    "E01 2020 06 24 23 30 00-8.846927667037e-04-7.972289495228e-12 0.000000000000e+00",
    "     6.100000000000e+01 1.865625000000e+01 2.656539226950e-09-1.832282909549e+00",
    "     8.568167686462e-07 9.650341235101e-05 1.049041748047e-05 5.440602037430e+03",
    "     3.438000000000e+05 1.862645149231e-09 2.123282284601e-01-1.452863216400e-07",
    "     9.828296477370e-01 1.298750000000e+02-2.778709093141e+00-5.216288707934e-09",
    "    -6.996720012901e-10 2.580000000000e+02 2.111000000000e+03",
    "     3.120000000000e+00 0.000000000000e+00-1.862645149231e-09 0.000000000000e+00",
    "     3.445400000000e+05",
];

const R01_GLONASS_LINES: &[&str] = &[
    "R01 2020 06 24 23 15 00 6.355904042721e-05 0.000000000000e+00 3.420000000000e+05",
    "     1.090894238281e+04 1.407806396484e+00-1.862645149231e-09 0.000000000000e+00",
    "    -2.885726074219e+03 2.795855522156e+00-0.000000000000e+00 1.000000000000e+00",
    "     2.288353955078e+04-3.169984817505e-01-2.793967723846e-09 0.000000000000e+00",
];

const S20_LINES: &[&str] = &[
    "S20 2020 06 25 00 01 36 1.117587089539e-08 0.000000000000e+00 3.456960000000e+05",
    "     4.063093080000e+04 1.200000000000e-03 1.000000000000e-07 0.000000000000e+00",
    "    -1.126480640000e+04-2.400000000000e-03 0.000000000000e+00 4.000000000000e+00",
    "     2.000000000000e+01 1.000000000000e-04 0.000000000000e+00 2.200000000000e+01",
];

const V4_NAV_HEADER: &str =
    "     4.00           NAVIGATION DATA     M                   RINEX VERSION / TYPE\n\
     XXX                                                         END OF HEADER\n";

const V3_NAV_HEADER: &str =
    "     3.05           NAVIGATION DATA     M                   RINEX VERSION / TYPE\n\
     XXX                                                         END OF HEADER\n";

fn gps_nav_text_with_epoch_field(start: usize, end: usize, value: &str) -> String {
    let mut lines: Vec<String> = G01_LINES.iter().map(ToString::to_string).collect();
    lines[0].replace_range(start..end, value);

    let mut text = String::from(V3_NAV_HEADER);
    for line in lines {
        text.push_str(&line);
        text.push('\n');
    }
    text
}

fn gps_nav_text_with_month(month: &str) -> String {
    gps_nav_text_with_epoch_field(9, 11, month)
}

fn glonass_text(lines: &[String]) -> String {
    nav_text_with_version("3.04", lines)
}

fn r01_glonass_lines() -> Vec<String> {
    R01_GLONASS_LINES.iter().map(ToString::to_string).collect()
}

fn nav_text_with_version(version: &str, lines: &[String]) -> String {
    let mut text = format!(
        "{version:>9}           NAVIGATION DATA     M                   RINEX VERSION / TYPE\n\
     XXX                                                         END OF HEADER\n"
    );
    for line in lines {
        text.push_str(line);
        text.push('\n');
    }
    text
}

fn nav_text(lines: &[String]) -> String {
    nav_text_with_version("3.05", lines)
}

fn g01_lines() -> Vec<String> {
    G01_LINES.iter().map(ToString::to_string).collect()
}

fn e01_lines() -> Vec<String> {
    E01_LINES.iter().map(ToString::to_string).collect()
}

fn satellite_lines(template: &[&str], token: &str) -> Vec<String> {
    assert_eq!(token.len(), 3);
    let mut lines: Vec<String> = template.iter().map(ToString::to_string).collect();
    lines[0].replace_range(0..3, token);
    lines
}

fn replace_orbit_field(line: &str, field_index: usize, value: &str) -> String {
    let ranges = [(4, 23), (23, 42), (42, 61), (61, 80)];
    let (start, end) = ranges[field_index];
    let field = format!("{value:>width$}", width = end - start);
    let mut out = format!("{line:<80}");
    out.replace_range(start..end, &field);
    out
}

fn blank_orbit_field(line: &str, field_index: usize) -> String {
    let ranges = [(4, 23), (23, 42), (42, 61), (61, 80)];
    let (start, end) = ranges[field_index];
    let mut out = format!("{line:<80}");
    out.replace_range(start..end, "                   ");
    out
}

fn cnav_orbit_line(values: [Option<f64>; 4]) -> String {
    let mut line = String::from("    ");
    for value in values {
        match value {
            Some(value) => line.push_str(&d19_12(value)),
            None => line.push_str("                   "),
        }
    }
    line
}

fn cnav_clock_line(sat: &str, af0: f64) -> String {
    let mut line = format!("{sat:<3} 2020 06 25 04 00 00");
    line.push_str(&d19_12(af0));
    line.push_str(&d19_12(7.0e-12));
    line.push_str(&d19_12(0.0));
    line
}

fn cnav_lines_with_clock(sat: &str, af0: f64) -> Vec<String> {
    vec![
        cnav_clock_line(sat, af0),
        cnav_orbit_line([
            Some(0.125),
            Some(-39.6875),
            Some(4.304822170265e-9),
            Some(0.6342094507864),
        ]),
        cnav_orbit_line([
            Some(-2.177432179451e-6),
            Some(0.01000394229777),
            Some(1.9371509552e-6),
            Some(5153.707128525),
        ]),
        cnav_orbit_line([
            Some(360_000.0),
            Some(-1.508742570877e-7),
            Some(2.572838528869),
            Some(1.359730958939e-7),
        ]),
        cnav_orbit_line([
            Some(0.9806518601091),
            Some(353.96875),
            Some(0.7941703015008),
            Some(-8.384634967987e-9),
        ]),
        cnav_orbit_line([
            Some(-5.714523747137e-11),
            Some(1.0e-18),
            Some(0.0),
            Some(2.0),
        ]),
        cnav_orbit_line([Some(1.0), Some(0.0), Some(5.122274160385e-9), Some(4.0)]),
        cnav_orbit_line([Some(1.0e-9), Some(2.0e-9), Some(3.0e-9), Some(4.0e-9)]),
        cnav_orbit_line([Some(356_106.0), Some(2111.0), Some(5.0), None]),
    ]
}

fn cnav_lines(sat: &str) -> Vec<String> {
    cnav_lines_with_clock(sat, 2.0e-4)
}

fn cnv2_lines(sat: &str) -> Vec<String> {
    let mut lines = cnav_lines_with_clock(sat, 3.0e-4);
    lines[8] = cnav_orbit_line([Some(6.0e-9), Some(7.0e-9), None, None]);
    lines.push(cnav_orbit_line([
        Some(356_106.0),
        Some(2111.0),
        Some(1.0),
        None,
    ]));
    lines
}

fn push_owned_lines(out: &mut String, lines: &[String]) {
    for line in lines {
        out.push_str(line);
        out.push('\n');
    }
}

fn join(lines: &[&str]) -> String {
    let mut s = lines.join("\n");
    s.push('\n');
    s
}

fn replace_fourth_orbit_field(line: &str, value: &str) -> String {
    assert_eq!(line.len(), 80);
    let field = format!("{value:>19}");
    assert_eq!(field.len(), 19);
    let mut out = line.to_string();
    out.replace_range(61..80, &field);
    out
}

fn nav_text_with_header_line(header_line: &str) -> String {
    format!(
        "     3.05           NAVIGATION DATA     M                   RINEX VERSION / TYPE\n\
{header_line}\n\
     XXX                                                         END OF HEADER\n{}",
        join(G01_LINES)
    )
}

fn header_record(content: &str, label: &str) -> String {
    format!("{content:<60}{label}\n")
}

fn v4_data_frames() -> String {
    let mut text = String::new();
    text.push_str("> ION G29 LNAV\n");
    text.push_str(
        "    2020 06 25 00 00 00 1.024454832077e-08 0.000000000000e+00 0.000000000000e+00\n",
    );
    text.push_str(
        "    -1.192092895508e-07 9.625600000000e+04 0.000000000000e+00 0.000000000000e+00\n",
    );
    text.push_str("    -5.898240000000e+05\n");
    text.push_str("> STO G01 LNAV\n");
    text.push_str(&format!(
        "    2020 06 25 00 00 00 {:<18} {:<18} {:<18}\n",
        "GPUT", "", "UTC(USNO)"
    ));
    text.push_str(
        "     3.456000000000e+05 9.313225746155e-10 2.664535259100e-15 0.000000000000e+00\n",
    );
    text.push_str("> EOP G01 CNVX\n");
    text.push_str(
        "    2020 06 25 00 00 00 1.000000000000e-01 2.000000000000e-03 0.000000000000e+00\n",
    );
    text.push_str(
        "                        3.000000000000e-01-4.000000000000e-03 0.000000000000e+00\n",
    );
    text.push_str(
        "     3.456000000000e+05-2.000000000000e-01 5.000000000000e-04 0.000000000000e+00\n",
    );
    text
}

use sidereon_nav::ura::cnav_ura_ned_m;

fn to_f64(x: Decimal) -> f64 {
    format!("{}e{}", x.digits, x.exponent).parse().unwrap()
}

fn cnav_record_from_legacy(
    mut record: BroadcastRecord,
    system: GnssSystem,
    prn: u8,
    message: NavMessage,
) -> BroadcastRecord {
    record.satellite_id = GnssSatelliteId::new(system, prn).expect("valid satellite id");
    record.message = message;
    // A RINEX 4 CNAV record carries no issue of data and no fit interval.
    record.issue_of_data = None;
    record.stated = StatedNavFields::default();
    record.group_delays = BroadcastGroupDelays::cnav(
        record.group_delays.gps_tgd_s,
        Some(d(0.0)),
        Some(d(0.0)),
        Some(d(0.0)),
        Some(d(0.0)),
        None,
        None,
    );
    record.cnav = Some(CnavParameters {
        adot_m_s: d(0.0),
        delta_n0_dot_rad_s2: d(0.0),
        top: record.toe,
        ura_ed_index: 0,
        ura_ned0_index: 0,
        ura_ned1_index: 0,
        ura_ned2_index: 0,
        transmission_time_sow: record.elements.toe_sow,
        flags: None,
    });
    record.sv_accuracy_m = cnav_ura_nominal_m(0);
    record.fit_interval_h = None;
    record
}

#[test]
fn rinex_v4_skips_unsupported_beidou_cnv_family() {
    let mut text = String::from(V4_NAV_HEADER);
    for token in ["CNV1", "CNV2", "CNV3"] {
        text.push_str(&format!("> EPH C19 {token}\n"));
        push_owned_lines(&mut text, &cnav_lines("C19"));
    }

    let recs = parse_nav(&text).expect("unsupported BeiDou CNV frames are skipped");
    assert!(recs.is_empty());
}

#[test]
fn rinex_v4_rejects_cnav_marker_body_satellite_mismatch() {
    let mut text = String::from(V4_NAV_HEADER);
    text.push_str("> EPH G03 CNAV\n");
    push_owned_lines(&mut text, &cnav_lines("G04"));

    let err = parse_nav(&text).expect_err("marker SV must match CNAV body SV");
    assert_eq!(
        err,
        NavParseError::BadField {
            satellite: "G03".to_string(),
            field: "frame marker",
        }
    );
}

#[test]
fn rinex_v4_rejects_cnav_marker_message_for_body_system_mismatch() {
    let mut text = String::from(V4_NAV_HEADER);
    text.push_str("> EPH E01 CNAV\n");
    push_owned_lines(&mut text, &cnav_lines("E01"));

    let err = parse_nav(&text).expect_err("CNAV token is invalid for Galileo");
    assert_eq!(
        err,
        NavParseError::BadField {
            satellite: "E01".to_string(),
            field: "message",
        }
    );
}

#[test]
fn rinex_v4_cnav_malformed_records_error_not_skip() {
    let mut truncated = String::from(V4_NAV_HEADER);
    truncated.push_str("> EPH G03 CNAV\n");
    for line in cnav_lines("G03").into_iter().take(8) {
        truncated.push_str(&line);
        truncated.push('\n');
    }
    assert!(matches!(
        parse_nav(&truncated),
        Err(NavParseError::TruncatedRecord(s)) if s == "G03"
    ));

    let mut bad_ura = cnav_lines("G03");
    bad_ura[6] = replace_orbit_field(&bad_ura[6], 0, "1.600000000000e+01");
    let mut text = String::from(V4_NAV_HEADER);
    text.push_str("> EPH G03 CNAV\n");
    push_owned_lines(&mut text, &bad_ura);
    assert_eq!(
        parse_nav(&text).expect_err("out-of-range URA_ED must error"),
        NavParseError::BadField {
            satellite: "G03".to_string(),
            field: "ura_ed",
        }
    );

    let mut bad_health = cnav_lines("G03");
    bad_health[6] = replace_orbit_field(&bad_health[6], 1, "5.000000000000e-01");
    let mut text = String::from(V4_NAV_HEADER);
    text.push_str("> EPH G03 CNAV\n");
    push_owned_lines(&mut text, &bad_health);
    assert_eq!(
        parse_nav(&text).expect_err("non-integral health must error"),
        NavParseError::BadField {
            satellite: "G03".to_string(),
            field: "health",
        }
    );

    let mut bad_wn = cnav_lines("G03");
    bad_wn[8] = replace_orbit_field(&bad_wn[8], 1, "2.111500000000e+03");
    let mut text = String::from(V4_NAV_HEADER);
    text.push_str("> EPH G03 CNAV\n");
    push_owned_lines(&mut text, &bad_wn);
    assert_eq!(
        parse_nav(&text).expect_err("non-integral WNop must error"),
        NavParseError::BadField {
            satellite: "G03".to_string(),
            field: "wn_op",
        }
    );
}

#[test]
fn cnav_delay_sentinel_and_blank_fields_parse_as_none() {
    let mut lines = cnav_lines("G03");
    let sentinel = d19_12(-4096.0 * 2.0_f64.powi(-35));
    lines[7] = replace_orbit_field(&lines[7], 2, sentinel.trim());
    lines[7] = blank_orbit_field(&lines[7], 3);

    let mut text = String::from(V4_NAV_HEADER);
    text.push_str("> EPH G03 CNAV\n");
    push_owned_lines(&mut text, &lines);

    let recs = parse_nav(&text).expect("parse CNAV with unavailable ISC fields");
    let rec = &recs[0];
    assert_eq!(rec.group_delays.cnav_isc_l5i5_s, None);
    assert_eq!(rec.group_delays.cnav_isc_l5q5_s, None);
    assert_eq!(
        rec.group_delays
            .cnav_single_frequency_correction_s(CnavSignal::L5I5),
        None
    );
}

#[test]
fn cnav_records_round_trip_through_rinex4_writer() {
    let mut text = String::from(V4_NAV_HEADER);
    text.push_str("> EPH G03 CNAV\n");
    push_owned_lines(&mut text, &cnav_lines("G03"));
    text.push_str("> EPH G04 CNV2\n");
    push_owned_lines(&mut text, &cnv2_lines("G04"));

    let recs = parse_nav(&text).expect("parse CNAV records");
    let encoded = encode_nav(&recs).expect("encode NAV");
    assert!(
        encoded
            .lines()
            .next()
            .expect("version line")
            .trim_start()
            .starts_with("4.02"),
        "CNAV output must use RINEX 4.02"
    );
    assert!(encoded.contains("> EPH G03 CNAV"));
    assert!(encoded.contains("> EPH G04 CNV2"));
    let reparsed = parse_nav(&encoded).expect("reparse encoded CNAV records");
    assert_eq!(reparsed, recs);
}

#[test]
fn encode_nav_refuses_a_cnav_record_without_cnav_parameters() {
    let mut text = String::from(V4_NAV_HEADER);
    text.push_str("> EPH G03 CNAV\n");
    push_owned_lines(&mut text, &cnav_lines("G03"));
    let mut record = parse_nav(&text).expect("parse CNAV")[0];
    record.cnav = None;
    assert!(matches!(
        encode_nav(&[record]),
        Err(NavWriteError::NotRepresentable { .. })
    ));
}

#[test]
fn cnav_no_prediction_ura_has_no_accuracy() {
    let mut lines = cnav_lines("G03");
    lines[6] = replace_orbit_field(&lines[6], 0, "1.500000000000e+01");
    let mut text = String::from(V4_NAV_HEADER);
    text.push_str("> EPH G03 CNAV\n");
    push_owned_lines(&mut text, &lines);
    let recs = parse_nav(&text).expect("parse");
    assert_eq!(recs[0].sv_accuracy_m, None);
    assert_eq!(recs[0].issue_of_data, None);
}

#[test]
fn parses_rinex_v4_gps_qzss_cnav_and_cnv2_records() {
    let mut text = String::from(V4_NAV_HEADER);
    text.push_str("> EPH G03 CNAV\n");
    push_owned_lines(&mut text, &cnav_lines("G03"));
    text.push_str("> EPH G04 CNV2\n");
    push_owned_lines(&mut text, &cnv2_lines("G04"));
    text.push_str("> EPH J03 CNAV\n");
    push_owned_lines(&mut text, &cnav_lines("J03"));

    let recs = parse_nav(&text).expect("parse CNAV-family RINEX 4 records");
    assert_eq!(recs.len(), 3);

    let g03 = recs
        .iter()
        .find(|r| r.satellite_id == GnssSatelliteId::new(GnssSystem::Gps, 3).unwrap())
        .expect("G03 CNAV record");
    assert_eq!(g03.message, NavMessage::GpsCnav);
    assert_eq!(g03.week, 2111);
    assert_eq!(g03.toe, g03.toc);
    assert_eq!(g03.elements.toe_sow, d(360_000.0));
    assert_eq!(g03.clock.toc_sow, secs(360_000.0));
    // The RINEX 4 CNAV record states no issue of data and no fit interval.
    assert_eq!(g03.issue_of_data, None);
    assert_eq!(g03.fit_interval_h, None);
    assert_eq!(g03.sv_accuracy_m, cnav_ura_nominal_m(1));
    assert_eq!(
        g03.broadcast_clock_group_delay_s(),
        GroupDelay::Difference(d(5.122274160385e-9), d(1.0e-9))
    );
    let cnav = g03.cnav.expect("CNAV extension");
    assert_eq!(cnav.adot_m_s, d(0.125));
    assert_eq!(cnav.delta_n0_dot_rad_s2, d(1.0e-18));
    assert_eq!(cnav.top.week, 2111);
    assert_eq!(cnav.top.tow_s, secs(360_000.0));
    assert_eq!(cnav.ura_ed_index, 1);
    assert_eq!(cnav.ura_ned0_index, 0);
    assert_eq!(cnav.ura_ned1_index, 2);
    assert_eq!(cnav.ura_ned2_index, 4);
    assert_eq!(cnav.transmission_time_sow, d(356_106.0));
    assert_eq!(cnav.flags, Some(5));
    assert_eq!(g03.group_delays.cnav_isc_l5q5_s, Some(d(4.0e-9)));

    let g04 = recs
        .iter()
        .find(|r| r.satellite_id == GnssSatelliteId::new(GnssSystem::Gps, 4).unwrap())
        .expect("G04 CNV2 record");
    assert_eq!(g04.message, NavMessage::GpsCnav2);
    assert_eq!(g04.group_delays.cnav_isc_l1cd_s, Some(d(6.0e-9)));
    assert_eq!(g04.group_delays.cnav_isc_l1cp_s, Some(d(7.0e-9)));
    assert_eq!(g04.cnav.expect("CNV2 extension").flags, Some(1));

    let j03 = recs
        .iter()
        .find(|r| r.satellite_id == GnssSatelliteId::new(GnssSystem::Qzss, 3).unwrap())
        .expect("J03 CNAV record");
    assert_eq!(j03.message, NavMessage::QzssCnav);
    assert_eq!(j03.time_scale(), TimeScale::Gpst);
}

#[test]
fn cnav_default_group_delay_falls_back_per_term() {
    let mut text = String::from(V4_NAV_HEADER);
    text.push_str("> EPH G03 CNAV\n");
    push_owned_lines(&mut text, &cnav_lines("G03"));
    let mut rec = parse_nav(&text)
        .expect("parse CNAV")
        .into_iter()
        .next()
        .expect("record");

    rec.group_delays.gps_tgd_s = Some(d(5.0e-9));
    rec.group_delays.cnav_isc_l1ca_s = None;
    assert_eq!(
        rec.broadcast_clock_group_delay_s(),
        GroupDelay::Term(d(5.0e-9))
    );

    rec.group_delays.gps_tgd_s = None;
    rec.group_delays.cnav_isc_l1ca_s = Some(d(2.0e-9));
    assert_eq!(
        rec.broadcast_clock_group_delay_s(),
        GroupDelay::Negated(d(2.0e-9))
    );

    rec.group_delays.gps_tgd_s = None;
    rec.group_delays.cnav_isc_l1ca_s = None;
    assert_eq!(
        rec.broadcast_clock_group_delay_s(),
        GroupDelay::Zero
    );
    assert_eq!(
        rec.group_delays
            .for_message(rec.satellite_id.system, rec.message),
        Some(GroupDelay::Zero)
    );
}

#[test]
fn cnav_ura_nominal_full_index_sweep_matches_spec_table() {
    for index in -16i8..=15 {
        let expected = match index {
            -16 | 15 => None,
            1 => Some(2.8),
            3 => Some(5.7),
            5 => Some(11.3),
            -15..=6 => Some(libm::pow(2.0_f64, 1.0 + f64::from(index) / 2.0)),
            7..=14 => Some(2.0_f64.powi(i32::from(index) - 2)),
            _ => None,
        };
        assert_eq!(
            cnav_ura_nominal_m(index).map(to_f64),
            expected,
            "CNAV URA index {index}"
        );
    }

    assert_eq!(cnav_ura_nominal_m(1), Some(d(2.8)));
    assert_eq!(cnav_ura_nominal_m(3), Some(d(5.7)));
    assert_eq!(cnav_ura_nominal_m(5), Some(d(11.3)));
    assert_eq!(cnav_ura_nominal_m(-16), None);
    assert_eq!(cnav_ura_nominal_m(15), None);
    assert_eq!(cnav_ura_nominal_m(-17), None);
    assert_eq!(
        cnav_ura_nominal_m(6),
        Some(d(16.0))
    );
    assert_eq!(
        cnav_ura_nominal_m(7),
        Some(d(32.0))
    );
}

#[test]
fn cnav_ura_ned_has_93600_second_knee_and_week_rollover() {
    let mut params = CnavParameters {
        adot_m_s: d(0.0),
        delta_n0_dot_rad_s2: d(0.0),
        top: broadcast_time(GnssSystem::Gps, 2425, 100_000.0),
        ura_ed_index: 0,
        ura_ned0_index: 0,
        ura_ned1_index: 0,
        ura_ned2_index: 0,
        transmission_time_sow: d(0.0),
        flags: None,
    };
    let ned0 = to_f64(cnav_ura_nominal_m(0).expect("URA NED0"));
    let ned1 = 2.0_f64.powi(-14);
    let ned2 = 2.0_f64.powi(-28);
    let value = |params: &CnavParameters, t: GnssWeekTow| -> f64 {
        let bound = cnav_ura_ned_m(params, t).expect("URA");
        let linear = to_f64(bound.ned0_m) + 2.0_f64.powi(bound.linear_power) * bound.elapsed.whole as f64;
        match bound.square {
            None => linear,
            Some((power, past)) => {
                linear + 2.0_f64.powi(power) * past.whole as f64 * past.whole as f64
            }
        }
    };

    let knee = value(&params, broadcast_time(GnssSystem::Gps, 2425, 193_600.0));
    assert_eq!(
        knee.to_bits(),
        (ned0 + ned1 * 93_600.0).to_bits(),
        "the quadratic term starts after the 93600 s knee"
    );

    let after = value(&params, broadcast_time(GnssSystem::Gps, 2425, 193_601.0));
    assert_eq!(
        after.to_bits(),
        (ned0 + ned1 * 93_601.0 + ned2).to_bits(),
        "one second past the knee includes one squared second of NED2"
    );

    params.top = broadcast_time(GnssSystem::Gps, 2425, 604_700.0);
    let rollover = value(&params, broadcast_time(GnssSystem::Gps, 2426, 100.0));
    assert_eq!(
        rollover.to_bits(),
        (ned0 + ned1 * 200.0).to_bits(),
        "WNop/TOP rollover must use continuous GPS time"
    );
}

#[test]
fn cnav_isc_all_six_signals_and_dual_frequency_numeric() {
    let delays = BroadcastGroupDelays::cnav(
        Some(d(10.0e-9)),
        Some(d(1.0e-9)),
        Some(d(2.0e-9)),
        Some(d(3.0e-9)),
        Some(d(4.0e-9)),
        Some(d(5.0e-9)),
        Some(d(6.0e-9)),
    );

    for (signal, isc, expected) in [
        (CnavSignal::L1Ca, 1.0e-9, 9.0e-9_f64),
        (CnavSignal::L2C, 2.0e-9, 8.0e-9_f64),
        (CnavSignal::L5I5, 3.0e-9, 7.0e-9_f64),
        (CnavSignal::L5Q5, 4.0e-9, 6.0e-9_f64),
        (CnavSignal::L1Cd, 5.0e-9, 5.0e-9_f64),
        (CnavSignal::L1Cp, 6.0e-9, 4.0e-9_f64),
    ] {
        assert_eq!(
            delays.cnav_single_frequency_correction_s(signal),
            Some(GroupDelay::Difference(d(10.0e-9), d(isc))),
            "{signal:?}"
        );
        assert_eq!((10.0e-9_f64 - isc).to_bits(), expected.to_bits(), "{signal:?}");
    }
}

#[test]
fn cnav_no_prediction_ura_records_yield_no_state_from_default_store_but_manual_store_serves_them() {
    let mut text = String::from(V4_NAV_HEADER);
    for (sat, ura) in [
        ("G03", "1.500000000000e+01"),
        ("G04", "-1.600000000000e+01"),
    ] {
        let mut lines = cnav_lines(sat);
        lines[6] = replace_orbit_field(&lines[6], 0, ura);
        text.push_str(&format!("> EPH {sat} CNAV\n"));
        push_owned_lines(&mut text, &lines);
    }

    let recs = parse_nav(&text).expect("parse no-prediction CNAV records");
    assert_eq!(recs.len(), 2);
    assert!(
        recs.iter().all(|record| record
            .cnav
            .map(|cnav| cnav_ura_nominal_m(cnav.ura_ed_index).is_none())
            .unwrap_or(false)),
        "both CNAV records carry no-prediction URA indices"
    );

    let manual = BroadcastStore::new(recs).expect("manual store keeps policy-explicit records");
    assert_eq!(manual.records().len(), 2);

    let default = BroadcastStore::from_nav(&text).expect("default store parses no-prediction CNAV");
    assert_eq!(default.records().len(), 2, "the records are held");
    for record in default.records() {
        let t = toe_plus(record, 0.0);
        assert_eq!(
            default.select_record_at(record.satellite_id, t),
            None,
            "a selected CNAV record with URA index 15 or -16 yields no state"
        );
        assert!(manual
            .select_record_at(record.satellite_id, t)
            .is_some());
    }
}

#[test]
fn select_by_iode_ignores_cnav_issue_collisions() {
    let lnav = parse_nav(&format!("{V3_NAV_HEADER}{}", join(G01_LINES)))
        .expect("parse LNAV")
        .remove(0);
    let mut cnav = cnav_record_from_legacy(lnav, GnssSystem::Gps, 1, NavMessage::GpsCnav);
    let lnav_issue = lnav.issue_of_data.expect("LNAV issue").issue;
    cnav.issue_of_data = Some(BroadcastIssue {
        issue: lnav_issue,
        message: NavMessage::GpsCnav,
    });
    cnav.clock.af0 = d(1.0e-3);

    let store = BroadcastStore::new(vec![cnav, lnav]).expect("manual IODE collision store");
    let query = toe_plus(&lnav, 0.0);
    let iode = u8::try_from(lnav_issue).expect("LNAV IODE fits u8");
    let selected = store
        .select_by_iode_at(lnav.satellite_id, iode, query)
        .expect("select LNAV by IODE");
    assert_eq!(selected.message, NavMessage::GpsLnav);
}

#[test]
fn broadcast_store_prefers_legacy_by_default_and_can_select_cnav() {
    let mut text = String::from(V4_NAV_HEADER);
    text.push_str("> EPH G01 LNAV\n");
    text.push_str(&join(G01_LINES));
    text.push_str("> EPH G01 CNAV\n");
    push_owned_lines(&mut text, &cnav_lines("G01"));

    let mut store = BroadcastStore::from_nav(&text).expect("parse mixed LNAV/CNAV store");
    let sat = GnssSatelliteId::new(GnssSystem::Gps, 1).unwrap();
    assert_eq!(
        store.message_preference(),
        NavMessagePreference::PreferLegacy
    );
    let lnav = *store
        .records()
        .iter()
        .find(|r| r.message == NavMessage::GpsLnav)
        .expect("LNAV record");
    let cnav = *store
        .records()
        .iter()
        .find(|r| r.message == NavMessage::GpsCnav)
        .expect("CNAV record");
    let query = toe_plus(&lnav, 0.0);
    assert_eq!(store.select_record_at(sat, query), Some(&lnav));
    store.set_message_preference(NavMessagePreference::PreferModern);
    assert_eq!(store.select_record_at(sat, query), Some(&cnav));
}

#[test]
fn equal_toe_cnav_goes_before_cnv2() {
    let mut text = String::from(V4_NAV_HEADER);
    text.push_str("> EPH J02 CNV2\n");
    push_owned_lines(&mut text, &cnv2_lines("J02"));
    text.push_str("> EPH J02 CNAV\n");
    push_owned_lines(&mut text, &cnav_lines("J02"));
    let recs = parse_nav(&text).expect("parse CNAV and CNV2");
    let (cnv2, cnav) = (recs[0], recs[1]);
    assert_eq!(cnav.toe, cnv2.toe);
    for records in [vec![cnav, cnv2], vec![cnv2, cnav]] {
        let mut store = BroadcastStore::new(records).expect("manual CNAV/CNV2 store");
        store.set_message_preference(NavMessagePreference::PreferModern);
        let selected = store.select_record_at(cnav.satellite_id, toe_plus(&cnav, 0.0));
        assert_eq!(selected.expect("a record").message, NavMessage::QzssCnav);
    }
}

#[test]
fn cnav_top_borrowing_a_week_reaches_a_stable_encoding() {
    let mut lines = cnav_lines("G03");
    // Orbit line 3 column 1 is `top`, seconds of the WNop week.
    lines[3] = cnav_orbit_line([
        Some(-5.714_523_747_137e-11),
        Some(-1.508_742_570_877e-7),
        Some(2.572_838_528_869),
        Some(1.359_730_958_939e-7),
    ]);

    let mut text = String::from(V4_NAV_HEADER);
    text.push_str("> EPH G03 CNAV\n");
    push_owned_lines(&mut text, &lines);

    let records = parse_nav(&text).expect("parse CNAV record with a borrowed week");
    let cnav = records[0].cnav.expect("CNAV record carries cnav data");
    assert!(
        (0..604_800).contains(&cnav.top.tow_s.whole),
        "parsed top must hold a seconds-of-week value, got week {} tow {:?}",
        cnav.top.week,
        cnav.top.tow_s
    );

    let encoded = encode_nav(&records).expect("encode NAV");
    let reparsed = parse_nav(&encoded).expect("reparse encoded CNAV record");
    assert_eq!(
        encode_nav(&reparsed).expect("encode NAV"),
        encoded,
        "encoding must be a fixed point across the week boundary"
    );
}

#[test]
fn cnav_top_set_outside_the_week_still_reaches_a_stable_encoding() {
    let mut text = String::from(V4_NAV_HEADER);
    text.push_str("> EPH G03 CNAV\n");
    push_owned_lines(&mut text, &cnav_lines("G03"));
    let mut records = parse_nav(&text).expect("parse CNAV record");

    // (a) a tiny negative TOW that normalizes to a value the column rounds
    //     back up to a full week; (b) a TOW of exactly one week.
    for (week, tow_s) in [(9_u32, -1.0e-8_f64), (8, 604_800.0)] {
        let cnav = records[0]
            .cnav
            .as_mut()
            .expect("CNAV record carries cnav data");
        cnav.top = GnssWeekTow::new(TimeScale::Gpst, week, secs(tow_s));
        let encoded = encode_nav(&records).expect("encode NAV");
        let reparsed = parse_nav(&encoded).expect("reparse encoded CNAV record");
        assert_eq!(
            encode_nav(&reparsed).expect("encode NAV"),
            encoded,
            "top ({week}, {tow_s:?}) must encode to a fixed point"
        );
        let top = reparsed[0].cnav.expect("cnav").top;
        assert!(
            (0..604_800).contains(&top.tow_s.whole),
            "reparsed top must hold a seconds-of-week value, got ({}, {:?})",
            top.week,
            top.tow_s
        );
    }
}

/// A RINEX 4 text with the frames of one short file: GPS and QZSS legacy, CNAV and CNV2 records, and
/// a BeiDou CNV2 frame, which is not decoded.
fn mixed_frames_text() -> String {
    let mut text = String::from(V4_NAV_HEADER);
    for (marker, lines) in [
        ("> EPH G01 LNAV", satellite_lines(G01_LINES, "G01")),
        ("> EPH G02 LNAV", satellite_lines(G01_LINES, "G02")),
        ("> EPH J02 LNAV", satellite_lines(G01_LINES, "J02")),
        ("> EPH G01 CNAV", cnav_lines("G01")),
        ("> EPH G03 CNAV", cnav_lines("G03")),
        ("> EPH J02 CNAV", cnav_lines("J02")),
        ("> EPH J02 CNV2", cnv2_lines("J02")),
        ("> EPH C20 CNV2", cnv2_lines("C20")),
    ] {
        text.push_str(marker);
        text.push('\n');
        push_owned_lines(&mut text, &lines);
    }
    text
}

#[test]
fn real_brdc4_cnav_fixture_counts_and_skips_unsupported_frames() {
    let recs = parse_nav(&mixed_frames_text()).expect("parse CNAV RINEX 4 frames");
    assert_eq!(recs.len(), 7);
    let count = |message: NavMessage| recs.iter().filter(|r| r.message == message).count();
    assert_eq!(count(NavMessage::GpsLnav), 2);
    assert_eq!(count(NavMessage::QzssLnav), 1);
    assert_eq!(count(NavMessage::GpsCnav), 2);
    assert_eq!(count(NavMessage::QzssCnav), 1);
    assert_eq!(count(NavMessage::QzssCnav2), 1);
    assert!(
        recs.iter().all(|record| record.satellite_id.system != GnssSystem::BeiDou),
        "BeiDou CNV2 frame in the fixture must remain skipped"
    );
}

#[test]
fn real_brdc4_lenient_matches_strict_and_keeps_cnav_records() {
    let text = mixed_frames_text();
    let strict = parse_nav(&text).expect("strictly parse CNAV frames");
    let lenient = parse_nav_lenient(&text).expect("leniently parse CNAV frames");
    assert_eq!(lenient.records, strict);
    assert!(lenient.skipped.is_empty(), "fixture blocks were skipped");
    assert_eq!(
        lenient.records.iter().filter(|record| record.message.is_cnav_family()).count(),
        4
    );
}

//! Reading of Keplerian and SBAS records, headers and data frames.

#![allow(dead_code, unused_imports)]

use sidereon_nav::body::{NavEntry, NavItem};
use sidereon_nav::decimal::Decimal;
use sidereon_nav::epoch::{exact_week_tow_epoch, ExactEpoch};
use sidereon_nav::error::{
    NavDiagnostic, NavParseError, OtherNavBlockKind, SkippedGlonass,
};
use sidereon_nav::file::{
    parse_glonass, parse_glonass_lenient, parse_iono_corrections, parse_leap_seconds, parse_nav,
    parse_nav_file, parse_nav_lenient, parse_sbas, NavFile,
};
use sidereon_nav::frames::IonosphereModel;
use sidereon_nav::id::{GnssSatelliteId, GnssSystem};
use sidereon_nav::record::{
    cnav_ura_nominal_m, is_beidou_geo, BroadcastGroupDelays, BroadcastIssue, BroadcastRecord,
    ClockPolynomial, CnavParameters, CnavSignal, ConstellationConstants, GlonassRecord, GroupDelay,
    KeplerianElements, KlobucharAlphaBeta, NavMessage, NavVersion, StatedNavFields,
};
use sidereon_nav::store::{BroadcastStore, NavMessagePreference};
use sidereon_nav::time::{GnssWeekTow, NavEpoch, Seconds, TimeScale};
use sidereon_nav::write::{encode_nav, encode_nav_file, NavWriteError};

/// The number a double prints as.
fn d(x: f64) -> Decimal {
    let text = format!("{:e}", x.abs());
    let (mantissa, exponent) = text.split_once('e').unwrap();
    let exponent: i32 = exponent.parse().unwrap();
    let fraction = mantissa.split_once('.').map_or(0, |(_, f)| f.len() as i32);
    let mut digits: u128 = mantissa.replace('.', "").parse().unwrap();
    let mut exponent = exponent - fraction;
    if digits == 0 {
        return Decimal::zero();
    }
    while digits % 10 == 0 {
        digits /= 10;
        exponent += 1;
    }
    Decimal { negative: x < 0.0, digits, exponent }
}

/// A time of a whole and a fraction.
fn secs(x: f64) -> Seconds {
    Seconds::from_decimal(d(x))
}

/// The instant `offset` seconds after a record's `toe`, in GPS time.
fn toe_plus(record: &BroadcastRecord, offset: f64) -> ExactEpoch {
    let native = exact_week_tow_epoch(record.toe);
    let bdt = if record.satellite_id.system == GnssSystem::BeiDou { 14.0 } else { 0.0 };
    native.checked_add_seconds(d(offset)).unwrap().checked_add_seconds(d(bdt)).unwrap()
}

/// The instant `offset` seconds after another.
fn later(t: ExactEpoch, offset: f64) -> ExactEpoch {
    t.checked_add_seconds(d(offset)).unwrap()
}

fn civil(year: i32, month: u8, day: u8, hour: u8, minute: u8, second: f64) -> NavEpoch {
    NavEpoch { year, month, day, hour, minute, second: d(second) }
}

fn d19_12(value: f64) -> String {
    let mut out = String::new();
    d(value).push_d19_12(&mut out);
    out
}

fn broadcast_time(system: GnssSystem, week: u32, sow: f64) -> GnssWeekTow {
    let scale = match system {
        GnssSystem::Galileo => TimeScale::Gst,
        GnssSystem::BeiDou => TimeScale::Bdt,
        _ => TimeScale::Gpst,
    };
    GnssWeekTow::new(scale, week, secs(sow)).normalized().unwrap()
}

const G01_LINES: &[&str] = &[
    "G01 2020 06 25 04 00 00 1.604342833161e-05 7.048583938740e-12 0.000000000000e+00",
    "     5.800000000000e+01-3.968750000000e+01 4.304822170265e-09 6.342094507864e-01",
    "    -2.177432179451e-06 1.000394229777e-02 1.937150955200e-06 5.153707128525e+03",
    "     3.600000000000e+05-1.508742570877e-07 2.572838528869e+00 1.359730958939e-07",
    "     9.806518601091e-01 3.539687500000e+02 7.941703015008e-01-8.384634967987e-09",
    "    -5.714523747137e-11 1.000000000000e+00 2.111000000000e+03 0.000000000000e+00",
    "     2.000000000000e+00 0.000000000000e+00 5.122274160385e-09 5.800000000000e+01",
    "     3.561060000000e+05 4.000000000000e+00",
];

const E01_LINES: &[&str] = &[
    "E01 2020 06 24 23 30 00-8.846927667037e-04-7.972289495228e-12 0.000000000000e+00",
    "     6.100000000000e+01 1.865625000000e+01 2.656539226950e-09-1.832282909549e+00",
    "     8.568167686462e-07 9.650341235101e-05 1.049041748047e-05 5.440602037430e+03",
    "     3.438000000000e+05 1.862645149231e-09 2.123282284601e-01-1.452863216400e-07",
    "     9.828296477370e-01 1.298750000000e+02-2.778709093141e+00-5.216288707934e-09",
    "    -6.996720012901e-10 2.580000000000e+02 2.111000000000e+03",
    "     3.120000000000e+00 0.000000000000e+00-1.862645149231e-09 0.000000000000e+00",
    "     3.445400000000e+05",
];

const R01_GLONASS_LINES: &[&str] = &[
    "R01 2020 06 24 23 15 00 6.355904042721e-05 0.000000000000e+00 3.420000000000e+05",
    "     1.090894238281e+04 1.407806396484e+00-1.862645149231e-09 0.000000000000e+00",
    "    -2.885726074219e+03 2.795855522156e+00-0.000000000000e+00 1.000000000000e+00",
    "     2.288353955078e+04-3.169984817505e-01-2.793967723846e-09 0.000000000000e+00",
];

const S20_LINES: &[&str] = &[
    "S20 2020 06 25 00 01 36 1.117587089539e-08 0.000000000000e+00 3.456960000000e+05",
    "     4.063093080000e+04 1.200000000000e-03 1.000000000000e-07 0.000000000000e+00",
    "    -1.126480640000e+04-2.400000000000e-03 0.000000000000e+00 4.000000000000e+00",
    "     2.000000000000e+01 1.000000000000e-04 0.000000000000e+00 2.200000000000e+01",
];

const V4_NAV_HEADER: &str =
    "     4.00           NAVIGATION DATA     M                   RINEX VERSION / TYPE\n\
     XXX                                                         END OF HEADER\n";

const V3_NAV_HEADER: &str =
    "     3.05           NAVIGATION DATA     M                   RINEX VERSION / TYPE\n\
     XXX                                                         END OF HEADER\n";

fn gps_nav_text_with_epoch_field(start: usize, end: usize, value: &str) -> String {
    let mut lines: Vec<String> = G01_LINES.iter().map(ToString::to_string).collect();
    lines[0].replace_range(start..end, value);

    let mut text = String::from(V3_NAV_HEADER);
    for line in lines {
        text.push_str(&line);
        text.push('\n');
    }
    text
}

fn gps_nav_text_with_month(month: &str) -> String {
    gps_nav_text_with_epoch_field(9, 11, month)
}

fn glonass_text(lines: &[String]) -> String {
    nav_text_with_version("3.04", lines)
}

fn r01_glonass_lines() -> Vec<String> {
    R01_GLONASS_LINES.iter().map(ToString::to_string).collect()
}

fn nav_text_with_version(version: &str, lines: &[String]) -> String {
    let mut text = format!(
        "{version:>9}           NAVIGATION DATA     M                   RINEX VERSION / TYPE\n\
     XXX                                                         END OF HEADER\n"
    );
    for line in lines {
        text.push_str(line);
        text.push('\n');
    }
    text
}

fn nav_text(lines: &[String]) -> String {
    nav_text_with_version("3.05", lines)
}

fn g01_lines() -> Vec<String> {
    G01_LINES.iter().map(ToString::to_string).collect()
}

fn e01_lines() -> Vec<String> {
    E01_LINES.iter().map(ToString::to_string).collect()
}

fn satellite_lines(template: &[&str], token: &str) -> Vec<String> {
    assert_eq!(token.len(), 3);
    let mut lines: Vec<String> = template.iter().map(ToString::to_string).collect();
    lines[0].replace_range(0..3, token);
    lines
}

fn replace_orbit_field(line: &str, field_index: usize, value: &str) -> String {
    let ranges = [(4, 23), (23, 42), (42, 61), (61, 80)];
    let (start, end) = ranges[field_index];
    let field = format!("{value:>width$}", width = end - start);
    let mut out = format!("{line:<80}");
    out.replace_range(start..end, &field);
    out
}

fn blank_orbit_field(line: &str, field_index: usize) -> String {
    let ranges = [(4, 23), (23, 42), (42, 61), (61, 80)];
    let (start, end) = ranges[field_index];
    let mut out = format!("{line:<80}");
    out.replace_range(start..end, "                   ");
    out
}

fn cnav_orbit_line(values: [Option<f64>; 4]) -> String {
    let mut line = String::from("    ");
    for value in values {
        match value {
            Some(value) => line.push_str(&d19_12(value)),
            None => line.push_str("                   "),
        }
    }
    line
}

fn cnav_clock_line(sat: &str, af0: f64) -> String {
    let mut line = format!("{sat:<3} 2020 06 25 04 00 00");
    line.push_str(&d19_12(af0));
    line.push_str(&d19_12(7.0e-12));
    line.push_str(&d19_12(0.0));
    line
}

fn cnav_lines_with_clock(sat: &str, af0: f64) -> Vec<String> {
    vec![
        cnav_clock_line(sat, af0),
        cnav_orbit_line([
            Some(0.125),
            Some(-39.6875),
            Some(4.304822170265e-9),
            Some(0.6342094507864),
        ]),
        cnav_orbit_line([
            Some(-2.177432179451e-6),
            Some(0.01000394229777),
            Some(1.9371509552e-6),
            Some(5153.707128525),
        ]),
        cnav_orbit_line([
            Some(360_000.0),
            Some(-1.508742570877e-7),
            Some(2.572838528869),
            Some(1.359730958939e-7),
        ]),
        cnav_orbit_line([
            Some(0.9806518601091),
            Some(353.96875),
            Some(0.7941703015008),
            Some(-8.384634967987e-9),
        ]),
        cnav_orbit_line([
            Some(-5.714523747137e-11),
            Some(1.0e-18),
            Some(0.0),
            Some(2.0),
        ]),
        cnav_orbit_line([Some(1.0), Some(0.0), Some(5.122274160385e-9), Some(4.0)]),
        cnav_orbit_line([Some(1.0e-9), Some(2.0e-9), Some(3.0e-9), Some(4.0e-9)]),
        cnav_orbit_line([Some(356_106.0), Some(2111.0), Some(5.0), None]),
    ]
}

fn cnav_lines(sat: &str) -> Vec<String> {
    cnav_lines_with_clock(sat, 2.0e-4)
}

fn cnv2_lines(sat: &str) -> Vec<String> {
    let mut lines = cnav_lines_with_clock(sat, 3.0e-4);
    lines[8] = cnav_orbit_line([Some(6.0e-9), Some(7.0e-9), None, None]);
    lines.push(cnav_orbit_line([
        Some(356_106.0),
        Some(2111.0),
        Some(1.0),
        None,
    ]));
    lines
}

fn push_owned_lines(out: &mut String, lines: &[String]) {
    for line in lines {
        out.push_str(line);
        out.push('\n');
    }
}

fn join(lines: &[&str]) -> String {
    let mut s = lines.join("\n");
    s.push('\n');
    s
}

fn replace_fourth_orbit_field(line: &str, value: &str) -> String {
    assert_eq!(line.len(), 80);
    let field = format!("{value:>19}");
    assert_eq!(field.len(), 19);
    let mut out = line.to_string();
    out.replace_range(61..80, &field);
    out
}

fn nav_text_with_header_line(header_line: &str) -> String {
    format!(
        "     3.05           NAVIGATION DATA     M                   RINEX VERSION / TYPE\n\
{header_line}\n\
     XXX                                                         END OF HEADER\n{}",
        join(G01_LINES)
    )
}

fn header_record(content: &str, label: &str) -> String {
    format!("{content:<60}{label}\n")
}

fn v4_data_frames() -> String {
    let mut text = String::new();
    text.push_str("> ION G29 LNAV\n");
    text.push_str(
        "    2020 06 25 00 00 00 1.024454832077e-08 0.000000000000e+00 0.000000000000e+00\n",
    );
    text.push_str(
        "    -1.192092895508e-07 9.625600000000e+04 0.000000000000e+00 0.000000000000e+00\n",
    );
    text.push_str("    -5.898240000000e+05\n");
    text.push_str("> STO G01 LNAV\n");
    text.push_str(&format!(
        "    2020 06 25 00 00 00 {:<18} {:<18} {:<18}\n",
        "GPUT", "", "UTC(USNO)"
    ));
    text.push_str(
        "     3.456000000000e+05 9.313225746155e-10 2.664535259100e-15 0.000000000000e+00\n",
    );
    text.push_str("> EOP G01 CNVX\n");
    text.push_str(
        "    2020 06 25 00 00 00 1.000000000000e-01 2.000000000000e-03 0.000000000000e+00\n",
    );
    text.push_str(
        "                        3.000000000000e-01-4.000000000000e-03 0.000000000000e+00\n",
    );
    text.push_str(
        "     3.456000000000e+05-2.000000000000e-01 5.000000000000e-04 0.000000000000e+00\n",
    );
    text
}

use sidereon_nav::keplerian::gps_fit_interval_h;

#[test]
fn rejects_a_non_navigation_header() {
    // Header labels are read from columns 61-80, where the RINEX tables place them.
    let bogus = &format!(
        "{}{}",
        header_record(
            "     3.05           OBSERVATION DATA    M",
            "RINEX VERSION / TYPE"
        ),
        header_record("", "END OF HEADER")
    );
    assert!(matches!(
        parse_nav(bogus),
        Err(NavParseError::UnsupportedHeader(_))
    ));
}

#[test]
fn reports_missing_header_end() {
    let truncated =
        "     3.05           NAVIGATION DATA     M                   RINEX VERSION / TYPE\n";
    assert_eq!(parse_nav(truncated), Err(NavParseError::MissingHeaderEnd));
}

#[test]
fn rejects_zero_keplerian_nav_prns() {
    // The satellite-token range is 01..99, so `nn = 00` names no satellite in
    // any constellation and is a malformed PRN field, not a skip.
    for (token, template) in [("G00", G01_LINES), ("E00", E01_LINES), ("C00", G01_LINES)] {
        let lines = satellite_lines(template, token);

        let err = parse_nav(&nav_text(&lines)).expect_err("PRN 00 is not a satellite token");
        assert_eq!(
            err,
            NavParseError::BadField {
                satellite: token.to_string(),
                field: "prn",
            }
        );
    }
}

#[test]
fn keplerian_nav_prns_above_the_operational_roster_are_retained() {
    // Real products carry satellite numbers above the constellation's current
    // operational roster - the SP3-d identifier is a letter plus 01..99 and
    // says nothing about how many satellites are flying. G33, E37 and C64 must
    // load with their own ephemeris rather than being refused.
    let mut lines = satellite_lines(G01_LINES, "G33");

    let mut galileo = satellite_lines(E01_LINES, "E37");
    galileo[5] = replace_orbit_field(&galileo[5], 1, "5.120000000000e+02");
    lines.extend(galileo);
    lines.extend(satellite_lines(G01_LINES, "C64"));

    let store = BroadcastStore::from_nav(&nav_text(&lines))
        .expect("satellite numbers above the roster are ordinary tokens");
    let sats: Vec<_> = store
        .records()
        .iter()
        .map(|record| record.satellite_id)
        .collect();
    assert_eq!(sats.len(), 3);
    for expected in [
        GnssSatelliteId::new(GnssSystem::Gps, 33).expect("G33"),
        GnssSatelliteId::new(GnssSystem::Galileo, 37).expect("E37"),
        GnssSatelliteId::new(GnssSystem::BeiDou, 64).expect("C64"),
    ] {
        assert!(sats.contains(&expected), "{expected:?} must be retained");
    }

    // The retained record carries its own values, not a neighbour's.
    let g33 = store
        .records()
        .iter()
        .find(|r| r.satellite_id.prn == 33 && r.satellite_id.system == GnssSystem::Gps)
        .expect("G33 record present");
    let g01_store = BroadcastStore::from_nav(&nav_text(&g01_lines())).expect("G01 parses");
    let g01 = &g01_store.records()[0];
    assert_eq!(g33.elements.sqrt_a, g01.elements.sqrt_a);
    assert_eq!(g33.elements.e, g01.elements.e);
    assert_eq!(g33.clock.af0, g01.clock.af0);
    assert_eq!(g33.week, g01.week);
}

#[test]
fn beidou_geo_prns_are_one_to_five_and_fifty_nine_to_sixty_three() {
    let beidou = |prn| GnssSatelliteId::new(GnssSystem::BeiDou, prn).expect("valid satellite id");
    for prn in (1..=5).chain(59..=63) {
        assert!(is_beidou_geo(beidou(prn)), "C{prn:02}");
    }
    for prn in [6u8, 30, 46, 58, 64, 99] {
        assert!(!is_beidou_geo(beidou(prn)), "C{prn:02}");
    }
    assert!(!is_beidou_geo(
        GnssSatelliteId::new(GnssSystem::Gps, 1).expect("valid satellite id")
    ));

    let text = nav_text(&satellite_lines(G01_LINES, "C62"));
    let records = parse_nav(&text).expect("a C62 record parses");
    assert_eq!(records.len(), 1);
    assert_eq!(records[0].satellite_id, beidou(62));
    assert_eq!(records[0].message, NavMessage::BeidouD2);
}

#[test]
fn valid_edge_keplerian_nav_prns_parse_into_broadcast_store() {
    let mut lines = satellite_lines(G01_LINES, "G32");

    let mut galileo = satellite_lines(E01_LINES, "E36");
    galileo[5] = replace_orbit_field(&galileo[5], 1, "5.120000000000e+02");
    lines.extend(galileo);
    lines.extend(satellite_lines(G01_LINES, "C63"));

    let store = BroadcastStore::from_nav(&nav_text(&lines)).expect("valid edge PRNs parse");
    let sats: Vec<_> = store
        .records()
        .iter()
        .map(|record| record.satellite_id)
        .collect();

    assert_eq!(sats.len(), 3);
    assert!(sats.contains(&GnssSatelliteId::new(GnssSystem::Gps, 32).expect("valid satellite id")));
    assert!(
        sats.contains(&GnssSatelliteId::new(GnssSystem::Galileo, 36).expect("valid satellite id"))
    );
    assert!(
        sats.contains(&GnssSatelliteId::new(GnssSystem::BeiDou, 63).expect("valid satellite id"))
    );
}

#[test]
fn rejects_nonfinite_orbital_field() {
    let mut lines = g01_lines();
    lines[2] = replace_orbit_field(&lines[2], 1, "NaN");

    let err = parse_nav(&nav_text(&lines)).expect_err("NaN eccentricity must be a bad field");
    assert_eq!(
        err,
        NavParseError::BadField {
            satellite: "G01".to_string(),
            field: "e",
        }
    );
}

#[test]
fn rejects_nonintegral_nonfinite_or_oversized_week_field() {
    for value in ["2.111500000000e+03", "NaN", "4.294967296000e+09"] {
        let mut lines = g01_lines();
        lines[5] = replace_orbit_field(&lines[5], 2, value);

        let err =
            parse_nav(&nav_text(&lines)).expect_err("invalid broadcast week must be a bad field");
        assert_eq!(
            err,
            NavParseError::BadField {
                satellite: "G01".to_string(),
                field: "week",
            }
        );
    }
}

#[test]
fn rejects_malformed_galileo_data_source_word() {
    for value in ["-1.000000000000e+00", "", "not-a-number"] {
        let mut lines = e01_lines();
        lines[5] = replace_orbit_field(&lines[5], 1, value);

        let err = parse_nav(&nav_text(&lines))
            .expect_err("malformed Galileo data-source word must not cast to u32");
        assert_eq!(
            err,
            NavParseError::BadField {
                satellite: "E01".to_string(),
                field: "data sources",
            }
        );
    }
}

#[test]
fn from_nav_reports_malformed_header_ionosphere_coefficients_and_keeps_the_records() {
    let text = nav_text_with_header_line(
        "GPSA not-a-float                                            IONOSPHERIC CORR",
    );

    let store = BroadcastStore::from_nav(&text).expect("the records survive a bad header row");
    assert_eq!(store.records().len(), 1);
    assert_eq!(store.iono_corrections().gps, None);
    assert_eq!(
        *store.departures(),
        vec![NavDiagnostic {
            line: 2,
            satellite: String::new(),
            error: NavParseError::BadHeaderField {
                field: "ionospheric correction",
            },
        }]
    );
}

#[test]
fn public_helper_rejects_malformed_header_ionosphere_coefficients() {
    let text = nav_text_with_header_line(
        "GPSA not-a-float                                            IONOSPHERIC CORR",
    );

    let err = parse_iono_corrections(&text)
        .expect_err("malformed IONOSPHERIC CORR field must be an error");
    assert_eq!(
        err,
        NavParseError::BadHeaderField {
            field: "ionospheric correction",
        }
    );
}

#[test]
fn from_nav_reports_malformed_leap_seconds_and_keeps_the_records() {
    let text = nav_text_with_header_line(
        "bad                                                         LEAP SECONDS",
    );

    let store = BroadcastStore::from_nav(&text).expect("the records survive a bad header row");
    assert_eq!(store.records().len(), 1);
    assert_eq!(store.header().and_then(|h| h.leap_seconds.clone()), None);
    assert_eq!(
        *store.departures(),
        vec![NavDiagnostic {
            line: 2,
            satellite: String::new(),
            error: NavParseError::BadHeaderField {
                field: "leap seconds",
            },
        }]
    );
}

#[test]
fn public_helper_rejects_malformed_leap_seconds() {
    let text = nav_text_with_header_line(
        "bad                                                         LEAP SECONDS",
    );

    let err = parse_leap_seconds(&text).expect_err("malformed LEAP SECONDS field must be an error");
    assert_eq!(
        err,
        NavParseError::BadHeaderField {
            field: "leap seconds",
        }
    );
}

#[test]
fn rinex_v4_empty_eph_frame_is_truncated_record() {
    let text = format!("{V4_NAV_HEADER}> EPH G01 LNAV\n");

    assert!(matches!(
        parse_nav(&text),
        Err(NavParseError::TruncatedRecord(_))
    ));
}

#[test]
fn rinex_v4_rejects_marker_body_satellite_mismatch() {
    let text = format!("{V4_NAV_HEADER}> EPH E01 INAV\n{}", join(G01_LINES));

    let err = parse_nav(&text).expect_err("marker SV must match body SV");
    assert_eq!(
        err,
        NavParseError::BadField {
            satellite: "E01".to_string(),
            field: "frame marker",
        }
    );
}

#[test]
fn rinex_v4_rejects_marker_message_for_body_system_mismatch() {
    let text = format!("{V4_NAV_HEADER}> EPH E01 D1\n{}", join(E01_LINES));

    let err = parse_nav(&text).expect_err("marker message must match body constellation");
    assert_eq!(
        err,
        NavParseError::BadField {
            satellite: "E01".to_string(),
            field: "message",
        }
    );
}

#[test]
fn rejects_out_of_range_toc_epoch_month() {
    for month in ["00", "13"] {
        let err = parse_nav(&gps_nav_text_with_month(month))
            .expect_err("out-of-range TOC epoch month must be a parse error");
        assert_eq!(
            err,
            NavParseError::BadField {
                satellite: "G01".to_string(),
                field: "toc epoch",
            }
        );
    }
}

#[test]
fn rejects_out_of_range_toc_epoch_date_time() {
    for (start, end, value) in [(12, 14, "31"), (15, 17, "24"), (21, 23, "60")] {
        let err = parse_nav(&gps_nav_text_with_epoch_field(start, end, value))
            .expect_err("out-of-range TOC epoch field must be a parse error");
        assert_eq!(
            err,
            NavParseError::BadField {
                satellite: "G01".to_string(),
                field: "toc epoch",
            }
        );
    }
}

#[test]
fn accepts_v4_nav_header_rejects_v4_non_nav() {
    // A 4.00 NAV header with one frame parses.
    let ok = format!("{V4_NAV_HEADER}> EPH G01 LNAV\n{}", join(G01_LINES));
    assert_eq!(parse_nav(&ok).expect("v4 NAV header accepted").len(), 1);

    // A 4.00 header that is not a navigation file (column 20 != 'N') is rejected.
    let bogus = &format!(
        "{}{}",
        header_record(
            "     4.00           OBSERVATION DATA    M",
            "RINEX VERSION / TYPE"
        ),
        header_record("", "END OF HEADER")
    );
    assert!(matches!(
        parse_nav(bogus),
        Err(NavParseError::UnsupportedHeader(_))
    ));
}

#[test]
fn gps_iono_corr_with_three_coefficients_is_rejected() {
    // GPS Klobuchar requires all four coefficients (alpha0..alpha3). A truncated
    // 3-column GPSA row is malformed and must error, not be silently accepted
    // with alpha3 defaulted to 0 (which would corrupt the ionospheric model).
    let four = "GPSA   4.6566e-09  1.4901e-08 -5.9605e-08 -1.1921E-07       IONOSPHERIC CORR";
    let mut three = format!("{four:<53}");
    three.replace_range(41..53, &" ".repeat(12));

    let err = parse_iono_corrections(&nav_text_with_header_line(&three))
        .expect_err("a truncated 3-coefficient GPS Klobuchar line must be rejected");
    assert!(
        matches!(err, NavParseError::BadHeaderField { .. }),
        "expected a malformed-header error, got {err:?}"
    );
}

#[test]
fn parse_nav_v3_refuses_unrecognized_system_letter() {
    let mut bad_lines = G01_LINES.to_vec();
    let l0 = bad_lines[0].replacen("G01", "Z01", 1);
    bad_lines[0] = &l0;
    let text = format!("{V3_NAV_HEADER}{}", join(&bad_lines));

    let err = parse_nav(&text).expect_err("unrecognized system Z must be refused");
    assert_eq!(
        err,
        NavParseError::BadField {
            satellite: "Z01".to_string(),
            field: "system",
        }
    );

    let lenient = parse_nav_lenient(&text).expect("lenient parse");
    assert!(lenient.records.is_empty());
    assert_eq!(lenient.skipped.len(), 1);
    assert_eq!(lenient.skipped[0].satellite, "Z01");
}

#[test]
fn parse_nav_v4_refuses_unknown_ephemeris_message_token() {
    let mut text = String::from(V4_NAV_HEADER);
    text.push_str("> EPH G01 UNKNOWN\n");
    text.push_str(&join(G01_LINES));

    let err = parse_nav(&text).expect_err("unknown v4 message token must be refused");
    assert_eq!(
        err,
        NavParseError::BadField {
            satellite: "G01".to_string(),
            field: "message",
        }
    );

    let lenient = parse_nav_lenient(&text).expect("lenient parse");
    assert!(lenient.records.is_empty());
    assert_eq!(lenient.skipped.len(), 1);
    assert_eq!(lenient.skipped[0].satellite, "G01");
}

#[test]
fn keplerian_parser_refuses_malformed_nonblank_group_delay() {
    let mut lines = g01_lines();
    lines[6] = replace_orbit_field(&lines[6], 2, "not-a-delay-float");
    let text = nav_text(&lines);
    let err = parse_nav(&text).expect_err("malformed GPS group delay must be refused");
    assert_eq!(
        err,
        NavParseError::BadField {
            satellite: "G01".to_string(),
            field: "gps tgd",
        }
    );

    let mut qzss_lines = satellite_lines(G01_LINES, "J01");
    qzss_lines[6] = replace_orbit_field(&qzss_lines[6], 2, "not-a-delay-float");
    let qzss_text = nav_text(&qzss_lines);
    let err = parse_nav(&qzss_text).expect_err("malformed QZSS group delay must be refused");
    assert_eq!(
        err,
        NavParseError::BadField {
            satellite: "J01".to_string(),
            field: "qzss tgd",
        }
    );

    let mut gal_lines = e01_lines();
    gal_lines[6] = replace_orbit_field(&gal_lines[6], 2, "not-a-delay-float");
    let gal_text = nav_text(&gal_lines);
    let err = parse_nav(&gal_text).expect_err("malformed Galileo group delay must be refused");
    assert_eq!(
        err,
        NavParseError::BadField {
            satellite: "E01".to_string(),
            field: "bgd e5a/e1",
        }
    );

    let mut bds_lines = satellite_lines(G01_LINES, "C19");
    bds_lines[6] = replace_orbit_field(&bds_lines[6], 3, "not-a-delay-float");
    let bds_text = nav_text(&bds_lines);
    let err = parse_nav(&bds_text).expect_err("malformed BeiDou group delay must be refused");
    assert_eq!(
        err,
        NavParseError::BadField {
            satellite: "C19".to_string(),
            field: "beidou tgd2",
        }
    );
}

#[test]
fn parse_nav_v4_eph_marker_validation_strict_and_lenient() {
    let make_v4 = |marker: &str, body_sat: &str| {
        let mut text = String::from(V4_NAV_HEADER);
        text.push_str(marker);
        text.push('\n');
        let mut body = g01_lines();
        body[0].replace_range(0..3, body_sat);
        for line in &body {
            text.push_str(line);
            text.push('\n');
        }
        text
    };

    // 1. Standard valid marker with standard body line
    let text = make_v4("> EPH G01 LNAV", "G01");
    let recs = parse_nav(&text).expect("valid standard G01 marker");
    assert_eq!(recs.len(), 1);
    assert_eq!(
        recs[0].satellite_id,
        GnssSatelliteId::new(GnssSystem::Gps, 1).unwrap()
    );
    let lenient = parse_nav_lenient(&text).expect("lenient parse");
    assert_eq!(lenient.records.len(), 1);
    assert!(lenient.skipped.is_empty());

    // 2. Space-padded marker with standard body line
    let text = make_v4("> EPH G 1 LNAV", "G01");
    let recs = parse_nav(&text).expect("valid space-padded G 1 marker");
    assert_eq!(recs.len(), 1);
    assert_eq!(
        recs[0].satellite_id,
        GnssSatelliteId::new(GnssSystem::Gps, 1).unwrap()
    );
    let lenient = parse_nav_lenient(&text).expect("lenient parse");
    assert_eq!(lenient.records.len(), 1);
    assert!(lenient.skipped.is_empty());

    // 3. Space-padded body line: proves existing body parser natively supports G 1
    let text = make_v4("> EPH G 1 LNAV", "G 1");
    let recs = parse_nav(&text).expect("valid space-padded marker and body");
    assert_eq!(recs.len(), 1);
    assert_eq!(
        recs[0].satellite_id,
        GnssSatelliteId::new(GnssSystem::Gps, 1).unwrap()
    );
    let text_std_marker = make_v4("> EPH G01 LNAV", "G 1");
    let recs = parse_nav(&text_std_marker).expect("standard marker with space-padded body");
    assert_eq!(recs.len(), 1);
    assert_eq!(
        recs[0].satellite_id,
        GnssSatelliteId::new(GnssSystem::Gps, 1).unwrap()
    );

    // 4. Lone constellation letter without PRN: > EPH G LNAV
    let text = make_v4("> EPH G LNAV", "G01");
    let err = parse_nav(&text).expect_err("lone constellation letter G must be refused");
    assert_eq!(
        err,
        NavParseError::BadField {
            satellite: "G".to_string(),
            field: "prn",
        }
    );
    let lenient = parse_nav_lenient(&text).expect("lenient parse");
    assert!(lenient.records.is_empty());
    assert_eq!(lenient.skipped.len(), 1);
    assert_eq!(lenient.skipped[0].satellite, "G");
    assert!(lenient.skipped[0].message.contains("prn"));

    // 5. Missing PRN on bare marker: > EPH G
    let text = make_v4("> EPH G", "G01");
    let err = parse_nav(&text).expect_err("bare lone constellation letter G must be refused");
    assert_eq!(
        err,
        NavParseError::BadField {
            satellite: "G".to_string(),
            field: "prn",
        }
    );
    let lenient = parse_nav_lenient(&text).expect("lenient parse");
    assert!(lenient.records.is_empty());
    assert_eq!(lenient.skipped.len(), 1);
    assert_eq!(lenient.skipped[0].satellite, "G");

    // 6. Invalid PRN (shifting prevented): > EPH G 101 LNAV and > EPH G101 LNAV
    let text = make_v4("> EPH G 101 LNAV", "G01");
    let err = parse_nav(&text).expect_err("invalid 3-digit PRN token must be refused");
    assert_eq!(
        err,
        NavParseError::BadField {
            satellite: "G 101".to_string(),
            field: "prn",
        }
    );
    let lenient = parse_nav_lenient(&text).expect("lenient parse");
    assert!(lenient.records.is_empty());
    assert_eq!(lenient.skipped.len(), 1);
    assert_eq!(lenient.skipped[0].satellite, "G 101");
    assert!(lenient.skipped[0].message.contains("prn"));

    let text = make_v4("> EPH G101 LNAV", "G01");
    let err = parse_nav(&text).expect_err("invalid G101 PRN must be refused");
    assert_eq!(
        err,
        NavParseError::BadField {
            satellite: "G101".to_string(),
            field: "prn",
        }
    );
    let lenient = parse_nav_lenient(&text).expect("lenient parse");
    assert!(lenient.records.is_empty());
    assert_eq!(lenient.skipped.len(), 1);
    assert_eq!(lenient.skipped[0].satellite, "G101");

    // 7. Unknown constellation Z: > EPH Z01 LNAV and > EPH Z 1 LNAV
    let text = make_v4("> EPH Z01 LNAV", "Z01");
    let err = parse_nav(&text).expect_err("unknown system Z01 must be refused");
    assert_eq!(
        err,
        NavParseError::BadField {
            satellite: "Z01".to_string(),
            field: "system",
        }
    );
    let lenient = parse_nav_lenient(&text).expect("lenient parse");
    assert!(lenient.records.is_empty());
    assert_eq!(lenient.skipped.len(), 1);
    assert_eq!(lenient.skipped[0].satellite, "Z01");

    let text = make_v4("> EPH Z 1 LNAV", "Z 1");
    let err = parse_nav(&text).expect_err("unknown system Z 1 must be refused");
    assert_eq!(
        err,
        NavParseError::BadField {
            satellite: "Z 1".to_string(),
            field: "system",
        }
    );
    let lenient = parse_nav_lenient(&text).expect("lenient parse");
    assert!(lenient.records.is_empty());
    assert_eq!(lenient.skipped.len(), 1);
    assert_eq!(lenient.skipped[0].satellite, "Z 1");

    // 8. Missing message token: > EPH G01 and > EPH G 1
    let text = make_v4("> EPH G01", "G01");
    let err = parse_nav(&text).expect_err("missing message token must be refused");
    assert_eq!(
        err,
        NavParseError::BadField {
            satellite: "G01".to_string(),
            field: "message",
        }
    );
    let lenient = parse_nav_lenient(&text).expect("lenient parse");
    assert!(lenient.records.is_empty());
    assert_eq!(lenient.skipped.len(), 1);
    assert_eq!(lenient.skipped[0].satellite, "G01");

    let text = make_v4("> EPH G 1", "G01");
    let err = parse_nav(&text).expect_err("missing message token must be refused");
    assert_eq!(
        err,
        NavParseError::BadField {
            satellite: "G 1".to_string(),
            field: "message",
        }
    );
    let lenient = parse_nav_lenient(&text).expect("lenient parse");
    assert!(lenient.records.is_empty());
    assert_eq!(lenient.skipped.len(), 1);
    assert_eq!(lenient.skipped[0].satellite, "G 1");

    // 9. Extra data tokens: > EPH G01 LNAV EXTRA and > EPH G 1 LNAV EXTRA
    let text = make_v4("> EPH G01 LNAV EXTRA", "G01");
    let err = parse_nav(&text).expect_err("extra marker token must be refused");
    assert_eq!(
        err,
        NavParseError::BadField {
            satellite: "G01".to_string(),
            field: "frame marker",
        }
    );
    let lenient = parse_nav_lenient(&text).expect("lenient parse");
    assert!(lenient.records.is_empty());
    assert_eq!(lenient.skipped.len(), 1);
    assert_eq!(lenient.skipped[0].satellite, "G01");

    let text = make_v4("> EPH G 1 LNAV EXTRA", "G01");
    let err = parse_nav(&text).expect_err("extra marker token must be refused");
    assert_eq!(
        err,
        NavParseError::BadField {
            satellite: "G 1".to_string(),
            field: "frame marker",
        }
    );
    let lenient = parse_nav_lenient(&text).expect("lenient parse");
    assert!(lenient.records.is_empty());
    assert_eq!(lenient.skipped.len(), 1);
    assert_eq!(lenient.skipped[0].satellite, "G 1");

    // 10. Marker/body satellite mismatch: > EPH G01 LNAV with body G02
    let text = make_v4("> EPH G01 LNAV", "G02");
    let err = parse_nav(&text).expect_err("mismatched marker and body satellite must be refused");
    assert_eq!(
        err,
        NavParseError::BadField {
            satellite: "G01".to_string(),
            field: "frame marker",
        }
    );
    let lenient = parse_nav_lenient(&text).expect("lenient parse");
    assert!(lenient.records.is_empty());
    assert_eq!(lenient.skipped.len(), 1);
    assert_eq!(lenient.skipped[0].satellite, "G01");
    assert!(lenient.skipped[0].message.contains("frame marker"));

    // 11. Recognized non-EPH grammars (ION, STO, EOP) must not be treated as malformed EPH.
    let mut mixed = String::from(V4_NAV_HEADER);
    mixed.push_str(&v4_data_frames());
    mixed.push_str("> EPH G01 LNAV\n");
    for line in &g01_lines() {
        mixed.push_str(line);
        mixed.push('\n');
    }
    let strict_recs = parse_nav(&mixed).expect("strict parse skips recognized non-EPH frames");
    assert_eq!(strict_recs.len(), 1);
    assert_eq!(
        strict_recs[0].satellite_id,
        GnssSatelliteId::new(GnssSystem::Gps, 1).unwrap()
    );
    let lenient = parse_nav_lenient(&mixed).expect("lenient parse");
    assert_eq!(lenient.records.len(), 1);
    assert!(
        lenient.skipped.is_empty(),
        "recognized non-EPH frames produce no skips"
    );
    assert_eq!(
        lenient.other.iter().map(|b| b.kind).collect::<Vec<_>>(),
        vec![
            OtherNavBlockKind::Ionosphere,
            OtherNavBlockKind::SystemTimeOffset,
            OtherNavBlockKind::EarthOrientation,
        ]
    );
}

#[test]
fn parse_nav_v4_skips_unsupported_r28_fdma_beside_supported_gps() {
    let mut text = String::from(V4_NAV_HEADER);
    text.push_str("> EPH R28 FDMA\n");
    for line in &satellite_lines(R01_GLONASS_LINES, "R28") {
        text.push_str(line);
        text.push('\n');
    }
    text.push_str("> EPH G01 LNAV\n");
    for line in &g01_lines() {
        text.push_str(line);
        text.push('\n');
    }

    let records =
        parse_nav(&text).expect("syntactically valid R28 FDMA frame must not abort reader");
    assert_eq!(records.len(), 1);
    assert_eq!(
        records[0].satellite_id,
        GnssSatelliteId::new(GnssSystem::Gps, 1).unwrap()
    );

    let lenient = parse_nav_lenient(&text).expect("lenient parse");
    assert_eq!(lenient.records.len(), 1);
    assert_eq!(
        lenient.records[0].satellite_id,
        GnssSatelliteId::new(GnssSystem::Gps, 1).unwrap()
    );
    assert!(
        lenient.skipped.is_empty(),
        "unsupported R28 FDMA frame must not introduce a skipped diagnostic"
    );

    // Also verify when the supported GPS frame precedes the unsupported R28 FDMA frame.
    let mut reverse = String::from(V4_NAV_HEADER);
    reverse.push_str("> EPH G01 LNAV\n");
    for line in &g01_lines() {
        reverse.push_str(line);
        reverse.push('\n');
    }
    reverse.push_str("> EPH R28 FDMA\n");
    for line in &satellite_lines(R01_GLONASS_LINES, "R28") {
        reverse.push_str(line);
        reverse.push('\n');
    }

    let records =
        parse_nav(&reverse).expect("syntactically valid R28 FDMA frame must not abort reader");
    assert_eq!(records.len(), 1);
    assert_eq!(
        records[0].satellite_id,
        GnssSatelliteId::new(GnssSystem::Gps, 1).unwrap()
    );

    let lenient = parse_nav_lenient(&reverse).expect("lenient parse");
    assert_eq!(lenient.records.len(), 1);
    assert_eq!(
        lenient.records[0].satellite_id,
        GnssSatelliteId::new(GnssSystem::Gps, 1).unwrap()
    );
    assert!(
        lenient.skipped.is_empty(),
        "unsupported R28 FDMA frame must not introduce a skipped diagnostic"
    );
}

#[test]
fn space_padded_record_start_is_a_record() {
    let mut lines = satellite_lines(G01_LINES, "G02");
    lines.extend(satellite_lines(G01_LINES, "G 1"));
    let recs = parse_nav(&nav_text(&lines)).expect("parse G02 then G 1");
    assert_eq!(
        recs.iter().map(|r| r.satellite_id.prn).collect::<Vec<_>>(),
        vec![2, 1]
    );

    let mut lines = g01_lines();
    lines.push("     1.000000000000e+00".to_string());
    let text = nav_text(&lines);
    assert_eq!(
        parse_nav(&text),
        Err(NavParseError::ExtraRecordLines {
            satellite: "G01".to_string()
        })
    );
    let lenient = parse_nav_lenient(&text).expect("lenient");
    assert_eq!(lenient.records.len(), 1);
    assert_eq!(lenient.departures.len(), 1);
    assert_eq!(lenient.departures[0].line, 3);

    // A blank line after a record is not a departure.
    let mut lines = g01_lines();
    lines.push(String::new());
    assert_eq!(parse_nav(&nav_text(&lines)).expect("blank line").len(), 1);

    // A non-blank line before the first record belongs to no record.
    let text = format!("{V3_NAV_HEADER}stray text\n{}", join(G01_LINES));
    assert_eq!(
        parse_nav(&text),
        Err(NavParseError::UnexpectedLine { line: 3 })
    );
    assert_eq!(parse_nav_lenient(&text).expect("lenient").records.len(), 1);
}

#[test]
fn from_nav_keeps_every_readable_record_and_reports_the_rest() {
    let mut lines = g01_lines();
    let mut bad_gps = satellite_lines(G01_LINES, "G02");
    bad_gps[2] = replace_orbit_field(&bad_gps[2], 1, "not-a-number");
    lines.extend(bad_gps);
    let mut galileo = e01_lines();
    galileo[5] = replace_orbit_field(&galileo[5], 1, "5.170000000000e+02");
    lines.extend(galileo.clone());
    let mut bad_galileo = satellite_lines(
        &galileo.iter().map(String::as_str).collect::<Vec<_>>(),
        "E02",
    );
    bad_galileo[1] = replace_orbit_field(&bad_galileo[1], 1, "");
    lines.extend(bad_galileo);
    lines.extend(r01_glonass_lines());
    let mut bad_glonass = satellite_lines(R01_GLONASS_LINES, "R02");
    bad_glonass[1] = replace_fourth_orbit_field(&bad_glonass[1], "");
    lines.extend(bad_glonass);
    let text = nav_text_with_version("3.04", &lines);

    assert!(parse_nav(&text).is_err());
    let store = BroadcastStore::from_nav(&text).expect("one bad record per system");
    assert_eq!(store.records().len(), 2, "G01 and E01");
    assert_eq!(store.glonass_records().len(), 1, "R01");
    let skipped: Vec<(usize, &str)> = store
        .skipped()
        .iter()
        .map(|s| (s.line, s.satellite.as_str()))
        .collect();
    assert_eq!(skipped, vec![(11, "G02"), (27, "E02"), (39, "R02")]);
    assert!(store.skipped()[0].message.contains("e field"));
}

#[test]
fn parses_rinex_v4_eph_frames_and_skips_the_rest() {
    // One GPS LNAV EPH frame, plus an unsupported BeiDou CNV2 frame and an STO
    // frame that must be skipped. GPS/QZSS CNV2 is handled in separate tests
    // because that token is system-overloaded.
    let mut text = String::from(V4_NAV_HEADER);
    text.push_str("> EPH G01 LNAV\n");
    text.push_str(&join(G01_LINES));
    text.push_str("> EPH C19 CNV2\n");
    push_owned_lines(&mut text, &cnav_lines("C19"));
    text.push_str("> STO G01 LNAV\n");
    text.push_str("    2020 06 25 00 00 00 GPUT 0.0 0.0 0 0\n");

    let recs = parse_nav(&text).expect("parse v4 NAV");
    assert_eq!(recs.len(), 1, "only the LNAV EPH frame is parsed");
    assert_eq!(
        recs[0].satellite_id,
        GnssSatelliteId::new(GnssSystem::Gps, 1).expect("valid satellite id")
    );
    assert_eq!(recs[0].message, NavMessage::GpsLnav);

    // The v4 record must equal the same block parsed as v3, field for field.
    let v3_text = format!("{V3_NAV_HEADER}{}", join(G01_LINES));
    let v3 = parse_nav(&v3_text).expect("parse v3 NAV");
    assert_eq!(v3.len(), 1);
    assert_eq!(recs[0].elements, v3[0].elements, "elements differ v4 vs v3");
    assert_eq!(recs[0].clock, v3[0].clock, "clock differs v4 vs v3");
    assert_eq!(recs[0].week, v3[0].week);
    assert_eq!(recs[0].fit_interval_h, v3[0].fit_interval_h);
}

#[test]
fn rinex_v4_message_type_comes_from_the_marker() {
    // The v3 data-source-word rule infers F/NAV for this Galileo block...
    let v3_text = format!("{V3_NAV_HEADER}{}", join(E01_LINES));
    let v3 = parse_nav(&v3_text).expect("parse v3 NAV");
    assert_eq!(
        v3[0].message,
        NavMessage::GalileoFnav,
        "v3 infers F/NAV here"
    );
    assert_eq!(
        v3[0].broadcast_clock_group_delay_s(),
        GroupDelay::Term(d(-1.862645149231e-09)),
        "F/NAV uses Galileo BGD E5a/E1"
    );

    // ...but a v4 marker that says INAV is authoritative.
    let v4_text = format!("{V4_NAV_HEADER}> EPH E01 INAV\n{}", join(E01_LINES));
    let v4 = parse_nav(&v4_text).expect("parse v4 NAV");
    assert_eq!(v4.len(), 1);
    assert_eq!(
        v4[0].message,
        NavMessage::GalileoInav,
        "v4 message must come from the marker token, not the data-source word"
    );
    assert_eq!(
        v4[0].broadcast_clock_group_delay_s(),
        GroupDelay::Term(d(0.0)),
        "v4 INAV marker uses Galileo BGD E5b/E1"
    );
}

#[test]
fn toc_week_comes_from_clock_epoch_across_rollover() {
    let mut lines = g01_lines();
    lines[0].replace_range(4..23, "2020 06 28 00 00 00");
    lines[3].replace_range(4..23, " 6.045000000000e+05");

    let recs = parse_nav(&nav_text(&lines)).expect("parse week-rollover NAV record");
    let rec = &recs[0];

    assert_eq!(rec.week, 2111, "broadcast toe week remains from ORBIT-5");
    assert_eq!(rec.toe.week, 2111, "toe uses broadcast week");
    assert_eq!(rec.toe.tow_s, secs(604_500.0));
    assert_eq!(
        rec.toc.week, 2112,
        "toc week must be derived from the clock epoch line"
    );
    assert_eq!(rec.toc.tow_s, secs(0.0));
    assert_eq!(rec.clock.toc_sow, secs(0.0));
}

#[test]
fn modern_gps_fit_interval_field_remains_hours_valued() {
    let mut lines = g01_lines();
    lines[7] = replace_orbit_field(&lines[7], 1, "6.000000000000e+00");
    let text = nav_text_with_version("3.05", &lines);

    let recs = parse_nav(&text).expect("parse modern GPS record");
    assert_eq!(recs.len(), 1);
    assert_eq!(
        recs[0].fit_interval_h,
        Some(d(6.0)),
        "modern fit interval is hours"
    );
}

#[test]
fn gps_fit_interval_field_distinguishes_blank_zero_value_and_malformed() {
    let with_field2 = |val: &str| format!("{val:<19}");
    let legacy = NavVersion::new(3, 2);
    let modern = NavVersion::new(3, 5);
    let v2 = NavVersion::new(2, 11);
    let read = |line: &str, version| gps_fit_interval_h(line, version);

    // Blank/absent -> None across both modern and legacy headers per RINEX Section 6.6.
    assert_eq!(read(&with_field2(""), modern), Ok(None));
    assert_eq!(read(&with_field2(""), legacy), Ok(None));

    // Modern numeric zero represents missing/unpopulated field -> None, as RINEX 2.11
    // states for its hours field ("zero if not known").
    assert_eq!(read(&with_field2("0.000000000000e+00"), modern), Ok(None));
    assert_eq!(read(&with_field2("0.000000000000e+00"), v2), Ok(None));

    // Legacy RINEX 3.02 Table A6 explicitly defines flag 0 = 4 hours.
    assert_eq!(
        read(&with_field2("0.000000000000e+00"), legacy),
        Ok(Some(d(4.0)))
    );

    // Legacy RINEX 3.02 Table A6 explicitly defines flag 1 = 6 hours (extended fit).
    assert_eq!(
        read(&with_field2("1.000000000000e+00"), legacy),
        Ok(Some(d(6.0)))
    );

    // Modern RINEX and RINEX 2 keep the numeric field hours-valued: 1.0 h = 3600 s.
    assert_eq!(
        read(&with_field2("1.000000000000e+00"), modern),
        Ok(Some(d(1.0)))
    );
    assert_eq!(
        read(&with_field2("4.000000000000e+00"), v2),
        Ok(Some(d(4.0)))
    );

    // A nonzero interval is taken verbatim (hours -> seconds): 6.0 h = 21600 s.
    assert_eq!(
        read(&with_field2("6.000000000000e+00"), modern),
        Ok(Some(d(6.0)))
    );

    // Present but non-numeric -> an error, not a silent substitution.
    assert!(read(&with_field2("garbage"), modern).is_err());

    // Negative interval -> an error.
    assert!(read(&with_field2("-1.000000000000e+00"), modern).is_err());
}

#[test]
fn gps_fit_interval_modern_zero_and_blank_read_as_unknown() {
    // 1. Modern header with blank field 2
    let mut lines = g01_lines();
    lines[7] = blank_orbit_field(&lines[7], 1);
    let text = nav_text_with_version("3.05", &lines);
    let recs = parse_nav(&text).expect("parse modern GPS record with blank fit interval");
    assert_eq!(recs.len(), 1);
    assert_eq!(
        recs[0].fit_interval_h, None,
        "blank fit interval decodes to None"
    );
    assert_eq!(recs[0].stated.orbit7_field2, None);

    // 2. Modern header with 0.0 field 2
    let mut lines = g01_lines();
    lines[7] = replace_orbit_field(&lines[7], 1, "0.000000000000e+00");
    let text = nav_text_with_version("3.05", &lines);
    let recs = parse_nav(&text).expect("parse modern GPS record with zero fit interval");
    assert_eq!(recs.len(), 1);
    assert_eq!(
        recs[0].fit_interval_h, None,
        "modern zero fit interval decodes to None under missing-value rule"
    );
    assert_eq!(
        recs[0].stated.orbit7_field2,
        Some(d(0.0)),
        "the zero as stated"
    );

    // 3. Legacy header with flag 0
    let text = nav_text_with_version("3.02", &lines);
    let recs = parse_nav(&text).expect("parse legacy GPS record with flag 0");
    assert_eq!(recs.len(), 1);
    assert_eq!(
        recs[0].fit_interval_h,
        Some(d(4.0)),
        "legacy flag 0 decodes to nominal 4 hours per RINEX 3.02 Table A6"
    );
}

#[test]
fn galileo_iono_corr_with_three_coefficients_parses() {
    // Real/merged headers carry a `GAL IONOSPHERIC CORR` line with only the
    // three NeQuick-G coefficients (a0,a1,a2); the fourth column (the
    // disturbance flag) is blank. A short iono line must not reject the header.
    let four = "GAL    2.8250e+01  7.8125e-03  1.0071e-02  0.0000E+00       IONOSPHERIC CORR";
    // Blank the fourth coefficient column (41..53) to model the 3-coefficient
    // line, leaving the three coefficients in columns 5..41 intact.
    let mut three = format!("{four:<53}");
    three.replace_range(41..53, &" ".repeat(12));

    let iono = parse_iono_corrections(&nav_text_with_header_line(&three))
        .expect("a 3-coefficient GAL iono line must not reject the header");
    let gal = iono
        .galileo
        .expect("Galileo NeQuick coefficients still parsed");
    assert!(gal.ai0 == d(2.8250e01), "ai0 {:?}", gal.ai0);
    assert!(gal.ai1 == d(7.8125e-03), "ai1 {:?}", gal.ai1);
    assert!(gal.ai2 == d(1.0071e-02), "ai2 {:?}", gal.ai2);
}

#[test]
fn rinex_v4_data_frames_are_read_and_a_malformed_one_is_reported() {
    let text = format!("{V4_NAV_HEADER}{}", v4_data_frames());
    let file = parse_nav_file(&text).expect("parse v4 data frames");
    let items: Vec<&NavItem> = file.entries.iter().map(|entry| &entry.item).collect();
    assert_eq!(items.len(), 3);
    let NavItem::Ionosphere(ion) = items[0] else {
        panic!("an ION frame, got {:?}", items[0]);
    };
    assert_eq!(ion.message_token, "LNAV");
    assert_eq!(
        ion.model,
        IonosphereModel::Klobuchar {
            coefficients: KlobucharAlphaBeta {
                alpha: [d(1.024454832077e-08), d(0.0), d(0.0), d(-1.192092895508e-07)],
                beta: [d(9.6256e04), d(0.0), d(0.0), d(-5.89824e05)],
            },
            region_code: None,
        }
    );
    let NavItem::SystemTimeOffset(sto) = items[1] else {
        panic!("an STO frame, got {:?}", items[1]);
    };
    assert_eq!(sto.offset_code, "GPUT");
    assert_eq!(sto.sbas_id, None);
    assert_eq!(sto.utc_id.as_deref(), Some("UTC(USNO)"));
    assert_eq!(sto.transmission_time_sow, d(345_600.0));
    assert_eq!(sto.a0_s, d(9.313225746155e-10));
    assert_eq!(sto.a1_s_s, Some(d(2.664535259100e-15)));
    let NavItem::EarthOrientation(eop) = items[2] else {
        panic!("an EOP frame, got {:?}", items[2]);
    };
    assert_eq!(eop.xp, [Some(d(0.1)), Some(d(2.0e-3)), Some(d(0.0))]);
    assert_eq!(eop.yp, [Some(d(0.3)), Some(d(-4.0e-3)), Some(d(0.0))]);
    assert_eq!(eop.transmission_time_sow, d(345_600.0));
    assert_eq!(eop.dut1, [Some(d(-0.2)), Some(d(5.0e-4)), Some(d(0.0))]);
    assert_eq!(encode_nav_file(&file).expect("encode"), text);

    // A frame without its epoch cannot be read.
    let bad = format!(
        "{V4_NAV_HEADER}> ION G29 LNAV\n   1.024454832077e-08 0.000000000000e+00\n> EPH G01 LNAV\n{}",
        join(G01_LINES)
    );
    assert_eq!(parse_nav(&bad).expect("strict Keplerian parse").len(), 1);
    let lenient = parse_nav_lenient(&bad).expect("lenient parse");
    assert_eq!(lenient.skipped.len(), 1);
    assert_eq!(lenient.skipped[0].line, 3);
    assert_eq!(lenient.skipped[0].satellite, "G29");
    assert!(parse_iono_corrections(&bad).is_err());
}

#[test]
fn header_labels_are_matched_in_their_columns() {
    let text = format!(
        "{}{}{}{}{}{}",
        header_record(
            "     3.05           NAVIGATION DATA     M",
            "RINEX VERSION / TYPE"
        ),
        header_record("LEAP SECONDS WILL CHANGE 2016-12-31", "COMMENT"),
        header_record("END OF HEADER is the last header line", "COMMENT"),
        header_record("    18", "LEAP SECONDS"),
        header_record("", "END OF HEADER"),
        join(G01_LINES)
    );
    assert_eq!(parse_leap_seconds(&text), Ok(Some(18)));
    let store = BroadcastStore::from_nav(&text).expect("comments do not end the header");
    assert_eq!(store.records().len(), 1);
    let header = store.header().expect("header");
    assert_eq!(header.comments.len(), 2);
    assert!(store.departures().is_empty());

    let shifted = format!(
        "{}{}{}",
        header_record(
            "     3.05           NAVIGATION DATA     M",
            "RINEX VERSION / TYPE"
        ),
        header_record("    17", " LEAP SECONDS"),
        header_record("", "END OF HEADER")
    );
    assert_eq!(parse_leap_seconds(&shifted), Ok(None));
    let trailing = format!(
        "{}{}{}",
        header_record(
            "     3.05           NAVIGATION DATA     M",
            "RINEX VERSION / TYPE"
        ),
        header_record("    18", "LEAP SECONDS        extra"),
        header_record("", "END OF HEADER")
    );
    assert_eq!(parse_leap_seconds(&trailing), Ok(Some(18)));
}

#[test]
fn galileo_data_source_word_classification() {
    let cases: &[(&str, NavMessage, bool)] = &[
        ("5.170000000000e+02", NavMessage::GalileoInav, false),
        ("2.580000000000e+02", NavMessage::GalileoFnav, false),
        ("5.000000000000e+00", NavMessage::GalileoInav, false),
        ("5.120000000000e+02", NavMessage::GalileoInav, false),
        ("2.560000000000e+02", NavMessage::GalileoFnav, false),
        ("5.150000000000e+02", NavMessage::GalileoInav, false),
        ("2.590000000000e+02", NavMessage::GalileoFnav, false),
        ("0.000000000000e+00", NavMessage::GalileoUnclassified, false),
        ("3.000000000000e+00", NavMessage::GalileoUnclassified, false),
        ("7.000000000000e+00", NavMessage::GalileoUnclassified, true),
        ("5.190000000000e+02", NavMessage::GalileoInav, true),
        ("7.680000000000e+02", NavMessage::GalileoUnclassified, true),
        ("7.690000000000e+02", NavMessage::GalileoInav, true),
    ];
    for &(word, message, forbidden) in cases {
        let mut lines = e01_lines();
        lines[5] = replace_orbit_field(&lines[5], 1, word);
        let text = nav_text(&lines);
        let lenient = parse_nav_lenient(&text).expect("lenient");
        assert_eq!(lenient.records.len(), 1, "{word}");
        let record = lenient.records[0];
        assert_eq!(record.message, message, "{word}");
        assert_eq!(lenient.departures.len(), usize::from(forbidden), "{word}");
        if forbidden {
            assert_eq!(
                parse_nav(&text),
                Err(NavParseError::BadField {
                    satellite: "E01".to_string(),
                    field: "data sources",
                }),
                "{word}"
            );
        } else {
            assert_eq!(parse_nav(&text).expect("strict").len(), 1, "{word}");
        }
    }

    // An unclassified record takes the BGD E5b/E1 and the default store serves it.
    let mut lines = e01_lines();
    lines[5] = replace_orbit_field(&lines[5], 1, "0.000000000000e+00");
    let text = nav_text(&lines);
    let record = parse_nav(&text).expect("parse")[0];
    assert_eq!(
        Some(record.broadcast_clock_group_delay_s()),
        record.group_delays.galileo_bgd_e5b_e1_s.map(GroupDelay::Term)
    );
    let store = BroadcastStore::from_nav(&text).expect("store");
    assert_eq!(store.records().len(), 1);
    assert!(store
        .select_record_at(record.satellite_id, toe_plus(&record, 60.0))
        .is_some());
}

#[test]
fn toe_week_is_adjusted_to_toc_and_the_stated_week_kept() {
    let mut lines = g01_lines();
    lines[0].replace_range(4..23, "2022 06 12 00 00 00");
    lines[3] = replace_orbit_field(&lines[3], 0, "0.000000000000e+00");
    lines[5] = replace_orbit_field(&lines[5], 2, "2.213000000000e+03");
    let recs = parse_nav(&nav_text(&lines)).expect("parse");
    let rec = recs[0];
    assert_eq!(rec.week, 2213);
    assert_eq!((rec.toe.week, rec.toe.tow_s), (2214, secs(0.0)));
    assert_eq!((rec.toc.week, rec.toc.tow_s), (2214, secs(0.0)));

    let store = BroadcastStore::new(recs.clone()).expect("store");
    let t = ExactEpoch::new(2214 * 604_800 + 1_800 - 630_763_200, 0).unwrap();
    assert!(store
        .select_record_at(rec.satellite_id, t)
        .is_some());

    let encoded = encode_nav(&recs).expect("encode");
    assert!(encoded.contains(" 2.213000000000e+03"));
    assert_eq!(parse_nav(&encoded).expect("reparse"), recs);
}

#[test]
fn qzss_fit_flag_is_read_and_restated() {
    for (flag, fit) in [
        ("0.000000000000e+00", 2.0),
        ("1.000000000000e+00", 4.0),
    ] {
        let mut lines = satellite_lines(G01_LINES, "J01");
        lines[7] = replace_orbit_field(&lines[7], 1, flag);
        let recs = parse_nav(&nav_text(&lines)).expect("parse QZSS");
        assert_eq!(recs[0].message, NavMessage::QzssLnav);
        assert_eq!(recs[0].fit_interval_h, Some(d(fit)));
        let encoded = encode_nav(&recs).expect("encode");
        assert!(encoded.contains(&format!(" {flag}")));
        assert_eq!(parse_nav(&encoded).expect("reparse"), recs);
    }
}

#[test]
fn ionosphere_frames_are_read_by_message_and_selected_by_time() {
    let frame = |sv: &str, token: &str, epoch: &str, values: &[f64]| {
        let mut text = format!("> ION {sv} {token}\n    {epoch}");
        for value in values.iter().take(3) {
            text.push_str(&d19_12(*value));
        }
        text.push('\n');
        for chunk in values[3.min(values.len())..].chunks(4) {
            text.push_str("    ");
            for value in chunk {
                text.push_str(&d19_12(*value));
            }
            text.push('\n');
        }
        text
    };
    let klobuchar = |a0: f64| [a0, 0.0, 0.0, 0.0, 9.0e4, 0.0, 0.0, 0.0, 0.0];
    let mut text = String::from(V4_NAV_HEADER);
    text.push_str(&frame(
        "C08",
        "D1D2",
        "2022 06 08 08 00 00",
        &klobuchar(2.0e-8),
    ));
    text.push_str(&frame(
        "C19",
        "CNVX",
        "2022 06 08 08 00 00",
        &[1.0, 2.0, 3.0, 4.0, 5.0, 6.0, 7.0, 8.0, 9.0],
    ));
    text.push_str(&frame(
        "G29",
        "LNAV",
        "2022 06 08 08 00 00",
        &klobuchar(1.0e-8),
    ));
    text.push_str(&frame(
        "G30",
        "LNAV",
        "2022 06 08 10 00 00",
        &klobuchar(3.0e-8),
    ));

    let iono = parse_iono_corrections(&text).expect("parse ION frames");
    assert_eq!(iono.beidou.expect("D1D2 Klobuchar").alpha[0], d(2.0e-8));
    assert_eq!(
        iono.beidou_bdgim,
        Some([1.0, 2.0, 3.0, 4.0, 5.0, 6.0, 7.0, 8.0, 9.0].map(d))
    );

    let store = BroadcastStore::from_nav(&text).expect("store");
    let at = |h: u8, m: u8| civil(2022, 6, 8, h, m, 0.0).j2000_s();
    let gps_a0 = |t: Seconds| store.iono_corrections_at(t).gps.expect("GPS set").alpha[0];
    assert_eq!(gps_a0(at(9, 0)), d(1.0e-8));
    assert_eq!(gps_a0(at(10, 0)), d(3.0e-8));
    assert_eq!(gps_a0(at(11, 0)), d(3.0e-8));
    // Before any GPS frame is transmitted, and with no GPS set in the header, there is
    // no GPS set.
    assert_eq!(store.iono_corrections_at(at(7, 0)).gps, None);
    // The whole-file reading is the latest transmitted, whichever reader takes it.
    assert_eq!(iono.gps.expect("GPS").alpha[0], d(3.0e-8));
    // BDT is GPS time less 14 s: the BeiDou frame at 08:00:00 BDT is 08:00:14 GPST.
    let file = parse_nav_file(&text).expect("file");
    let bds = file
        .ionosphere_frames()
        .into_iter()
        .find(|f| f.satellite_id.system == GnssSystem::BeiDou)
        .expect("BeiDou frame");
    assert_eq!(bds.transmission_gpst_j2000_s(), civil(2022, 6, 8, 8, 0, 14.0).j2000_s());
    assert_eq!(store.iono_corrections().gps.expect("GPS").alpha[0], d(3.0e-8));
}

#[test]
fn sbas_records_are_read_and_evaluated_as_seph2pos() {
    let lines: Vec<String> = S20_LINES.iter().map(ToString::to_string).collect();
    let text = nav_text(&lines);
    let recs = parse_sbas(&text).expect("parse SBAS");
    assert_eq!(recs.len(), 1);
    let rec = recs[0];
    assert_eq!(rec.satellite_id.token(), "S20");
    assert_eq!(rec.af0_s, d(1.117587089539e-08));
    assert_eq!(rec.message_frame_time_s, Some(d(345_696.0)));
    assert_eq!(
        rec.pos_m,
        [
            d(4.063093080000e+07),
            d(-1.126480640000e+07),
            d(2.0e+04),
        ]
    );
    assert_eq!(
        rec.vel_m_s,
        [d(1.2), d(-2.4), d(0.1)]
    );
    assert_eq!(rec.acc_m_s2, [d(1.0e-04), d(0.0), d(0.0)]);
    assert_eq!(rec.ura_m, Some(d(4.0)));
    assert_eq!(rec.iodn, Some(d(22.0)));

    let store = BroadcastStore::from_nav(&text).expect("store");
    let t0 = rec.t0_j2000_s();
    assert_eq!(store.select_sbas_at(rec.satellite_id, later(t0, 120.0)), Some(&rec));
    assert!(store
        .select_sbas_at(rec.satellite_id, later(t0, 360.0))
        .is_some());
    assert!(store
        .select_sbas_at(rec.satellite_id, later(t0, 360.001))
        .is_none());
    assert_eq!(parse_nav(&text).expect("no Keplerian records").len(), 0);
}

#[test]
fn rinex_2_gps_and_glonass_files_are_read() {
    let v2_line = |line: &str, first: bool| -> String {
        if first {
            // `I2,1X,I2.2,1X,I2,1X,I2,1X,I2,1X,I2,F5.1,3D19.12` from the v3 epoch.
            let prn: u8 = line[1..3].parse().expect("prn");
            let year: u16 = line[4..8].parse().expect("year");
            let field = |a: usize, b: usize| line[a..b].parse::<u8>().expect("epoch field");
            format!(
                "{prn:>2} {:02} {:>2} {:>2} {:>2} {:>2}{:>5.1}{}",
                year % 100,
                field(9, 11),
                field(12, 14),
                field(15, 17),
                field(18, 20),
                f64::from(field(21, 23)),
                line[23..].replace('e', "D")
            )
        } else {
            format!("   {}", line[4..].replace('e', "D"))
        }
    };
    let header = |file_type: &str| {
        format!(
            "{}{}{}",
            header_record(
                &format!("     2.11           {file_type}"),
                "RINEX VERSION / TYPE"
            ),
            header_record("    18", "LEAP SECONDS"),
            header_record("", "END OF HEADER")
        )
    };
    let gps_text = format!(
        "{}{}",
        header("N: GPS NAV DATA"),
        G01_LINES
            .iter()
            .enumerate()
            .map(|(i, l)| format!("{}\n", v2_line(l, i == 0)))
            .collect::<String>()
    );
    assert!(gps_text.contains(" 1 20  6 25  4  0  0.0 1.604342833161D-05"));
    let v2 = parse_nav(&gps_text).expect("parse RINEX 2 GPS");
    let v3 = parse_nav(&nav_text_with_version("3.04", &g01_lines())).expect("parse RINEX 3");
    assert_eq!(v2.len(), 1);
    assert_eq!(v2[0].satellite_id, v3[0].satellite_id);
    assert_eq!(v2[0].elements, v3[0].elements);
    assert_eq!(v2[0].clock, v3[0].clock);
    assert_eq!(v2[0].toe, v3[0].toe);
    assert_eq!(v2[0].stated, v3[0].stated);
    assert_eq!(v2[0].fit_interval_h, Some(d(4.0)));
    let file = parse_nav_file(&gps_text).expect("file");
    assert_eq!(encode_nav_file(&file).expect("encode"), gps_text);

    let glonass_text_v2 = format!(
        "{}{}",
        header("G: GLONASS NAV DATA"),
        R01_GLONASS_LINES
            .iter()
            .enumerate()
            .map(|(i, l)| format!("{}\n", v2_line(l, i == 0)))
            .collect::<String>()
    );
    let v2 = parse_glonass(&glonass_text_v2).expect("parse RINEX 2 GLONASS");
    let v3 = parse_glonass(&glonass_text(&r01_glonass_lines())).expect("parse RINEX 3");
    assert_eq!(v2.len(), 1);
    assert_eq!(v2[0].satellite_id, v3[0].satellite_id);
    assert_eq!(v2[0].toe_utc_j2000_s, v3[0].toe_utc_j2000_s);
    assert_eq!(v2[0].pos_m, v3[0].pos_m);
    assert_eq!(v2[0].freq_channel, v3[0].freq_channel);
    let file = parse_nav_file(&glonass_text_v2).expect("file");
    assert_eq!(encode_nav_file(&file).expect("encode"), glonass_text_v2);

    // A record built in code is written in the RINEX 2 layout and reads back.
    let mut rebuilt = NavFile::new(file.header.clone());
    rebuilt.entries.push(NavEntry::new(NavItem::Glonass(v2[0])));
    let written = encode_nav_file(&rebuilt).expect("encode built");
    assert!(written.contains("\n 1 20  6 24 23 15  0.0"));
    assert_eq!(parse_glonass(&written).expect("reparse"), v2);
}

#[test]
fn rinex_2_prn_extensions() {
    let header = |file_type: &str| {
        format!(
            "{}{}",
            header_record(
                &format!("     2.11           {file_type}"),
                "RINEX VERSION / TYPE"
            ),
            header_record("", "END OF HEADER")
        )
    };
    let mut lines: Vec<String> = G01_LINES
        .iter()
        .map(|l| format!("   {}", &l[4..]))
        .collect();
    lines[0] = format!("93 20  6 25  4  0  0.0{}", &G01_LINES[0][23..]);
    let text = format!(
        "{}{}",
        header("N: GPS NAV DATA"),
        lines.iter().map(|l| format!("{l}\n")).collect::<String>()
    );
    let recs = parse_nav(&text).expect("parse");
    assert_eq!(recs[0].satellite_id.token(), "J01");
    assert_eq!(recs[0].message, NavMessage::QzssLnav);

    let mut lines: Vec<String> = S20_LINES
        .iter()
        .map(|l| format!("   {}", &l[4..]))
        .collect();
    lines[0] = format!("20 20  6 25  0  1 36.0{}", &S20_LINES[0][23..]);
    let text = format!(
        "{}{}",
        header("H: GEO NAV MSG DATA"),
        lines.iter().map(|l| format!("{l}\n")).collect::<String>()
    );
    let recs = parse_sbas(&text).expect("parse H file");
    assert_eq!(recs[0].satellite_id.token(), "S20");
    assert_eq!(recs[0].pos_m[0], d(4.063093080000e+07));
}

#[test]
fn navic_lnav_records_are_read_and_evaluated() {
    let lines = satellite_lines(G01_LINES, "I05");
    let recs = parse_nav(&nav_text(&lines)).expect("parse NavIC");
    let rec = recs[0];
    assert_eq!(rec.message, NavMessage::NavicLnav);
    assert_eq!(rec.time_scale(), TimeScale::Gpst);
    assert_eq!(
        rec.constants(),
        ConstellationConstants::Gps
    );
    assert_eq!(
        rec.broadcast_clock_group_delay_s(),
        GroupDelay::NavicL5(d(5.122274160385e-09))
    );
    assert_eq!(rec.fit_interval_h, None);

    let store = BroadcastStore::from_nav(&nav_text(&lines)).expect("store");
    assert_eq!(store.select_record_at(rec.satellite_id, toe_plus(&rec, 60.0)), Some(&rec));
    let encoded = encode_nav(&recs).expect("encode");
    assert_eq!(parse_nav(&encoded).expect("reparse"), recs);
}

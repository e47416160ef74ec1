//! Writing of files and records, and what reads back.

#![allow(dead_code, unused_imports)]

use sidereon_nav::body::{NavEntry, NavItem};
use sidereon_nav::decimal::Decimal;
use sidereon_nav::epoch::{exact_week_tow_epoch, ExactEpoch};
use sidereon_nav::error::{
    NavDiagnostic, NavParseError, OtherNavBlockKind, SkippedGlonass,
};
use sidereon_nav::file::{
    parse_glonass, parse_glonass_lenient, parse_iono_corrections, parse_leap_seconds, parse_nav,
    parse_nav_file, parse_nav_lenient, parse_sbas, NavFile,
};
use sidereon_nav::frames::IonosphereModel;
use sidereon_nav::id::{GnssSatelliteId, GnssSystem};
use sidereon_nav::record::{
    cnav_ura_nominal_m, is_beidou_geo, BroadcastGroupDelays, BroadcastIssue, BroadcastRecord,
    ClockPolynomial, CnavParameters, CnavSignal, ConstellationConstants, GlonassRecord, GroupDelay,
    KeplerianElements, KlobucharAlphaBeta, NavMessage, NavVersion, StatedNavFields,
};
use sidereon_nav::store::{BroadcastStore, NavMessagePreference};
use sidereon_nav::time::{GnssWeekTow, NavEpoch, Seconds, TimeScale};
use sidereon_nav::write::{encode_nav, encode_nav_file, NavWriteError};

/// The number a double prints as.
fn d(x: f64) -> Decimal {
    let text = format!("{:e}", x.abs());
    let (mantissa, exponent) = text.split_once('e').unwrap();
    let exponent: i32 = exponent.parse().unwrap();
    let fraction = mantissa.split_once('.').map_or(0, |(_, f)| f.len() as i32);
    let mut digits: u128 = mantissa.replace('.', "").parse().unwrap();
    let mut exponent = exponent - fraction;
    if digits == 0 {
        return Decimal::zero();
    }
    while digits % 10 == 0 {
        digits /= 10;
        exponent += 1;
    }
    Decimal { negative: x < 0.0, digits, exponent }
}

/// A time of a whole and a fraction.
fn secs(x: f64) -> Seconds {
    Seconds::from_decimal(d(x))
}

/// The instant `offset` seconds after a record's `toe`, in GPS time.
fn toe_plus(record: &BroadcastRecord, offset: f64) -> ExactEpoch {
    let native = exact_week_tow_epoch(record.toe);
    let bdt = if record.satellite_id.system == GnssSystem::BeiDou { 14.0 } else { 0.0 };
    native.checked_add_seconds(d(offset)).unwrap().checked_add_seconds(d(bdt)).unwrap()
}

/// The instant `offset` seconds after another.
fn later(t: ExactEpoch, offset: f64) -> ExactEpoch {
    t.checked_add_seconds(d(offset)).unwrap()
}

fn civil(year: i32, month: u8, day: u8, hour: u8, minute: u8, second: f64) -> NavEpoch {
    NavEpoch { year, month, day, hour, minute, second: d(second) }
}

fn d19_12(value: f64) -> String {
    let mut out = String::new();
    d(value).push_d19_12(&mut out);
    out
}

fn broadcast_time(system: GnssSystem, week: u32, sow: f64) -> GnssWeekTow {
    let scale = match system {
        GnssSystem::Galileo => TimeScale::Gst,
        GnssSystem::BeiDou => TimeScale::Bdt,
        _ => TimeScale::Gpst,
    };
    GnssWeekTow::new(scale, week, secs(sow)).normalized().unwrap()
}

const G01_LINES: &[&str] = &[
    "G01 2020 06 25 04 00 00 1.604342833161e-05 7.048583938740e-12 0.000000000000e+00",
    "     5.800000000000e+01-3.968750000000e+01 4.304822170265e-09 6.342094507864e-01",
    "    -2.177432179451e-06 1.000394229777e-02 1.937150955200e-06 5.153707128525e+03",
    "     3.600000000000e+05-1.508742570877e-07 2.572838528869e+00 1.359730958939e-07",
    "     9.806518601091e-01 3.539687500000e+02 7.941703015008e-01-8.384634967987e-09",
    "    -5.714523747137e-11 1.000000000000e+00 2.111000000000e+03 0.000000000000e+00",
    "     2.000000000000e+00 0.000000000000e+00 5.122274160385e-09 5.800000000000e+01",
    "     3.561060000000e+05 4.000000000000e+00",
];

const E01_LINES: &[&str] = &[
    "E01 2020 06 24 23 30 00-8.846927667037e-04-7.972289495228e-12 0.000000000000e+00",
    "     6.100000000000e+01 1.865625000000e+01 2.656539226950e-09-1.832282909549e+00",
    "     8.568167686462e-07 9.650341235101e-05 1.049041748047e-05 5.440602037430e+03",
    "     3.438000000000e+05 1.862645149231e-09 2.123282284601e-01-1.452863216400e-07",
    "     9.828296477370e-01 1.298750000000e+02-2.778709093141e+00-5.216288707934e-09",
    "    -6.996720012901e-10 2.580000000000e+02 2.111000000000e+03",
    "     3.120000000000e+00 0.000000000000e+00-1.862645149231e-09 0.000000000000e+00",
    "     3.445400000000e+05",
];

const R01_GLONASS_LINES: &[&str] = &[
    "R01 2020 06 24 23 15 00 6.355904042721e-05 0.000000000000e+00 3.420000000000e+05",
    "     1.090894238281e+04 1.407806396484e+00-1.862645149231e-09 0.000000000000e+00",
    "    -2.885726074219e+03 2.795855522156e+00-0.000000000000e+00 1.000000000000e+00",
    "     2.288353955078e+04-3.169984817505e-01-2.793967723846e-09 0.000000000000e+00",
];

const S20_LINES: &[&str] = &[
    "S20 2020 06 25 00 01 36 1.117587089539e-08 0.000000000000e+00 3.456960000000e+05",
    "     4.063093080000e+04 1.200000000000e-03 1.000000000000e-07 0.000000000000e+00",
    "    -1.126480640000e+04-2.400000000000e-03 0.000000000000e+00 4.000000000000e+00",
    "     2.000000000000e+01 1.000000000000e-04 0.000000000000e+00 2.200000000000e+01",
];

const V4_NAV_HEADER: &str =
    "     4.00           NAVIGATION DATA     M                   RINEX VERSION / TYPE\n\
     XXX                                                         END OF HEADER\n";

const V3_NAV_HEADER: &str =
    "     3.05           NAVIGATION DATA     M                   RINEX VERSION / TYPE\n\
     XXX                                                         END OF HEADER\n";

fn gps_nav_text_with_epoch_field(start: usize, end: usize, value: &str) -> String {
    let mut lines: Vec<String> = G01_LINES.iter().map(ToString::to_string).collect();
    lines[0].replace_range(start..end, value);

    let mut text = String::from(V3_NAV_HEADER);
    for line in lines {
        text.push_str(&line);
        text.push('\n');
    }
    text
}

fn gps_nav_text_with_month(month: &str) -> String {
    gps_nav_text_with_epoch_field(9, 11, month)
}

fn glonass_text(lines: &[String]) -> String {
    nav_text_with_version("3.04", lines)
}

fn r01_glonass_lines() -> Vec<String> {
    R01_GLONASS_LINES.iter().map(ToString::to_string).collect()
}

fn nav_text_with_version(version: &str, lines: &[String]) -> String {
    let mut text = format!(
        "{version:>9}           NAVIGATION DATA     M                   RINEX VERSION / TYPE\n\
     XXX                                                         END OF HEADER\n"
    );
    for line in lines {
        text.push_str(line);
        text.push('\n');
    }
    text
}

fn nav_text(lines: &[String]) -> String {
    nav_text_with_version("3.05", lines)
}

fn g01_lines() -> Vec<String> {
    G01_LINES.iter().map(ToString::to_string).collect()
}

fn e01_lines() -> Vec<String> {
    E01_LINES.iter().map(ToString::to_string).collect()
}

fn satellite_lines(template: &[&str], token: &str) -> Vec<String> {
    assert_eq!(token.len(), 3);
    let mut lines: Vec<String> = template.iter().map(ToString::to_string).collect();
    lines[0].replace_range(0..3, token);
    lines
}

fn replace_orbit_field(line: &str, field_index: usize, value: &str) -> String {
    let ranges = [(4, 23), (23, 42), (42, 61), (61, 80)];
    let (start, end) = ranges[field_index];
    let field = format!("{value:>width$}", width = end - start);
    let mut out = format!("{line:<80}");
    out.replace_range(start..end, &field);
    out
}

fn blank_orbit_field(line: &str, field_index: usize) -> String {
    let ranges = [(4, 23), (23, 42), (42, 61), (61, 80)];
    let (start, end) = ranges[field_index];
    let mut out = format!("{line:<80}");
    out.replace_range(start..end, "                   ");
    out
}

fn cnav_orbit_line(values: [Option<f64>; 4]) -> String {
    let mut line = String::from("    ");
    for value in values {
        match value {
            Some(value) => line.push_str(&d19_12(value)),
            None => line.push_str("                   "),
        }
    }
    line
}

fn cnav_clock_line(sat: &str, af0: f64) -> String {
    let mut line = format!("{sat:<3} 2020 06 25 04 00 00");
    line.push_str(&d19_12(af0));
    line.push_str(&d19_12(7.0e-12));
    line.push_str(&d19_12(0.0));
    line
}

fn cnav_lines_with_clock(sat: &str, af0: f64) -> Vec<String> {
    vec![
        cnav_clock_line(sat, af0),
        cnav_orbit_line([
            Some(0.125),
            Some(-39.6875),
            Some(4.304822170265e-9),
            Some(0.6342094507864),
        ]),
        cnav_orbit_line([
            Some(-2.177432179451e-6),
            Some(0.01000394229777),
            Some(1.9371509552e-6),
            Some(5153.707128525),
        ]),
        cnav_orbit_line([
            Some(360_000.0),
            Some(-1.508742570877e-7),
            Some(2.572838528869),
            Some(1.359730958939e-7),
        ]),
        cnav_orbit_line([
            Some(0.9806518601091),
            Some(353.96875),
            Some(0.7941703015008),
            Some(-8.384634967987e-9),
        ]),
        cnav_orbit_line([
            Some(-5.714523747137e-11),
            Some(1.0e-18),
            Some(0.0),
            Some(2.0),
        ]),
        cnav_orbit_line([Some(1.0), Some(0.0), Some(5.122274160385e-9), Some(4.0)]),
        cnav_orbit_line([Some(1.0e-9), Some(2.0e-9), Some(3.0e-9), Some(4.0e-9)]),
        cnav_orbit_line([Some(356_106.0), Some(2111.0), Some(5.0), None]),
    ]
}

fn cnav_lines(sat: &str) -> Vec<String> {
    cnav_lines_with_clock(sat, 2.0e-4)
}

fn cnv2_lines(sat: &str) -> Vec<String> {
    let mut lines = cnav_lines_with_clock(sat, 3.0e-4);
    lines[8] = cnav_orbit_line([Some(6.0e-9), Some(7.0e-9), None, None]);
    lines.push(cnav_orbit_line([
        Some(356_106.0),
        Some(2111.0),
        Some(1.0),
        None,
    ]));
    lines
}

fn push_owned_lines(out: &mut String, lines: &[String]) {
    for line in lines {
        out.push_str(line);
        out.push('\n');
    }
}

fn join(lines: &[&str]) -> String {
    let mut s = lines.join("\n");
    s.push('\n');
    s
}

fn replace_fourth_orbit_field(line: &str, value: &str) -> String {
    assert_eq!(line.len(), 80);
    let field = format!("{value:>19}");
    assert_eq!(field.len(), 19);
    let mut out = line.to_string();
    out.replace_range(61..80, &field);
    out
}

fn nav_text_with_header_line(header_line: &str) -> String {
    format!(
        "     3.05           NAVIGATION DATA     M                   RINEX VERSION / TYPE\n\
{header_line}\n\
     XXX                                                         END OF HEADER\n{}",
        join(G01_LINES)
    )
}

fn header_record(content: &str, label: &str) -> String {
    format!("{content:<60}{label}\n")
}

fn v4_data_frames() -> String {
    let mut text = String::new();
    text.push_str("> ION G29 LNAV\n");
    text.push_str(
        "    2020 06 25 00 00 00 1.024454832077e-08 0.000000000000e+00 0.000000000000e+00\n",
    );
    text.push_str(
        "    -1.192092895508e-07 9.625600000000e+04 0.000000000000e+00 0.000000000000e+00\n",
    );
    text.push_str("    -5.898240000000e+05\n");
    text.push_str("> STO G01 LNAV\n");
    text.push_str(&format!(
        "    2020 06 25 00 00 00 {:<18} {:<18} {:<18}\n",
        "GPUT", "", "UTC(USNO)"
    ));
    text.push_str(
        "     3.456000000000e+05 9.313225746155e-10 2.664535259100e-15 0.000000000000e+00\n",
    );
    text.push_str("> EOP G01 CNVX\n");
    text.push_str(
        "    2020 06 25 00 00 00 1.000000000000e-01 2.000000000000e-03 0.000000000000e+00\n",
    );
    text.push_str(
        "                        3.000000000000e-01-4.000000000000e-03 0.000000000000e+00\n",
    );
    text.push_str(
        "     3.456000000000e+05-2.000000000000e-01 5.000000000000e-04 0.000000000000e+00\n",
    );
    text
}

#[test]
fn an_entry_is_restated_only_when_it_reads_without_new_departures() {
    let text = glonass_text(&r01_glonass_lines());
    let mut file = parse_nav_file(&text).expect("read 3.04");
    assert_eq!(encode_nav_file(&file).expect("restate"), text);
    let record = parse_glonass(&text).expect("parse 3.04")[0];

    file.header.version = NavVersion::new(3, 5);
    let written = encode_nav_file(&file).expect("write 3.05");
    let reread = parse_glonass(&written).expect("the 3.05 output reads strictly");
    assert_eq!(reread.len(), 1);
    assert_eq!(reread[0].pos_m, record.pos_m);
    assert_eq!(reread[0].status_flags, None);
    let block_lines = written
        .lines()
        .skip_while(|line| !line.contains("END OF HEADER"))
        .skip(1)
        .count();
    assert_eq!(block_lines, 5, "{written}");
}

#[test]
fn a_bad_fit_field_or_blank_accuracy_costs_only_that_field() {
    for (line, field, value) in [
        (7, 1, "-1.000000000000e+00"),
        (7, 1, "not-a-number"),
        (6, 0, ""),
    ] {
        let mut lines = g01_lines();
        lines[line] = replace_orbit_field(&lines[line], field, value);
        let text = nav_text(&lines);
        assert!(parse_nav(&text).is_err(), "{value:?}");
        let lenient = parse_nav_lenient(&text).expect("lenient");
        assert_eq!(lenient.records.len(), 1, "{value:?}");
        assert_eq!(lenient.departures.len(), 1, "{value:?}");
        assert_eq!(lenient.departures[0].line, 3, "{value:?}");
        let record = lenient.records[0];
        if line == 7 {
            assert_eq!(record.fit_interval_h, None);
        } else {
            assert_eq!(record.sv_accuracy_m, None);
        }
        let store = BroadcastStore::from_nav(&text).expect("store");
        assert_eq!(store.records().len(), 1);
        let file = parse_nav_file(&text).expect("file");
        assert_eq!(encode_nav_file(&file).expect("restate"), text);
    }
}

#[test]
fn keplerian_group_delay_round_trip_invariance() {
    let mut base_gps = parse_nav(&nav_text(&g01_lines())).expect("GPS record")[0];

    // 1. GPS
    for delay in [None, Some(d(0.0)), Some(d(5.122274160385e-09))] {
        base_gps.group_delays = BroadcastGroupDelays::gps_lnav_opt(delay);
        let encoded = encode_nav(&[base_gps]).expect("encode NAV");
        let reparsed = parse_nav(&encoded).expect("parse encoded GPS record");
        assert_eq!(reparsed.len(), 1);
        assert_eq!(reparsed[0].group_delays.gps_tgd_s, delay);
    }

    // 2. QZSS
    let mut base_qzss = base_gps;
    base_qzss.satellite_id = GnssSatelliteId::new(GnssSystem::Qzss, 1).unwrap();
    base_qzss.message = NavMessage::QzssLnav;
    base_qzss.fit_interval_h = None;
    for delay in [None, Some(d(0.0)), Some(d(3.25e-09))] {
        base_qzss.group_delays = BroadcastGroupDelays::gps_lnav_opt(delay);
        let encoded = encode_nav(&[base_qzss]).expect("encode NAV");
        let reparsed = parse_nav(&encoded).expect("parse encoded QZSS record");
        assert_eq!(reparsed.len(), 1);
        assert_eq!(reparsed[0].group_delays.gps_tgd_s, delay);
    }

    // 3. Galileo
    let mut base_gal = parse_nav(&nav_text(&e01_lines())).expect("Galileo record")[0];
    let gal_cases = [
        (None, None),
        (Some(d(0.0)), Some(d(0.0))),
        (Some(d(-1.862645149231e-09)), Some(d(2.15e-09))),
        (Some(d(1.23e-09)), None),
        (None, Some(d(4.56e-09))),
    ];
    for (bgd_a, bgd_b) in gal_cases {
        base_gal.group_delays = BroadcastGroupDelays::galileo_opt(bgd_a, bgd_b);
        let encoded = encode_nav(&[base_gal]).expect("encode NAV");
        let reparsed = parse_nav(&encoded).expect("parse encoded Galileo record");
        assert_eq!(reparsed.len(), 1);
        assert_eq!(reparsed[0].group_delays.galileo_bgd_e5a_e1_s, bgd_a);
        assert_eq!(reparsed[0].group_delays.galileo_bgd_e5b_e1_s, bgd_b);
    }

    // 4. BeiDou
    let text = nav_text(&satellite_lines(G01_LINES, "C19"));
    let mut base_bds = parse_nav(&text).expect("BeiDou record")[0];
    let bds_cases = [
        (None, None),
        (Some(d(0.0)), Some(d(0.0))),
        (Some(d(1.2e-09)), Some(d(3.4e-09))),
        (Some(d(1.2e-09)), None),
        (None, Some(d(3.4e-09))),
    ];
    for (tgd1, tgd2) in bds_cases {
        base_bds.group_delays = BroadcastGroupDelays::beidou_opt(tgd1, tgd2);
        let encoded = encode_nav(&[base_bds]).expect("encode NAV");
        let reparsed = parse_nav(&encoded).expect("parse encoded BeiDou record");
        assert_eq!(reparsed.len(), 1);
        assert_eq!(reparsed[0].group_delays.beidou_tgd1_s, tgd1);
        assert_eq!(reparsed[0].group_delays.beidou_tgd2_s, tgd2);
    }
}

#[test]
fn fit_interval_round_trip_preserves_none_and_explicit_hours() {
    let mut base_gps = parse_nav(&nav_text(&g01_lines())).expect("GPS record")[0];

    // An absent fit interval is written blank and reads back absent.
    base_gps.fit_interval_h = None;
    let encoded = encode_nav(&[base_gps]).expect("encode NAV");
    let reparsed = parse_nav(&encoded).expect("parse encoded GPS record without fit interval");
    assert_eq!(reparsed.len(), 1);
    assert_eq!(reparsed[0].fit_interval_h, None);

    // An explicit value (6 hours) round-trips exactly.
    base_gps.fit_interval_h = Some(d(6.0));
    let encoded = encode_nav(&[base_gps]).expect("encode NAV");
    let reparsed = parse_nav(&encoded).expect("parse encoded GPS record with 6h fit interval");
    assert_eq!(reparsed.len(), 1);
    assert_eq!(reparsed[0].fit_interval_h, Some(d(6.0)));

    // QZSS states a fit flag in ORBIT-7; with the record's fit interval absent the flag
    // is written blank and reads back absent. Galileo and BeiDou state no fit interval.
    let mut base_qzss = base_gps;
    base_qzss.satellite_id = GnssSatelliteId::new(GnssSystem::Qzss, 1).unwrap();
    base_qzss.message = NavMessage::QzssLnav;
    base_qzss.fit_interval_h = None;
    let encoded_qzss = encode_nav(&[base_qzss]).expect("encode NAV");
    let reparsed_qzss = parse_nav(&encoded_qzss).expect("parse encoded QZSS record");
    assert_eq!(reparsed_qzss.len(), 1);
    assert_eq!(reparsed_qzss[0].satellite_id.system, GnssSystem::Qzss);
    assert_eq!(reparsed_qzss[0].message, NavMessage::QzssLnav);
    assert_eq!(reparsed_qzss[0].fit_interval_h, None);

    let mut base_gal = parse_nav(&nav_text(&e01_lines())).expect("Galileo record")[0];
    base_gal.fit_interval_h = None;
    let encoded_gal = encode_nav(&[base_gal]).expect("encode NAV");
    let reparsed_gal = parse_nav(&encoded_gal).expect("parse encoded Galileo record");
    assert_eq!(reparsed_gal[0].fit_interval_h, None);

    let text = nav_text(&satellite_lines(G01_LINES, "C19"));
    let mut base_bds = parse_nav(&text).expect("BeiDou record")[0];
    base_bds.fit_interval_h = None;
    let encoded_bds = encode_nav(&[base_bds]).expect("encode NAV");
    let reparsed_bds = parse_nav(&encoded_bds).expect("parse encoded BeiDou record");
    assert_eq!(reparsed_bds[0].fit_interval_h, None);
}

#[test]
fn stated_fields_survive_a_formatted_record() {
    let g01 = parse_nav(&nav_text(&g01_lines())).expect("parse G01")[0];
    // Codes on L2 1, L2 P flag 0, IODC 58, t_tm 356106, fit 4 h.
    assert_eq!(g01.l2_codes(), Some(d(1.0)));
    assert_eq!(g01.l2p_data_flag(), Some(d(0.0)));
    assert_eq!(g01.iodc(), Some(d(58.0)));
    assert_eq!(g01.transmission_time_sow(), Some(d(356_106.0)));
    assert_eq!(g01.stated.orbit7_field2, Some(d(4.0)));
    let text = nav_text(&satellite_lines(G01_LINES, "C19"));
    let c19 = parse_nav(&text).expect("parse C19")[0];
    assert!(c19.beidou_aodc().is_some());

    // Records, formatted from their fields, read back identical.
    let e01 = parse_nav(&nav_text(&e01_lines())).expect("parse E01")[0];
    let original = vec![g01, c19, e01];
    let encoded = encode_nav(&original).expect("encode NAV");
    let reparsed = parse_nav(&encoded).expect("reparse");
    assert_eq!(reparsed, original);

    // I/NAV words 513 (E1-B, E5b clock) and 516 (E5b-I, E5b clock) keep their bits.
    for word in [513_u32, 516] {
        let mut lines = e01_lines();
        lines[5] = replace_orbit_field(&lines[5], 1, &d19_12(f64::from(word)));
        let recs = parse_nav(&nav_text(&lines)).expect("parse Galileo word");
        assert_eq!(recs[0].message, NavMessage::GalileoInav);
        let encoded = encode_nav(&recs).expect("encode");
        let reparsed = parse_nav(&encoded).expect("reparse");
        assert_eq!(reparsed[0].galileo_data_sources(), Some(word));
    }

    // A record that states no word is written with its message's source bits and the
    // clock bit they imply: 517 and 258.
    for (message, word) in [
        (NavMessage::GalileoInav, 517_u32),
        (NavMessage::GalileoFnav, 258),
    ] {
        let mut record = e01;
        record.message = message;
        record.issue_of_data = record
            .issue_of_data
            .map(|issue| BroadcastIssue { message, ..issue });
        record.stated.orbit5_field2 = None;
        let encoded = encode_nav(&[record]).expect("encode");
        let reparsed = parse_nav(&encoded).expect("reparse")[0];
        assert_eq!(reparsed.galileo_data_sources(), Some(word));
        assert_eq!(reparsed.message, message);
    }
}

#[test]
fn an_absent_transmission_time_is_written_blank() {
    let mut blank = parse_nav(&nav_text(&g01_lines())).expect("parse")[0];
    blank.stated.transmission_time_sow = None;
    let encoded = encode_nav(&[blank]).expect("encode NAV");
    let orbit7 = encoded.lines().nth(10).expect("ORBIT-7 line");
    assert!(
        orbit7.starts_with("                       "),
        "an absent transmission time is written blank: {orbit7:?}"
    );
    let reparsed = parse_nav(&encoded).expect("reparse");
    assert_eq!(reparsed, vec![blank]);
}

#[test]
fn mixed_files_come_back_byte_for_byte() {
    let mut lines = g01_lines();
    lines.extend(e01_lines());
    lines.push("     1.000000000000e+00".to_string());
    lines.extend(r01_glonass_lines());
    lines.extend(satellite_lines(G01_LINES, "G 2"));
    let lf = nav_text_with_version("3.04", &lines);
    let crlf = lf.replace('\n', "\r\n");
    let open_end = lf.trim_end().to_string();
    let mixed = lf.replacen('\n', "\r\n", 4);
    let stray = format!("{V4_NAV_HEADER}stray\n{}> EPH G01 LNAV\n{}", v4_data_frames(), join(G01_LINES));
    for text in [lf, crlf, open_end, mixed, stray] {
        let file = parse_nav_file(&text).expect("read");
        assert_eq!(encode_nav_file(&file).expect("write"), text);
    }
}

#[test]
fn records_a_version_cannot_hold_are_refused() {
    let mut text = String::from(V4_NAV_HEADER);
    text.push_str("> EPH G03 CNAV\n");
    push_owned_lines(&mut text, &cnav_lines("G03"));
    let cnav = parse_nav(&text).expect("parse CNAV")[0];
    let mut lines = e01_lines();
    lines[5] = replace_orbit_field(&lines[5], 1, "0.000000000000e+00");
    let unclassified = parse_nav(&nav_text(&lines)).expect("parse unclassified")[0];
    assert!(encode_nav(&[unclassified]).is_ok());
    assert_eq!(
        encode_nav(&[cnav, unclassified]),
        Err(NavWriteError::NotRepresentable {
            line: 0,
            reason: "an unclassified Galileo message has no RINEX 4 token",
        })
    );
    let mut file = parse_nav_file(&text).expect("read");
    file.header.version = NavVersion::new(3, 5);
    let refused = encode_nav_file(&file);
    assert_eq!(
        refused,
        Err(NavWriteError::NotRepresentable {
            line: 3,
            reason: "a CNAV-family record needs RINEX 4",
        })
    );
    assert_eq!(
        refused.unwrap_err().text(),
        "navigation entry at line 3 cannot be written: a CNAV-family record needs RINEX 4"
    );
    let frames = format!("{V4_NAV_HEADER}{}", v4_data_frames());
    let mut file = parse_nav_file(&frames).expect("read frames");
    file.header.version = NavVersion::new(3, 5);
    assert_eq!(
        encode_nav_file(&file),
        Err(NavWriteError::NotRepresentable {
            line: 3,
            reason: "a RINEX 4 frame needs RINEX 4",
        })
    );
    let mut file = parse_nav_file(&nav_text(&e01_lines())).expect("read");
    file.header.version = NavVersion::new(2, 11);
    file.entries[0].text.clear();
    assert_eq!(
        encode_nav_file(&file),
        Err(NavWriteError::NotRepresentable {
            line: 3,
            reason: "a RINEX 2 file holds records of its own file type's system",
        })
    );
}

#[test]
fn frames_and_records_format_from_their_fields() {
    let text = format!(
        "{V4_NAV_HEADER}{}> EPH R28 FDMA\n{}> EPH S20 SBAS\n{}",
        v4_data_frames(),
        join(&satellite_lines(R01_GLONASS_LINES, "R28").iter().map(String::as_str).collect::<Vec<_>>()),
        join(S20_LINES)
    );
    let file = parse_nav_file(&text).expect("read");
    let mut edited = file.clone();
    for entry in &mut edited.entries {
        entry.text.clear();
    }
    let written = encode_nav_file(&edited).expect("write");
    let again = parse_nav_file(&written).expect("reread");
    assert_eq!(again.entries.len(), file.entries.len());
    for (a, b) in again.entries.iter().zip(&file.entries) {
        assert!(a.item.same_as(&b.item), "{:?} {:?}", a.item, b.item);
    }
}

#[test]
fn header_records_format_from_their_fields() {
    let head = format!(
        "{}{}{}{}{}{}{}{}{}",
        header_record("     3.04           N: GNSS NAV DATA    M: MIXED", "RINEX VERSION / TYPE"),
        header_record("program             agency              20200625 000000 UTC", "PGM / RUN BY / DATE"),
        header_record("a comment", "COMMENT"),
        header_record("GPSA   4.6566e-09  1.4901e-08 -5.9605e-08 -1.1921e-07 A G01", "IONOSPHERIC CORR"),
        header_record("GPSB   8.1920e+04  9.8304e+04 -6.5536e+04 -5.2429e+05 A G01", "IONOSPHERIC CORR"),
        header_record("GPUT -9.3132257462e-10-2.664535259e-15 405504 2111 G01   5", "TIME SYSTEM CORR"),
        header_record("    18    18  2185     7GPS", "LEAP SECONDS"),
        header_record("  kept as it is", "MERGED FILE"),
        header_record("", "END OF HEADER")
    );
    let text = format!("{head}{}", join(G01_LINES));
    let mut file = parse_nav_file(&text).expect("read");
    assert!(file.departures().is_empty());
    file.header.text.clear();
    let written = encode_nav_file(&file).expect("write");
    let again = parse_nav_file(&written).expect("reread");
    assert!(again.header.same_as(&file.header), "{written}");
    let line = written.lines().nth(6).unwrap();
    assert_eq!(line, "    18    18  2185     7GPS                                 LEAP SECONDS");
    let row = written.lines().nth(3).unwrap();
    assert_eq!(row, "GPSA   4.6566e-09  1.4901e-08 -5.9605e-08 -1.1921e-07 A G01 IONOSPHERIC CORR");
    // Sets built in code are written as rows, in the order the format lists them.
    file.header.iono_rows.clear();
    let written = encode_nav_file(&file).expect("write");
    assert!(written.contains("GPSA   4.6566e-09  1.4901e-08 -5.9605e-08 -1.1921e-07       IONOSPHERIC CORR"));
}

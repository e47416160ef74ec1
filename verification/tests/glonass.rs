//! GLONASS records: their fields, health and selection.

#![allow(dead_code, unused_imports)]

use sidereon_nav::body::{NavEntry, NavItem};
use sidereon_nav::decimal::Decimal;
use sidereon_nav::epoch::{exact_week_tow_epoch, ExactEpoch};
use sidereon_nav::error::{
    NavDiagnostic, NavParseError, OtherNavBlockKind, SkippedGlonass,
};
use sidereon_nav::file::{
    parse_glonass, parse_glonass_lenient, parse_iono_corrections, parse_leap_seconds, parse_nav,
    parse_nav_file, parse_nav_lenient, parse_sbas, NavFile,
};
use sidereon_nav::frames::IonosphereModel;
use sidereon_nav::id::{GnssSatelliteId, GnssSystem};
use sidereon_nav::record::{
    cnav_ura_nominal_m, is_beidou_geo, BroadcastGroupDelays, BroadcastIssue, BroadcastRecord,
    ClockPolynomial, CnavParameters, CnavSignal, ConstellationConstants, GlonassRecord, GroupDelay,
    KeplerianElements, KlobucharAlphaBeta, NavMessage, NavVersion, StatedNavFields,
};
use sidereon_nav::store::{BroadcastStore, NavMessagePreference};
use sidereon_nav::time::{GnssWeekTow, NavEpoch, Seconds, TimeScale};
use sidereon_nav::write::{encode_nav, encode_nav_file, NavWriteError};

/// The number a double prints as.
fn d(x: f64) -> Decimal {
    let text = format!("{:e}", x.abs());
    let (mantissa, exponent) = text.split_once('e').unwrap();
    let exponent: i32 = exponent.parse().unwrap();
    let fraction = mantissa.split_once('.').map_or(0, |(_, f)| f.len() as i32);
    let mut digits: u128 = mantissa.replace('.', "").parse().unwrap();
    let mut exponent = exponent - fraction;
    if digits == 0 {
        return Decimal::zero();
    }
    while digits % 10 == 0 {
        digits /= 10;
        exponent += 1;
    }
    Decimal { negative: x < 0.0, digits, exponent }
}

/// A time of a whole and a fraction.
fn secs(x: f64) -> Seconds {
    Seconds::from_decimal(d(x))
}

/// The instant `offset` seconds after a record's `toe`, in GPS time.
fn toe_plus(record: &BroadcastRecord, offset: f64) -> ExactEpoch {
    let native = exact_week_tow_epoch(record.toe);
    let bdt = if record.satellite_id.system == GnssSystem::BeiDou { 14.0 } else { 0.0 };
    native.checked_add_seconds(d(offset)).unwrap().checked_add_seconds(d(bdt)).unwrap()
}

/// The instant `offset` seconds after another.
fn later(t: ExactEpoch, offset: f64) -> ExactEpoch {
    t.checked_add_seconds(d(offset)).unwrap()
}

fn civil(year: i32, month: u8, day: u8, hour: u8, minute: u8, second: f64) -> NavEpoch {
    NavEpoch { year, month, day, hour, minute, second: d(second) }
}

fn d19_12(value: f64) -> String {
    let mut out = String::new();
    d(value).push_d19_12(&mut out);
    out
}

fn broadcast_time(system: GnssSystem, week: u32, sow: f64) -> GnssWeekTow {
    let scale = match system {
        GnssSystem::Galileo => TimeScale::Gst,
        GnssSystem::BeiDou => TimeScale::Bdt,
        _ => TimeScale::Gpst,
    };
    GnssWeekTow::new(scale, week, secs(sow)).normalized().unwrap()
}

const G01_LINES: &[&str] = &[
    "G01 2020 06 25 04 00 00 1.604342833161e-05 7.048583938740e-12 0.000000000000e+00",
    "     5.800000000000e+01-3.968750000000e+01 4.304822170265e-09 6.342094507864e-01",
    "    -2.177432179451e-06 1.000394229777e-02 1.937150955200e-06 5.153707128525e+03",
    "     3.600000000000e+05-1.508742570877e-07 2.572838528869e+00 1.359730958939e-07",
    "     9.806518601091e-01 3.539687500000e+02 7.941703015008e-01-8.384634967987e-09",
    "    -5.714523747137e-11 1.000000000000e+00 2.111000000000e+03 0.000000000000e+00",
    "     2.000000000000e+00 0.000000000000e+00 5.122274160385e-09 5.800000000000e+01",
    "     3.561060000000e+05 4.000000000000e+00",
];

const E01_LINES: &[&str] = &[
    "E01 2020 06 24 23 30 00-8.846927667037e-04-7.972289495228e-12 0.000000000000e+00",
    "     6.100000000000e+01 1.865625000000e+01 2.656539226950e-09-1.832282909549e+00",
    "     8.568167686462e-07 9.650341235101e-05 1.049041748047e-05 5.440602037430e+03",
    "     3.438000000000e+05 1.862645149231e-09 2.123282284601e-01-1.452863216400e-07",
    "     9.828296477370e-01 1.298750000000e+02-2.778709093141e+00-5.216288707934e-09",
    "    -6.996720012901e-10 2.580000000000e+02 2.111000000000e+03",
    "     3.120000000000e+00 0.000000000000e+00-1.862645149231e-09 0.000000000000e+00",
    "     3.445400000000e+05",
];

const R01_GLONASS_LINES: &[&str] = &[
    "R01 2020 06 24 23 15 00 6.355904042721e-05 0.000000000000e+00 3.420000000000e+05",
    "     1.090894238281e+04 1.407806396484e+00-1.862645149231e-09 0.000000000000e+00",
    "    -2.885726074219e+03 2.795855522156e+00-0.000000000000e+00 1.000000000000e+00",
    "     2.288353955078e+04-3.169984817505e-01-2.793967723846e-09 0.000000000000e+00",
];

const S20_LINES: &[&str] = &[
    "S20 2020 06 25 00 01 36 1.117587089539e-08 0.000000000000e+00 3.456960000000e+05",
    "     4.063093080000e+04 1.200000000000e-03 1.000000000000e-07 0.000000000000e+00",
    "    -1.126480640000e+04-2.400000000000e-03 0.000000000000e+00 4.000000000000e+00",
    "     2.000000000000e+01 1.000000000000e-04 0.000000000000e+00 2.200000000000e+01",
];

const V4_NAV_HEADER: &str =
    "     4.00           NAVIGATION DATA     M                   RINEX VERSION / TYPE\n\
     XXX                                                         END OF HEADER\n";

const V3_NAV_HEADER: &str =
    "     3.05           NAVIGATION DATA     M                   RINEX VERSION / TYPE\n\
     XXX                                                         END OF HEADER\n";

fn gps_nav_text_with_epoch_field(start: usize, end: usize, value: &str) -> String {
    let mut lines: Vec<String> = G01_LINES.iter().map(ToString::to_string).collect();
    lines[0].replace_range(start..end, value);

    let mut text = String::from(V3_NAV_HEADER);
    for line in lines {
        text.push_str(&line);
        text.push('\n');
    }
    text
}

fn gps_nav_text_with_month(month: &str) -> String {
    gps_nav_text_with_epoch_field(9, 11, month)
}

fn glonass_text(lines: &[String]) -> String {
    nav_text_with_version("3.04", lines)
}

fn r01_glonass_lines() -> Vec<String> {
    R01_GLONASS_LINES.iter().map(ToString::to_string).collect()
}

fn nav_text_with_version(version: &str, lines: &[String]) -> String {
    let mut text = format!(
        "{version:>9}           NAVIGATION DATA     M                   RINEX VERSION / TYPE\n\
     XXX                                                         END OF HEADER\n"
    );
    for line in lines {
        text.push_str(line);
        text.push('\n');
    }
    text
}

fn nav_text(lines: &[String]) -> String {
    nav_text_with_version("3.05", lines)
}

fn g01_lines() -> Vec<String> {
    G01_LINES.iter().map(ToString::to_string).collect()
}

fn e01_lines() -> Vec<String> {
    E01_LINES.iter().map(ToString::to_string).collect()
}

fn satellite_lines(template: &[&str], token: &str) -> Vec<String> {
    assert_eq!(token.len(), 3);
    let mut lines: Vec<String> = template.iter().map(ToString::to_string).collect();
    lines[0].replace_range(0..3, token);
    lines
}

fn replace_orbit_field(line: &str, field_index: usize, value: &str) -> String {
    let ranges = [(4, 23), (23, 42), (42, 61), (61, 80)];
    let (start, end) = ranges[field_index];
    let field = format!("{value:>width$}", width = end - start);
    let mut out = format!("{line:<80}");
    out.replace_range(start..end, &field);
    out
}

fn blank_orbit_field(line: &str, field_index: usize) -> String {
    let ranges = [(4, 23), (23, 42), (42, 61), (61, 80)];
    let (start, end) = ranges[field_index];
    let mut out = format!("{line:<80}");
    out.replace_range(start..end, "                   ");
    out
}

fn cnav_orbit_line(values: [Option<f64>; 4]) -> String {
    let mut line = String::from("    ");
    for value in values {
        match value {
            Some(value) => line.push_str(&d19_12(value)),
            None => line.push_str("                   "),
        }
    }
    line
}

fn cnav_clock_line(sat: &str, af0: f64) -> String {
    let mut line = format!("{sat:<3} 2020 06 25 04 00 00");
    line.push_str(&d19_12(af0));
    line.push_str(&d19_12(7.0e-12));
    line.push_str(&d19_12(0.0));
    line
}

fn cnav_lines_with_clock(sat: &str, af0: f64) -> Vec<String> {
    vec![
        cnav_clock_line(sat, af0),
        cnav_orbit_line([
            Some(0.125),
            Some(-39.6875),
            Some(4.304822170265e-9),
            Some(0.6342094507864),
        ]),
        cnav_orbit_line([
            Some(-2.177432179451e-6),
            Some(0.01000394229777),
            Some(1.9371509552e-6),
            Some(5153.707128525),
        ]),
        cnav_orbit_line([
            Some(360_000.0),
            Some(-1.508742570877e-7),
            Some(2.572838528869),
            Some(1.359730958939e-7),
        ]),
        cnav_orbit_line([
            Some(0.9806518601091),
            Some(353.96875),
            Some(0.7941703015008),
            Some(-8.384634967987e-9),
        ]),
        cnav_orbit_line([
            Some(-5.714523747137e-11),
            Some(1.0e-18),
            Some(0.0),
            Some(2.0),
        ]),
        cnav_orbit_line([Some(1.0), Some(0.0), Some(5.122274160385e-9), Some(4.0)]),
        cnav_orbit_line([Some(1.0e-9), Some(2.0e-9), Some(3.0e-9), Some(4.0e-9)]),
        cnav_orbit_line([Some(356_106.0), Some(2111.0), Some(5.0), None]),
    ]
}

fn cnav_lines(sat: &str) -> Vec<String> {
    cnav_lines_with_clock(sat, 2.0e-4)
}

fn cnv2_lines(sat: &str) -> Vec<String> {
    let mut lines = cnav_lines_with_clock(sat, 3.0e-4);
    lines[8] = cnav_orbit_line([Some(6.0e-9), Some(7.0e-9), None, None]);
    lines.push(cnav_orbit_line([
        Some(356_106.0),
        Some(2111.0),
        Some(1.0),
        None,
    ]));
    lines
}

fn push_owned_lines(out: &mut String, lines: &[String]) {
    for line in lines {
        out.push_str(line);
        out.push('\n');
    }
}

fn join(lines: &[&str]) -> String {
    let mut s = lines.join("\n");
    s.push('\n');
    s
}

fn replace_fourth_orbit_field(line: &str, value: &str) -> String {
    assert_eq!(line.len(), 80);
    let field = format!("{value:>19}");
    assert_eq!(field.len(), 19);
    let mut out = line.to_string();
    out.replace_range(61..80, &field);
    out
}

fn nav_text_with_header_line(header_line: &str) -> String {
    format!(
        "     3.05           NAVIGATION DATA     M                   RINEX VERSION / TYPE\n\
{header_line}\n\
     XXX                                                         END OF HEADER\n{}",
        join(G01_LINES)
    )
}

fn header_record(content: &str, label: &str) -> String {
    format!("{content:<60}{label}\n")
}

fn v4_data_frames() -> String {
    let mut text = String::new();
    text.push_str("> ION G29 LNAV\n");
    text.push_str(
        "    2020 06 25 00 00 00 1.024454832077e-08 0.000000000000e+00 0.000000000000e+00\n",
    );
    text.push_str(
        "    -1.192092895508e-07 9.625600000000e+04 0.000000000000e+00 0.000000000000e+00\n",
    );
    text.push_str("    -5.898240000000e+05\n");
    text.push_str("> STO G01 LNAV\n");
    text.push_str(&format!(
        "    2020 06 25 00 00 00 {:<18} {:<18} {:<18}\n",
        "GPUT", "", "UTC(USNO)"
    ));
    text.push_str(
        "     3.456000000000e+05 9.313225746155e-10 2.664535259100e-15 0.000000000000e+00\n",
    );
    text.push_str("> EOP G01 CNVX\n");
    text.push_str(
        "    2020 06 25 00 00 00 1.000000000000e-01 2.000000000000e-03 0.000000000000e+00\n",
    );
    text.push_str(
        "                        3.000000000000e-01-4.000000000000e-03 0.000000000000e+00\n",
    );
    text.push_str(
        "     3.456000000000e+05-2.000000000000e-01 5.000000000000e-04 0.000000000000e+00\n",
    );
    text
}

#[test]
fn parse_glonass_rejects_a_non_navigation_header() {
    let bogus = &format!(
        "{}{}",
        header_record(
            "     3.05           OBSERVATION DATA    M",
            "RINEX VERSION / TYPE"
        ),
        header_record("", "END OF HEADER")
    );
    assert!(matches!(
        parse_glonass(bogus),
        Err(NavParseError::UnsupportedHeader(_))
    ));
}

#[test]
fn parse_glonass_reports_missing_header_end() {
    let truncated =
        "     3.05           NAVIGATION DATA     M                   RINEX VERSION / TYPE\n";
    assert_eq!(
        parse_glonass(truncated),
        Err(NavParseError::MissingHeaderEnd)
    );
}

#[test]
fn parse_glonass_valid_nav_without_glonass_records_is_empty() {
    let recs = parse_glonass(&nav_text(&g01_lines())).expect("valid non-GLONASS NAV");
    assert!(recs.is_empty());
}

#[test]
fn glonass_missing_health_is_bad_field() {
    let mut lines = r01_glonass_lines();
    lines[1] = replace_fourth_orbit_field(&lines[1], "");

    let err = parse_glonass(&glonass_text(&lines))
        .expect_err("missing GLONASS health must not default to healthy");
    assert_eq!(
        err,
        NavParseError::BadField {
            satellite: "R01".to_string(),
            field: "health",
        }
    );
}

#[test]
fn glonass_bad_frequency_channel_is_bad_field() {
    let mut lines = r01_glonass_lines();
    lines[2] = replace_fourth_orbit_field(&lines[2], "not-a-number");

    let err = parse_glonass(&glonass_text(&lines))
        .expect_err("bad GLONASS frequency channel must not default to channel 0");
    assert_eq!(
        err,
        NavParseError::BadField {
            satellite: "R01".to_string(),
            field: "frequency channel",
        }
    );
}

#[test]
fn glonass_nonintegral_frequency_channel_is_bad_field() {
    let mut lines = r01_glonass_lines();
    lines[2] = replace_fourth_orbit_field(&lines[2], "1.5");

    let err = parse_glonass(&glonass_text(&lines))
        .expect_err("fractional GLONASS frequency channel must be a bad field");
    assert_eq!(
        err,
        NavParseError::BadField {
            satellite: "R01".to_string(),
            field: "frequency channel",
        }
    );
}

#[test]
fn glonass_frequency_channel_outside_the_allocation_is_kept() {
    for (value, channel) in [("-8", -8), ("7", 7), ("13", 13)] {
        let mut lines = r01_glonass_lines();
        lines[2] = replace_fourth_orbit_field(&lines[2], value);

        let recs = parse_glonass(&glonass_text(&lines))
            .unwrap_or_else(|err| panic!("channel {value} is a stated integer: {err:?}"));
        assert_eq!(recs[0].freq_channel, channel, "channel {value}");
    }
}

#[test]
fn glonass_frequency_channel_beyond_the_integer_field_is_bad_field() {
    let mut lines = r01_glonass_lines();
    lines[2] = replace_fourth_orbit_field(&lines[2], "3.000000000000e+09");

    let err = parse_glonass(&glonass_text(&lines))
        .expect_err("a channel beyond i32 is not a channel the record can hold");
    assert_eq!(
        err,
        NavParseError::BadField {
            satellite: "R01".to_string(),
            field: "frequency channel",
        }
    );
}

#[test]
fn glonass_integral_frequency_channel_parses() {
    let mut lines = r01_glonass_lines();
    lines[2] = replace_fourth_orbit_field(&lines[2], "-7");

    let recs = parse_glonass(&glonass_text(&lines)).expect("valid GLONASS frequency channel");
    assert_eq!(recs[0].freq_channel, -7);
}

#[test]
fn valid_edge_glonass_nav_prn_parses_into_broadcast_store() {
    let lines = satellite_lines(R01_GLONASS_LINES, "R27");

    let store = BroadcastStore::from_nav(&glonass_text(&lines)).expect("valid GLONASS PRN parses");
    assert_eq!(store.glonass_records().len(), 1);
    assert_eq!(
        store.glonass_records()[0].satellite_id,
        GnssSatelliteId::new(GnssSystem::Glonass, 27).expect("valid satellite id")
    );
}

#[test]
fn rejects_out_of_range_glonass_utc_epoch() {
    let mut lines = r01_glonass_lines();
    lines[0].replace_range(12..14, "31");

    let err = parse_glonass(&glonass_text(&lines))
        .expect_err("out-of-range GLONASS UTC epoch must be a parse error");
    assert_eq!(
        err,
        NavParseError::BadField {
            satellite: "R01".to_string(),
            field: "epoch",
        }
    );
}

#[test]
fn glonass_utc_epoch_rejects_invalid_leap_second_range() {
    for second in ["61", "-1"] {
        let mut lines = r01_glonass_lines();
        lines[0].replace_range(21..23, second);
        let err = parse_glonass(&glonass_text(&lines))
            .expect_err("invalid GLONASS UTC seconds must be a parse error");
        assert_eq!(
            err,
            NavParseError::BadField {
                satellite: "R01".to_string(),
                field: "epoch",
            }
        );
    }
}

#[test]
fn parse_glonass_keeps_extended_slot_alongside_others() {
    // R28 is an extended GLONASS slot as seen in real BKG/IGS broadcast-nav
    // files. The slot token range is R01..R99, so it is parsed and kept
    // alongside R01 rather than dropped.
    let mut lines = r01_glonass_lines();
    lines.extend(satellite_lines(R01_GLONASS_LINES, "R28"));

    let recs = parse_glonass(&glonass_text(&lines)).expect("an extended GLONASS slot must parse");
    assert_eq!(recs.len(), 2, "both records are kept");
    assert_eq!(recs[0].satellite_id.prn, 1);
    assert_eq!(recs[1].satellite_id.prn, 28);
    assert_eq!(
        recs[1].satellite_id.system,
        GnssSystem::Glonass,
        "R28 is a GLONASS slot"
    );
    assert_eq!(recs[1].freq_channel, 1, "R28 keeps its own FDMA channel");
    assert_eq!(
        recs[1].pos_m, recs[0].pos_m,
        "the fixture gives both records the same orbit, read independently"
    );
}

#[test]
fn parse_glonass_lenient_surfaces_only_unrepresentable_slots() {
    // The lenient parser keeps every representable record and reports only the
    // tokens it could not represent. R28 is representable; R00 is not.
    let mut lines = r01_glonass_lines();
    lines.extend(satellite_lines(R01_GLONASS_LINES, "R28"));
    lines.extend(satellite_lines(R01_GLONASS_LINES, "R00"));

    let parsed = parse_glonass_lenient(&glonass_text(&lines))
        .expect("an extended GLONASS slot must not reject the file");
    assert_eq!(
        parsed.records.len(),
        2,
        "R01 and R28 are both representable"
    );
    assert_eq!(parsed.records[0].satellite_id.prn, 1);
    assert_eq!(parsed.records[1].satellite_id.prn, 28);
    assert_eq!(
        parsed.skipped,
        vec![SkippedGlonass {
            token: "R00".to_string(),
            line: 11,
        }],
        "only the unrepresentable token is surfaced"
    );
    assert!(parsed.invalid.is_empty());
    assert!(parsed.departures.is_empty());
}

#[test]
fn extended_glonass_slot_loads_beside_other_systems() {
    // A mixed file: a GPS Keplerian record, a healthy GLONASS R01, and an
    // extended R28. All three survive.
    let mut lines = g01_lines();
    lines.extend(r01_glonass_lines());
    lines.extend(satellite_lines(R01_GLONASS_LINES, "R28"));

    let store = BroadcastStore::from_nav(&glonass_text(&lines))
        .expect("an extended GLONASS slot must not reject the whole file");
    let gps = GnssSatelliteId::new(GnssSystem::Gps, 1).expect("valid satellite id");
    assert!(
        store.records().iter().any(|r| r.satellite_id == gps),
        "GPS record still loads alongside R28"
    );
    assert_eq!(
        store.glonass_records().len(),
        2,
        "R01 and the extended R28 are both kept"
    );
    let slots: Vec<u8> = store
        .glonass_records()
        .iter()
        .map(|r| r.satellite_id.prn)
        .collect();
    assert_eq!(slots, vec![1, 28]);
}

#[test]
fn broadcast_store_sources_glonass_channels_from_nav() {
    // When an OBS file lacks `GLONASS SLOT / FRQ #` records, the per-satellite
    // FDMA channel numbers are obtainable from the broadcast nav GLONASS
    // records via the convenience accessor.
    let store =
        BroadcastStore::from_nav(&glonass_text(&r01_glonass_lines())).expect("GLONASS NAV parses");
    let channels = store.glonass_frequency_channels();
    assert_eq!(
        channels.get(&1).copied(),
        Some(1),
        "R01 FDMA channel sourced from nav"
    );
    assert_eq!(
        store.glonass_records()[0].freq_channel,
        1,
        "accessor matches the per-record channel"
    );
}

#[test]
fn glonass_channel_above_128_reads_as_negative() {
    let mut lines = r01_glonass_lines();
    lines[2] = replace_fourth_orbit_field(&lines[2], "2.500000000000e+02");
    let text = glonass_text(&lines);
    let record = parse_glonass(&text).expect("parse")[0];
    assert_eq!(record.freq_channel, -6);
    assert_eq!(record.stated_freq_channel, 250);
    let store = BroadcastStore::from_nav(&text).expect("store");
    assert_eq!(
        store.glonass_frequency_channels().get(&1).copied(),
        Some(-6)
    );

    // The stated value is written back, byte for byte from the file and from fields.
    let file = parse_nav_file(&text).expect("read");
    assert_eq!(encode_nav_file(&file).expect("restate"), text);
    let mut edited = file.clone();
    for entry in &mut edited.entries {
        entry.text.clear();
    }
    let written = encode_nav_file(&edited).expect("write");
    assert!(written.contains("2.500000000000e+02"), "{written}");
    assert_eq!(parse_glonass(&written).expect("reread")[0], record);
}

#[test]
fn unrepresentable_glonass_nav_slots_are_skipped_not_rejected() {
    // `R00` is not a satellite token - the slot range is 01..99 - so it is
    // skipped rather than rejecting the whole file. A real R01 record alongside
    // it still loads.
    let mut lines = satellite_lines(R01_GLONASS_LINES, "R00");
    lines.extend(r01_glonass_lines());

    let store = BroadcastStore::from_nav(&glonass_text(&lines))
        .unwrap_or_else(|err| panic!("slot R00 must be skipped, not reject the file: {err:?}"));
    assert_eq!(
        store.glonass_records().len(),
        1,
        "only the representable R01 record is kept alongside R00"
    );
    assert_eq!(
        store.glonass_records()[0].satellite_id,
        GnssSatelliteId::new(GnssSystem::Glonass, 1).expect("valid satellite id"),
        "kept record is R01 (with R00 skipped)"
    );
}

#[test]
fn extended_slot_r28_with_channel_7_is_read_and_kept() {
    let mut lines = r01_glonass_lines();
    let mut r28 = satellite_lines(R01_GLONASS_LINES, "R28");
    r28[2] = replace_fourth_orbit_field(&r28[2], "7");
    lines.extend(r28);

    let recs = parse_glonass(&glonass_text(&lines)).expect("R28 with channel 7 parses");
    assert_eq!(recs.len(), 2);
    assert_eq!(recs[1].satellite_id.token(), "R28");
    assert_eq!(recs[1].freq_channel, 7);

    let store = BroadcastStore::from_nav(&glonass_text(&lines)).expect("GLONASS NAV parses");
    let channels = store.glonass_frequency_channels();
    assert_eq!(channels.get(&1).copied(), Some(1));
    assert_eq!(channels.get(&28).copied(), Some(7));
    assert!(
        !sidereon_nav::glonass::valid_glonass_frequency_channel(7),
        "channel 7 is outside the FDMA allocation"
    );
}

#[test]
fn extended_glonass_nav_slots_are_retained_with_their_own_data() {
    // R28 is an extended GLONASS slot that real BKG/IGS broadcast-nav files
    // carry, and R99 is the top of the slot-token range. Both are ordinary
    // satellite tokens and must be kept with their own ephemeris and channel,
    // alongside R01.
    for slot in [28u8, 99] {
        let token = format!("R{slot:02}");
        let mut lines = satellite_lines(R01_GLONASS_LINES, &token);
        lines.extend(r01_glonass_lines());

        let store = BroadcastStore::from_nav(&glonass_text(&lines))
            .unwrap_or_else(|err| panic!("slot {token} must load: {err:?}"));
        let records = store.glonass_records();
        assert_eq!(records.len(), 2, "{token} is kept alongside R01");

        let extended = records
            .iter()
            .find(|r| r.satellite_id.prn == slot)
            .unwrap_or_else(|| panic!("{token} record present"));
        assert_eq!(extended.satellite_id.system, GnssSystem::Glonass);
        assert_eq!(extended.satellite_id.token(), token);
        // Its own values, read from its own record - not a neighbour's.
        assert_eq!(
            extended.freq_channel, 1,
            "{token} keeps the channel its record carried"
        );
        assert_eq!(
            extended.clk_bias, d(6.355_904_042_721e-05),
            "{token} clock bias"
        );
        assert_eq!(
            extended.pos_m[0],
            d(1.090_894_238_281e07),
            "{token} position X"
        );

        // The channel accessor keys by slot, so both slots are reachable.
        let channels = store.glonass_frequency_channels();
        assert_eq!(channels.get(&slot).copied(), Some(1), "{token}");
        assert_eq!(channels.get(&1).copied(), Some(1), "R01 alongside {token}");
    }
}

#[test]
fn glonass_utc_epoch_accepts_leap_second_label() {
    let mut lines = r01_glonass_lines();
    lines[0].replace_range(4..8, "2016");
    lines[0].replace_range(9..11, "12");
    lines[0].replace_range(12..14, "31");
    lines[0].replace_range(15..17, "23");
    lines[0].replace_range(18..20, "59");
    lines[0].replace_range(21..23, "60");

    let recs = parse_glonass(&glonass_text(&lines)).expect("GLONASS leap-second epoch");
    assert_eq!(recs.len(), 1);
    let stated = civil(2016, 12, 31, 23, 59, 60.0).j2000_s();
    assert_eq!(recs[0].epoch_utc_j2000_s, stated);
    // 23:59:60 is 2017-01-01 00:00:00 on the seconds count, already on the 15-minute
    // grid, so the reference epoch is the stated one.
    assert_eq!(recs[0].toe_utc_j2000_s, stated.whole);
}

#[test]
fn glonass_epochs_use_the_leap_second_table() {
    let mut lines = r01_glonass_lines();
    lines[0].replace_range(4..23, "2017 01 01 00 15 00");
    let no_leap = glonass_text(&lines);
    let with_17 = format!(
        "{}{}{}{}",
        header_record(
            "     3.04           NAVIGATION DATA     M",
            "RINEX VERSION / TYPE"
        ),
        header_record("    17", "LEAP SECONDS"),
        header_record("", "END OF HEADER"),
        lines.iter().map(|l| format!("{l}\n")).collect::<String>()
    );
    for text in [no_leap, with_17] {
        let store = BroadcastStore::from_nav(&text).expect("store");
        let rec = store.glonass_records()[0];
        let utc = civil(2017, 1, 1, 0, 15, 0.0).j2000_s().whole;
        assert_eq!(rec.toe_utc_j2000_s, utc);
        assert_eq!(rec.toe_gpst_j2000_s(), ExactEpoch::new(utc + 18, 0).unwrap());
        let at = ExactEpoch::new(utc + 18, 0).unwrap();
        let selected = store.select_glonass_at(rec.satellite_id, at);
        assert_eq!(selected.expect("GLONASS record at its reference epoch").pos_m, rec.pos_m);
    }
}

#[test]
fn glonass_fourth_orbit_line_health_and_group_delay() {
    let fourth = |status: &str, dtaun: &str, urai: &str, flags: &str| {
        format!("    {status:>19}{dtaun:>19}{urai:>19}{flags:>19}")
    };
    let mut lines = r01_glonass_lines();
    lines.push(fourth(
        "1.830000000000e+02",
        "-2.793967723846e-09",
        "3.000000000000e+00",
        "0.000000000000e+00",
    ));
    let healthy = nav_text(&lines);
    let recs = parse_glonass(&healthy).expect("parse 3.05 GLONASS");
    let rec = recs[0];
    assert_eq!(rec.message_frame_time_s, Some(d(342_000.0)));
    assert_eq!(rec.age_days, Some(d(0.0)));
    assert_eq!(rec.status_flags_word(), Some(183));
    assert_eq!(rec.urai, Some(d(3.0)));
    assert!(rec.is_healthy());
    let expected_delay = GroupDelay::GlonassG1(d(-2.793967723846e-09));
    assert_eq!(rec.single_frequency_group_delay_s(), Some(expected_delay));
    let store = BroadcastStore::from_nav(&healthy).expect("store");
    let t = rec.toe_gpst_j2000_s();
    assert_eq!(
        store.single_frequency_group_delay_s(rec.satellite_id, t),
        Some(expected_delay)
    );
    // The unknown-delay value reads as no delay.
    let mut lines = r01_glonass_lines();
    lines.push(fourth("", ".999999999999e+09", "1.500000000000e+01", ""));
    let unknown = parse_glonass(&nav_text(&lines)).expect("parse")[0];
    assert_eq!(unknown.l1_l2_group_delay_s(), None);
    assert_eq!(unknown.single_frequency_group_delay_s(), None);

    // Health by RINEX 3.05 Table A10: `Bn` MSB; almanac health `C` (bit 0) only where
    // `AC` (bit 1) is set; `l(3)` (bit 2) only for a GLONASS-M/K record (status bits 7-8
    // `01`, as 183 states) or where the status flags are not stated.
    let health = |status: &str, flags: &str| {
        let mut lines = r01_glonass_lines();
        lines.push(fourth(
            status,
            "0.000000000000e+00",
            "3.000000000000e+00",
            flags,
        ));
        parse_glonass(&nav_text(&lines)).expect("parse")[0].is_healthy()
    };
    let glo_m = "1.830000000000e+02";
    let glo = "3.000000000000e+00";
    assert!(health(glo_m, "0.000000000000e+00"));
    assert!(
        health(glo_m, "1.000000000000e+00"),
        "C is ignored when AC is 0"
    );
    assert!(!health(glo_m, "2.000000000000e+00"), "AC set, C unhealthy");
    assert!(health(glo_m, "3.000000000000e+00"), "AC set, C healthy");
    assert!(
        !health(glo_m, "4.000000000000e+00"),
        "l(3) of a GLONASS-M/K record"
    );
    assert!(
        health(glo, "4.000000000000e+00"),
        "l(3) of a GLONASS record"
    );
    assert!(
        !health("", "4.000000000000e+00"),
        "l(3) with no status flags"
    );
    assert!(health(glo_m, ""), "no health flags");

    // An unhealthy record is held and selected, and the selection yields no record.
    let mut lines = r01_glonass_lines();
    lines.push(fourth(
        glo_m,
        "0.000000000000e+00",
        "3.000000000000e+00",
        "2.000000000000e+00",
    ));
    let flagged = nav_text(&lines);
    let rec = parse_glonass(&flagged).expect("parse")[0];
    assert_eq!(rec.sv_health, d(0.0));
    assert_eq!(rec.health_flags_word(), Some(2));
    assert!(!rec.is_healthy());
    let store = BroadcastStore::from_nav(&flagged).expect("store");
    assert_eq!(store.glonass_records().len(), 1);
    assert_eq!(
        store.select_glonass_at(rec.satellite_id, rec.toe_gpst_j2000_s()),
        None
    );

    // A 3.05 record without its fourth line departs from the layout: the strict reader
    // refuses it, the lenient one keeps it with the fields absent.
    let short = nav_text(&r01_glonass_lines());
    assert_eq!(
        parse_glonass(&short),
        Err(NavParseError::TruncatedRecord("R01".to_string()))
    );
    let lenient = parse_glonass_lenient(&short).expect("lenient");
    assert_eq!(lenient.records.len(), 1);
    assert_eq!(lenient.departures.len(), 1);
    assert_eq!(lenient.records[0].status_flags, None);
}

#[test]
fn glonass_reference_epoch_is_on_the_15_minute_grid() {
    let on_grid = r01_glonass_lines();
    let mut off_grid = r01_glonass_lines();
    off_grid[0].replace_range(4..23, "2020 06 24 23 14 58");
    let a = BroadcastStore::from_nav(&glonass_text(&on_grid)).expect("on grid");
    let b = BroadcastStore::from_nav(&glonass_text(&off_grid)).expect("off grid");
    let (ra, rb) = (a.glonass_records()[0], b.glonass_records()[0]);
    assert_eq!(ra.toe_utc_j2000_s, rb.toe_utc_j2000_s);
    assert_eq!(
        rb.epoch_utc_j2000_s,
        Seconds { whole: rb.toe_utc_j2000_s - 2, quectos: 0 }
    );
    let t = later(ra.toe_gpst_j2000_s(), 300.0);
    assert_eq!(a.select_glonass_at(ra.satellite_id, t), Some(&ra));
    assert_eq!(b.select_glonass_at(rb.satellite_id, t), Some(&rb));
    let file = parse_nav_file(&glonass_text(&off_grid)).expect("parse");
    let mut entry = file.entries[0].clone();
    entry.text.clear();
    let mut rebuilt = NavFile::new(file.header.clone());
    rebuilt.entries.push(entry);
    let written = encode_nav_file(&rebuilt).expect("encode");
    assert!(written.contains("R01 2020 06 24 23 14 58"));
}

//! Selection among the records of a store.

#![allow(dead_code, unused_imports)]

use sidereon_nav::body::{NavEntry, NavItem};
use sidereon_nav::decimal::Decimal;
use sidereon_nav::epoch::{exact_week_tow_epoch, ExactEpoch};
use sidereon_nav::error::{
    NavDiagnostic, NavParseError, OtherNavBlockKind, SkippedGlonass,
};
use sidereon_nav::file::{
    parse_glonass, parse_glonass_lenient, parse_iono_corrections, parse_leap_seconds, parse_nav,
    parse_nav_file, parse_nav_lenient, parse_sbas, NavFile,
};
use sidereon_nav::frames::IonosphereModel;
use sidereon_nav::id::{GnssSatelliteId, GnssSystem};
use sidereon_nav::record::{
    cnav_ura_nominal_m, is_beidou_geo, BroadcastGroupDelayTerm, BroadcastGroupDelays, BroadcastIssue, BroadcastRecord,
    ClockPolynomial, CnavParameters, CnavSignal, ConstellationConstants, GlonassRecord, GroupDelay,
    KeplerianElements, KlobucharAlphaBeta, NavMessage, NavVersion, StatedNavFields,
};
use sidereon_nav::evaluate::SelectedRecord;
use sidereon_nav::store::{sbas_issue_matches, BroadcastStore, NavMessagePreference};
use sidereon_nav::time::{GnssWeekTow, NavEpoch, Seconds, TimeScale};
use sidereon_nav::write::{encode_nav, encode_nav_file, NavWriteError};

/// The number a double prints as.
fn d(x: f64) -> Decimal {
    let text = format!("{:e}", x.abs());
    let (mantissa, exponent) = text.split_once('e').unwrap();
    let exponent: i32 = exponent.parse().unwrap();
    let fraction = mantissa.split_once('.').map_or(0, |(_, f)| f.len() as i32);
    let mut digits: u128 = mantissa.replace('.', "").parse().unwrap();
    let mut exponent = exponent - fraction;
    if digits == 0 {
        return Decimal::zero();
    }
    while digits % 10 == 0 {
        digits /= 10;
        exponent += 1;
    }
    Decimal { negative: x < 0.0, digits, exponent }
}

/// A time of a whole and a fraction.
fn secs(x: f64) -> Seconds {
    Seconds::from_decimal(d(x))
}

/// The instant `offset` seconds after a record's `toe`, in GPS time.
fn toe_plus(record: &BroadcastRecord, offset: f64) -> ExactEpoch {
    let native = exact_week_tow_epoch(record.toe);
    let bdt = if record.satellite_id.system == GnssSystem::BeiDou { 14.0 } else { 0.0 };
    native.checked_add_seconds(d(offset)).unwrap().checked_add_seconds(d(bdt)).unwrap()
}

/// The instant `offset` seconds after another.
fn later(t: ExactEpoch, offset: f64) -> ExactEpoch {
    t.checked_add_seconds(d(offset)).unwrap()
}

fn civil(year: i32, month: u8, day: u8, hour: u8, minute: u8, second: f64) -> NavEpoch {
    NavEpoch { year, month, day, hour, minute, second: d(second) }
}

fn d19_12(value: f64) -> String {
    let mut out = String::new();
    d(value).push_d19_12(&mut out);
    out
}

fn broadcast_time(system: GnssSystem, week: u32, sow: f64) -> GnssWeekTow {
    let scale = match system {
        GnssSystem::Galileo => TimeScale::Gst,
        GnssSystem::BeiDou => TimeScale::Bdt,
        _ => TimeScale::Gpst,
    };
    GnssWeekTow::new(scale, week, secs(sow)).normalized().unwrap()
}

const G01_LINES: &[&str] = &[
    "G01 2020 06 25 04 00 00 1.604342833161e-05 7.048583938740e-12 0.000000000000e+00",
    "     5.800000000000e+01-3.968750000000e+01 4.304822170265e-09 6.342094507864e-01",
    "    -2.177432179451e-06 1.000394229777e-02 1.937150955200e-06 5.153707128525e+03",
    "     3.600000000000e+05-1.508742570877e-07 2.572838528869e+00 1.359730958939e-07",
    "     9.806518601091e-01 3.539687500000e+02 7.941703015008e-01-8.384634967987e-09",
    "    -5.714523747137e-11 1.000000000000e+00 2.111000000000e+03 0.000000000000e+00",
    "     2.000000000000e+00 0.000000000000e+00 5.122274160385e-09 5.800000000000e+01",
    "     3.561060000000e+05 4.000000000000e+00",
];

const E01_LINES: &[&str] = &[
    "E01 2020 06 24 23 30 00-8.846927667037e-04-7.972289495228e-12 0.000000000000e+00",
    "     6.100000000000e+01 1.865625000000e+01 2.656539226950e-09-1.832282909549e+00",
    "     8.568167686462e-07 9.650341235101e-05 1.049041748047e-05 5.440602037430e+03",
    "     3.438000000000e+05 1.862645149231e-09 2.123282284601e-01-1.452863216400e-07",
    "     9.828296477370e-01 1.298750000000e+02-2.778709093141e+00-5.216288707934e-09",
    "    -6.996720012901e-10 2.580000000000e+02 2.111000000000e+03",
    "     3.120000000000e+00 0.000000000000e+00-1.862645149231e-09 0.000000000000e+00",
    "     3.445400000000e+05",
];

const R01_GLONASS_LINES: &[&str] = &[
    "R01 2020 06 24 23 15 00 6.355904042721e-05 0.000000000000e+00 3.420000000000e+05",
    "     1.090894238281e+04 1.407806396484e+00-1.862645149231e-09 0.000000000000e+00",
    "    -2.885726074219e+03 2.795855522156e+00-0.000000000000e+00 1.000000000000e+00",
    "     2.288353955078e+04-3.169984817505e-01-2.793967723846e-09 0.000000000000e+00",
];

const S20_LINES: &[&str] = &[
    "S20 2020 06 25 00 01 36 1.117587089539e-08 0.000000000000e+00 3.456960000000e+05",
    "     4.063093080000e+04 1.200000000000e-03 1.000000000000e-07 0.000000000000e+00",
    "    -1.126480640000e+04-2.400000000000e-03 0.000000000000e+00 4.000000000000e+00",
    "     2.000000000000e+01 1.000000000000e-04 0.000000000000e+00 2.200000000000e+01",
];

const V4_NAV_HEADER: &str =
    "     4.00           NAVIGATION DATA     M                   RINEX VERSION / TYPE\n\
     XXX                                                         END OF HEADER\n";

const V3_NAV_HEADER: &str =
    "     3.05           NAVIGATION DATA     M                   RINEX VERSION / TYPE\n\
     XXX                                                         END OF HEADER\n";

fn gps_nav_text_with_epoch_field(start: usize, end: usize, value: &str) -> String {
    let mut lines: Vec<String> = G01_LINES.iter().map(ToString::to_string).collect();
    lines[0].replace_range(start..end, value);

    let mut text = String::from(V3_NAV_HEADER);
    for line in lines {
        text.push_str(&line);
        text.push('\n');
    }
    text
}

fn gps_nav_text_with_month(month: &str) -> String {
    gps_nav_text_with_epoch_field(9, 11, month)
}

fn glonass_text(lines: &[String]) -> String {
    nav_text_with_version("3.04", lines)
}

fn r01_glonass_lines() -> Vec<String> {
    R01_GLONASS_LINES.iter().map(ToString::to_string).collect()
}

fn nav_text_with_version(version: &str, lines: &[String]) -> String {
    let mut text = format!(
        "{version:>9}           NAVIGATION DATA     M                   RINEX VERSION / TYPE\n\
     XXX                                                         END OF HEADER\n"
    );
    for line in lines {
        text.push_str(line);
        text.push('\n');
    }
    text
}

fn nav_text(lines: &[String]) -> String {
    nav_text_with_version("3.05", lines)
}

fn g01_lines() -> Vec<String> {
    G01_LINES.iter().map(ToString::to_string).collect()
}

fn e01_lines() -> Vec<String> {
    E01_LINES.iter().map(ToString::to_string).collect()
}

fn satellite_lines(template: &[&str], token: &str) -> Vec<String> {
    assert_eq!(token.len(), 3);
    let mut lines: Vec<String> = template.iter().map(ToString::to_string).collect();
    lines[0].replace_range(0..3, token);
    lines
}

fn replace_orbit_field(line: &str, field_index: usize, value: &str) -> String {
    let ranges = [(4, 23), (23, 42), (42, 61), (61, 80)];
    let (start, end) = ranges[field_index];
    let field = format!("{value:>width$}", width = end - start);
    let mut out = format!("{line:<80}");
    out.replace_range(start..end, &field);
    out
}

fn blank_orbit_field(line: &str, field_index: usize) -> String {
    let ranges = [(4, 23), (23, 42), (42, 61), (61, 80)];
    let (start, end) = ranges[field_index];
    let mut out = format!("{line:<80}");
    out.replace_range(start..end, "                   ");
    out
}

fn cnav_orbit_line(values: [Option<f64>; 4]) -> String {
    let mut line = String::from("    ");
    for value in values {
        match value {
            Some(value) => line.push_str(&d19_12(value)),
            None => line.push_str("                   "),
        }
    }
    line
}

fn cnav_clock_line(sat: &str, af0: f64) -> String {
    let mut line = format!("{sat:<3} 2020 06 25 04 00 00");
    line.push_str(&d19_12(af0));
    line.push_str(&d19_12(7.0e-12));
    line.push_str(&d19_12(0.0));
    line
}

fn cnav_lines_with_clock(sat: &str, af0: f64) -> Vec<String> {
    vec![
        cnav_clock_line(sat, af0),
        cnav_orbit_line([
            Some(0.125),
            Some(-39.6875),
            Some(4.304822170265e-9),
            Some(0.6342094507864),
        ]),
        cnav_orbit_line([
            Some(-2.177432179451e-6),
            Some(0.01000394229777),
            Some(1.9371509552e-6),
            Some(5153.707128525),
        ]),
        cnav_orbit_line([
            Some(360_000.0),
            Some(-1.508742570877e-7),
            Some(2.572838528869),
            Some(1.359730958939e-7),
        ]),
        cnav_orbit_line([
            Some(0.9806518601091),
            Some(353.96875),
            Some(0.7941703015008),
            Some(-8.384634967987e-9),
        ]),
        cnav_orbit_line([
            Some(-5.714523747137e-11),
            Some(1.0e-18),
            Some(0.0),
            Some(2.0),
        ]),
        cnav_orbit_line([Some(1.0), Some(0.0), Some(5.122274160385e-9), Some(4.0)]),
        cnav_orbit_line([Some(1.0e-9), Some(2.0e-9), Some(3.0e-9), Some(4.0e-9)]),
        cnav_orbit_line([Some(356_106.0), Some(2111.0), Some(5.0), None]),
    ]
}

fn cnav_lines(sat: &str) -> Vec<String> {
    cnav_lines_with_clock(sat, 2.0e-4)
}

fn cnv2_lines(sat: &str) -> Vec<String> {
    let mut lines = cnav_lines_with_clock(sat, 3.0e-4);
    lines[8] = cnav_orbit_line([Some(6.0e-9), Some(7.0e-9), None, None]);
    lines.push(cnav_orbit_line([
        Some(356_106.0),
        Some(2111.0),
        Some(1.0),
        None,
    ]));
    lines
}

fn push_owned_lines(out: &mut String, lines: &[String]) {
    for line in lines {
        out.push_str(line);
        out.push('\n');
    }
}

fn join(lines: &[&str]) -> String {
    let mut s = lines.join("\n");
    s.push('\n');
    s
}

fn replace_fourth_orbit_field(line: &str, value: &str) -> String {
    assert_eq!(line.len(), 80);
    let field = format!("{value:>19}");
    assert_eq!(field.len(), 19);
    let mut out = line.to_string();
    out.replace_range(61..80, &field);
    out
}

fn nav_text_with_header_line(header_line: &str) -> String {
    format!(
        "     3.05           NAVIGATION DATA     M                   RINEX VERSION / TYPE\n\
{header_line}\n\
     XXX                                                         END OF HEADER\n{}",
        join(G01_LINES)
    )
}

fn header_record(content: &str, label: &str) -> String {
    format!("{content:<60}{label}\n")
}

fn v4_data_frames() -> String {
    let mut text = String::new();
    text.push_str("> ION G29 LNAV\n");
    text.push_str(
        "    2020 06 25 00 00 00 1.024454832077e-08 0.000000000000e+00 0.000000000000e+00\n",
    );
    text.push_str(
        "    -1.192092895508e-07 9.625600000000e+04 0.000000000000e+00 0.000000000000e+00\n",
    );
    text.push_str("    -5.898240000000e+05\n");
    text.push_str("> STO G01 LNAV\n");
    text.push_str(&format!(
        "    2020 06 25 00 00 00 {:<18} {:<18} {:<18}\n",
        "GPUT", "", "UTC(USNO)"
    ));
    text.push_str(
        "     3.456000000000e+05 9.313225746155e-10 2.664535259100e-15 0.000000000000e+00\n",
    );
    text.push_str("> EOP G01 CNVX\n");
    text.push_str(
        "    2020 06 25 00 00 00 1.000000000000e-01 2.000000000000e-03 0.000000000000e+00\n",
    );
    text.push_str(
        "                        3.000000000000e-01-4.000000000000e-03 0.000000000000e+00\n",
    );
    text.push_str(
        "     3.456000000000e+05-2.000000000000e-01 5.000000000000e-04 0.000000000000e+00\n",
    );
    text
}

fn selection_record(system: GnssSystem, toe_sow: f64, issue: u32) -> BroadcastRecord {
    let message = match system {
        GnssSystem::Galileo => NavMessage::GalileoInav,
        GnssSystem::BeiDou => NavMessage::BeidouD1,
        GnssSystem::Qzss => NavMessage::QzssLnav,
        GnssSystem::Navic => NavMessage::NavicLnav,
        _ => NavMessage::GpsLnav,
    };
    BroadcastRecord {
        satellite_id: GnssSatelliteId::new(system, 30).expect("valid satellite id"),
        message,
        issue_of_data: Some(BroadcastIssue { issue, message }),
        week: 2111,
        toe: broadcast_time(system, 2111, toe_sow),
        toc: broadcast_time(system, 2111, toe_sow),
        elements: KeplerianElements {
            sqrt_a: d(5153.0),
            e: d(0.001),
            m0: d(0.0),
            delta_n: d(0.0),
            omega0: d(0.0),
            i0: d(0.9),
            omega: d(0.0),
            omega_dot: d(0.0),
            idot: d(0.0),
            cuc: d(0.0),
            cus: d(0.0),
            crc: d(0.0),
            crs: d(0.0),
            cic: d(0.0),
            cis: d(0.0),
            toe_sow: d(toe_sow),
        },
        clock: ClockPolynomial {
            af0: d(0.0),
            af1: d(0.0),
            af2: d(0.0),
            toc_sow: secs(toe_sow),
        },
        group_delays: BroadcastGroupDelays::default(),
        cnav: None,
        sv_health: d(0.0),
        sv_accuracy_m: Some(d(2.0)),
        fit_interval_h: None,
        stated: StatedNavFields::default(),
    }
}

#[test]
fn keplerian_selection_limits_are_rtklib_seleph_per_system() {
    for (system, limit) in [
        (GnssSystem::Gps, 7_201.0),
        (GnssSystem::Qzss, 7_201.0),
        (GnssSystem::Navic, 7_201.0),
        (GnssSystem::Galileo, 14_400.0),
        (GnssSystem::BeiDou, 21_601.0),
    ] {
        let mut record = selection_record(system, 0.0, 7);
        record.fit_interval_h = Some(d(4.0));
        let sat = record.satellite_id;
        let store = BroadcastStore::new(vec![record]).expect("valid manual store");
        assert!(
            store.select_record_at(sat, toe_plus(&record, limit)).is_some(),
            "{system:?}: {limit} s after toe is inside the limit"
        );
        assert!(
            store
                .select_record_at(sat, toe_plus(&record, limit + 1.0e-3))
                .is_none(),
            "{system:?}: past {limit} s after toe is outside the limit"
        );
        if system == GnssSystem::Galileo {
            // A Galileo record whose toe is not before the query is skipped.
            assert!(store.select_record_at(sat, toe_plus(&record, 0.0)).is_none());
            assert!(store.select_record_at(sat, toe_plus(&record, -60.0)).is_none());
        } else {
            assert!(store.select_record_at(sat, toe_plus(&record, -limit)).is_some());
            assert!(store
                .select_record_at(sat, toe_plus(&record, -limit - 1.0e-3))
                .is_none());
        }
    }
}

#[test]
fn galileo_selection_waits_for_the_new_toe() {
    let old = selection_record(GnssSystem::Galileo, 3_600.0, 10);
    let new = selection_record(GnssSystem::Galileo, 7_200.0, 11);
    let sat = old.satellite_id;
    let query = toe_plus(&new, -300.0);
    let store = BroadcastStore::new(vec![old, new]).expect("valid manual store");
    let selected = store
        .select_record_at(sat, query)
        .expect("a Galileo record");
    assert_eq!(selected.issue_of_data.expect("issue").issue, 10);
}

#[test]
fn equidistant_records_select_the_later_candidate() {
    let early = selection_record(GnssSystem::Gps, 0.0, 1);
    let late = selection_record(GnssSystem::Gps, 7_200.0, 2);
    let sat = early.satellite_id;
    let query = toe_plus(&early, 3_600.0);
    for records in [vec![early, late], vec![late, early]] {
        let store = BroadcastStore::new(records).expect("valid manual store");
        let selected = store.select_record_at(sat, query).expect("a record");
        assert_eq!(selected.issue_of_data.expect("issue").issue, 2);
    }
}

#[test]
fn repeated_data_sets_keep_the_first_transmitted() {
    let mut first = selection_record(GnssSystem::Gps, 0.0, 5);
    first.stated.transmission_time_sow = Some(d(-600.0 + 604_800.0));
    first.clock.af0 = d(1.0e-6);
    let mut second = selection_record(GnssSystem::Gps, 0.0, 5);
    second.stated.transmission_time_sow = Some(d(0.0));
    second.clock.af0 = d(2.0e-6);
    let sat = first.satellite_id;
    let query = toe_plus(&first, 60.0);
    for records in [vec![first, second], vec![second, first]] {
        let store = BroadcastStore::new(records).expect("valid manual store");
        let selected = store.select_record_at(sat, query).expect("a record");
        assert_eq!(selected.clock.af0, d(1.0e-6));
    }
}

#[test]
fn broadcast_store_rejects_unsupported_systems() {
    // `BroadcastStore::new` accepts arbitrary records; a GLONASS satellite (a
    // non-Keplerian state-vector model) must report no ephemeris rather than be
    // evaluated with the wrong model.
    let mut rec = selection_record(GnssSystem::Gps, 0.0, 0);
    let sat = GnssSatelliteId::new(GnssSystem::Glonass, 1).expect("valid satellite id");
    rec.satellite_id = sat;
    let store = BroadcastStore::new(vec![rec]).expect("valid unsupported-system manual store");
    assert!(
        store
            .select_record_at(sat, ExactEpoch::new(646_358_400, 0).unwrap())
            .is_none(),
        "an unsupported system must report no ephemeris"
    );
}

#[test]
fn rinex_302_gps_fit_interval_flag_one_reads_as_six_hours() {
    let mut lines = g01_lines();
    lines[7] = replace_orbit_field(&lines[7], 1, "1.000000000000e+00");
    let text = nav_text_with_version("3.02", &lines);

    let recs = parse_nav(&text).expect("parse RINEX 3.02 GPS record");
    assert_eq!(recs.len(), 1);
    let rec = recs[0];
    let fit = rec.fit_interval_h.expect("GPS fit interval");
    assert_eq!(
        fit,
        d(6.0),
        "legacy flag 1 must decode as literal six hours per RINEX 3.02 Table A6"
    );
    assert_eq!(rec.stated.orbit7_field2, Some(d(1.0)), "the flag as stated");

    // The fit interval is metadata: selection keeps the 7201 s limit.
    let sat = rec.satellite_id;
    let store = BroadcastStore::new(recs).expect("valid manual fit-boundary records");
    assert!(store
        .select_record_at(sat, toe_plus(&rec, 7_201.0))
        .is_some());
    assert!(store
        .select_record_at(sat, toe_plus(&rec, 9_000.0))
        .is_none());
}

#[test]
fn galileo_inav_uses_e5b_e1_bgd_for_clock() {
    let bgd_e5a_e1 = d(1.0e-8);
    let bgd_e5b_e1 = d(2.5e-8);
    let mut lines = e01_lines();
    lines[5] = replace_orbit_field(&lines[5], 1, "1.000000000000e+00");
    lines[6] = replace_orbit_field(&lines[6], 2, "1.000000000000e-08");
    lines[6] = replace_orbit_field(&lines[6], 3, "2.500000000000e-08");
    let text = nav_text(&lines);

    let recs = parse_nav(&text).expect("parse Galileo I/NAV record");
    assert_eq!(recs.len(), 1);
    assert_eq!(recs[0].message, NavMessage::GalileoInav);
    assert_eq!(
        recs[0].group_delays.get(BroadcastGroupDelayTerm::GalileoBgdE5aE1),
        Some(bgd_e5a_e1)
    );
    assert_eq!(
        recs[0].group_delays.get(BroadcastGroupDelayTerm::GalileoBgdE5bE1),
        Some(bgd_e5b_e1)
    );
    assert_eq!(recs[0].broadcast_clock_group_delay_s(), GroupDelay::Term(bgd_e5b_e1));

    let store = BroadcastStore::from_nav(&text).ok().expect("default Galileo store");
    let rec = store.records()[0];
    let t = toe_plus(&rec, 60.0);
    let evaluated = store.selected_at(rec.satellite_id, t, t).expect("selected after toe");
    assert_eq!(evaluated.single_frequency_group_delay_s(), Some(GroupDelay::Term(bgd_e5b_e1)));
    let group_delay = store
        .single_frequency_group_delay_s(rec.satellite_id, t)
        .expect("I/NAV group delay");
    assert_eq!(group_delay, GroupDelay::Term(bgd_e5b_e1));
    assert_ne!(group_delay, GroupDelay::Term(bgd_e5a_e1));
}

#[test]
fn galileo_fnav_source_bit_uses_e5a_e1_bgd_for_clock() {
    let bgd_e5a_e1 = d(1.0e-8);
    let bgd_e5b_e1 = d(2.5e-8);
    let mut lines = e01_lines();
    lines[5] = replace_orbit_field(&lines[5], 1, "2.000000000000e+00");
    lines[6] = replace_orbit_field(&lines[6], 2, "1.000000000000e-08");
    lines[6] = replace_orbit_field(&lines[6], 3, "2.500000000000e-08");
    let text = nav_text(&lines);

    let recs = parse_nav(&text).expect("parse Galileo F/NAV record");
    assert_eq!(recs.len(), 1);
    assert_eq!(recs[0].message, NavMessage::GalileoFnav);
    assert_eq!(recs[0].broadcast_clock_group_delay_s(), GroupDelay::Term(bgd_e5a_e1));
    let store = BroadcastStore::from_nav(&text).ok().expect("default Galileo store");
    assert!(store.records().is_empty());
    assert_ne!(recs[0].broadcast_clock_group_delay_s(), GroupDelay::Term(bgd_e5b_e1));
}

#[test]
fn beidou_record_preserves_tgd1_and_tgd2_terms() {
    let mut lines = satellite_lines(G01_LINES, "C19");
    lines[6] = replace_orbit_field(&lines[6], 2, "-3.250000000000e-09");
    lines[6] = replace_orbit_field(&lines[6], 3, "7.750000000000e-09");
    let text = nav_text(&lines);

    let recs = parse_nav(&text).expect("parse BeiDou record");
    assert_eq!(recs.len(), 1);
    assert_eq!(recs[0].message, NavMessage::BeidouD1);
    assert_eq!(
        recs[0].group_delays.get(BroadcastGroupDelayTerm::BeidouTgd1),
        Some(d(-3.25e-9))
    );
    assert_eq!(
        recs[0].group_delays.get(BroadcastGroupDelayTerm::BeidouTgd2),
        Some(d(7.75e-9))
    );
    assert_eq!(recs[0].broadcast_clock_group_delay_s(), GroupDelay::Term(d(-3.25e-9)));
}

#[test]
fn exact_sbas_ssr_selection_keeps_age_boundary_and_local_transmit_time() {
    let text = |health: f64| {
        let lines = [
            format!("S20 2020 01 01 12 00 00{}{}", d19_12(0.0), d19_12(1.0e-5)),
            format!("    {}{}{}{}", d19_12(0.001), d19_12(1.0), d19_12(0.0), d19_12(health)),
            format!("    {}{}{}", d19_12(0.002), d19_12(0.0), d19_12(0.0)),
            format!("    {}{}{}{}", d19_12(0.003), d19_12(0.0), d19_12(0.0), d19_12(7.0)),
        ];
        nav_text(&lines)
    };
    let store = BroadcastStore::from_nav(&text(0.0)).ok().expect("store");
    let record = store.sbas_records()[0];
    assert_eq!(record.pos_m, [d(1.0), d(2.0), d(3.0)]);
    assert_eq!(record.vel_m_s, [d(1_000.0), d(0.0), d(0.0)]);
    let satellite = record.satellite_id;
    let reference = record.t0_j2000_s();
    let transmit = later(reference, 20.0e-9);
    let at_limit = later(reference, 360.0);
    let past_limit = later(at_limit, 1.0e-18);
    let native_issue =
        (0..512).find(|&issue| sbas_issue_matches(&record, issue, false)).unwrap();
    for (issue, igs_ssr) in [(native_issue, false), (7, true)] {
        let Some(SelectedRecord::Sbas { record: selected, since_t0 }) =
            store.sbas_ssr_state(satellite, issue, igs_ssr, transmit, at_limit)
        else {
            panic!("no SBAS record");
        };
        assert_eq!(*selected, record);
        assert_eq!(since_t0, ExactEpoch { whole: 0, quectos: 20_000_000_000_000_000_000_000 });
        assert!(store.sbas_ssr_state(satellite, issue, igs_ssr, transmit, past_limit).is_none());
    }
    let unhealthy = BroadcastStore::from_nav(&text(1.0)).ok().expect("store");
    assert!(unhealthy.sbas_ssr_state(satellite, 7, true, transmit, reference).is_none());
}

//! GPS LNAV records from decoded subframes.

#![allow(dead_code, unused_imports)]

use sidereon_nav::body::{NavEntry, NavItem};
use sidereon_nav::decimal::Decimal;
use sidereon_nav::epoch::{exact_week_tow_epoch, ExactEpoch};
use sidereon_nav::error::{
    NavDiagnostic, NavParseError, OtherNavBlockKind, SkippedGlonass,
};
use sidereon_nav::file::{
    parse_glonass, parse_glonass_lenient, parse_iono_corrections, parse_leap_seconds, parse_nav,
    parse_nav_file, parse_nav_lenient, parse_sbas, NavFile,
};
use sidereon_nav::frames::IonosphereModel;
use sidereon_nav::id::{GnssSatelliteId, GnssSystem};
use sidereon_nav::record::{
    cnav_ura_nominal_m, is_beidou_geo, BroadcastGroupDelays, BroadcastIssue, BroadcastRecord,
    ClockPolynomial, CnavParameters, CnavSignal, ConstellationConstants, GlonassRecord, GroupDelay,
    KeplerianElements, KlobucharAlphaBeta, NavMessage, NavVersion, StatedNavFields,
};
use sidereon_nav::store::{BroadcastStore, NavMessagePreference};
use sidereon_nav::time::{GnssWeekTow, NavEpoch, Seconds, TimeScale};
use sidereon_nav::write::{encode_nav, encode_nav_file, NavWriteError};

/// The number a double prints as.
fn d(x: f64) -> Decimal {
    let text = format!("{:e}", x.abs());
    let (mantissa, exponent) = text.split_once('e').unwrap();
    let exponent: i32 = exponent.parse().unwrap();
    let fraction = mantissa.split_once('.').map_or(0, |(_, f)| f.len() as i32);
    let mut digits: u128 = mantissa.replace('.', "").parse().unwrap();
    let mut exponent = exponent - fraction;
    if digits == 0 {
        return Decimal::zero();
    }
    while digits % 10 == 0 {
        digits /= 10;
        exponent += 1;
    }
    Decimal { negative: x < 0.0, digits, exponent }
}

/// A time of a whole and a fraction.
fn secs(x: f64) -> Seconds {
    Seconds::from_decimal(d(x))
}

/// The instant `offset` seconds after a record's `toe`, in GPS time.
fn toe_plus(record: &BroadcastRecord, offset: f64) -> ExactEpoch {
    let native = exact_week_tow_epoch(record.toe);
    let bdt = if record.satellite_id.system == GnssSystem::BeiDou { 14.0 } else { 0.0 };
    native.checked_add_seconds(d(offset)).unwrap().checked_add_seconds(d(bdt)).unwrap()
}

/// The instant `offset` seconds after another.
fn later(t: ExactEpoch, offset: f64) -> ExactEpoch {
    t.checked_add_seconds(d(offset)).unwrap()
}

fn civil(year: i32, month: u8, day: u8, hour: u8, minute: u8, second: f64) -> NavEpoch {
    NavEpoch { year, month, day, hour, minute, second: d(second) }
}

fn d19_12(value: f64) -> String {
    let mut out = String::new();
    d(value).push_d19_12(&mut out);
    out
}

fn broadcast_time(system: GnssSystem, week: u32, sow: f64) -> GnssWeekTow {
    let scale = match system {
        GnssSystem::Galileo => TimeScale::Gst,
        GnssSystem::BeiDou => TimeScale::Bdt,
        _ => TimeScale::Gpst,
    };
    GnssWeekTow::new(scale, week, secs(sow)).normalized().unwrap()
}

const G01_LINES: &[&str] = &[
    "G01 2020 06 25 04 00 00 1.604342833161e-05 7.048583938740e-12 0.000000000000e+00",
    "     5.800000000000e+01-3.968750000000e+01 4.304822170265e-09 6.342094507864e-01",
    "    -2.177432179451e-06 1.000394229777e-02 1.937150955200e-06 5.153707128525e+03",
    "     3.600000000000e+05-1.508742570877e-07 2.572838528869e+00 1.359730958939e-07",
    "     9.806518601091e-01 3.539687500000e+02 7.941703015008e-01-8.384634967987e-09",
    "    -5.714523747137e-11 1.000000000000e+00 2.111000000000e+03 0.000000000000e+00",
    "     2.000000000000e+00 0.000000000000e+00 5.122274160385e-09 5.800000000000e+01",
    "     3.561060000000e+05 4.000000000000e+00",
];

const E01_LINES: &[&str] = &[
    "E01 2020 06 24 23 30 00-8.846927667037e-04-7.972289495228e-12 0.000000000000e+00",
    "     6.100000000000e+01 1.865625000000e+01 2.656539226950e-09-1.832282909549e+00",
    "     8.568167686462e-07 9.650341235101e-05 1.049041748047e-05 5.440602037430e+03",
    "     3.438000000000e+05 1.862645149231e-09 2.123282284601e-01-1.452863216400e-07",
    "     9.828296477370e-01 1.298750000000e+02-2.778709093141e+00-5.216288707934e-09",
    "    -6.996720012901e-10 2.580000000000e+02 2.111000000000e+03",
    "     3.120000000000e+00 0.000000000000e+00-1.862645149231e-09 0.000000000000e+00",
    "     3.445400000000e+05",
];

const R01_GLONASS_LINES: &[&str] = &[
    "R01 2020 06 24 23 15 00 6.355904042721e-05 0.000000000000e+00 3.420000000000e+05",
    "     1.090894238281e+04 1.407806396484e+00-1.862645149231e-09 0.000000000000e+00",
    "    -2.885726074219e+03 2.795855522156e+00-0.000000000000e+00 1.000000000000e+00",
    "     2.288353955078e+04-3.169984817505e-01-2.793967723846e-09 0.000000000000e+00",
];

const S20_LINES: &[&str] = &[
    "S20 2020 06 25 00 01 36 1.117587089539e-08 0.000000000000e+00 3.456960000000e+05",
    "     4.063093080000e+04 1.200000000000e-03 1.000000000000e-07 0.000000000000e+00",
    "    -1.126480640000e+04-2.400000000000e-03 0.000000000000e+00 4.000000000000e+00",
    "     2.000000000000e+01 1.000000000000e-04 0.000000000000e+00 2.200000000000e+01",
];

const V4_NAV_HEADER: &str =
    "     4.00           NAVIGATION DATA     M                   RINEX VERSION / TYPE\n\
     XXX                                                         END OF HEADER\n";

const V3_NAV_HEADER: &str =
    "     3.05           NAVIGATION DATA     M                   RINEX VERSION / TYPE\n\
     XXX                                                         END OF HEADER\n";

fn gps_nav_text_with_epoch_field(start: usize, end: usize, value: &str) -> String {
    let mut lines: Vec<String> = G01_LINES.iter().map(ToString::to_string).collect();
    lines[0].replace_range(start..end, value);

    let mut text = String::from(V3_NAV_HEADER);
    for line in lines {
        text.push_str(&line);
        text.push('\n');
    }
    text
}

fn gps_nav_text_with_month(month: &str) -> String {
    gps_nav_text_with_epoch_field(9, 11, month)
}

fn glonass_text(lines: &[String]) -> String {
    nav_text_with_version("3.04", lines)
}

fn r01_glonass_lines() -> Vec<String> {
    R01_GLONASS_LINES.iter().map(ToString::to_string).collect()
}

fn nav_text_with_version(version: &str, lines: &[String]) -> String {
    let mut text = format!(
        "{version:>9}           NAVIGATION DATA     M                   RINEX VERSION / TYPE\n\
     XXX                                                         END OF HEADER\n"
    );
    for line in lines {
        text.push_str(line);
        text.push('\n');
    }
    text
}

fn nav_text(lines: &[String]) -> String {
    nav_text_with_version("3.05", lines)
}

fn g01_lines() -> Vec<String> {
    G01_LINES.iter().map(ToString::to_string).collect()
}

fn e01_lines() -> Vec<String> {
    E01_LINES.iter().map(ToString::to_string).collect()
}

fn satellite_lines(template: &[&str], token: &str) -> Vec<String> {
    assert_eq!(token.len(), 3);
    let mut lines: Vec<String> = template.iter().map(ToString::to_string).collect();
    lines[0].replace_range(0..3, token);
    lines
}

fn replace_orbit_field(line: &str, field_index: usize, value: &str) -> String {
    let ranges = [(4, 23), (23, 42), (42, 61), (61, 80)];
    let (start, end) = ranges[field_index];
    let field = format!("{value:>width$}", width = end - start);
    let mut out = format!("{line:<80}");
    out.replace_range(start..end, &field);
    out
}

fn blank_orbit_field(line: &str, field_index: usize) -> String {
    let ranges = [(4, 23), (23, 42), (42, 61), (61, 80)];
    let (start, end) = ranges[field_index];
    let mut out = format!("{line:<80}");
    out.replace_range(start..end, "                   ");
    out
}

fn cnav_orbit_line(values: [Option<f64>; 4]) -> String {
    let mut line = String::from("    ");
    for value in values {
        match value {
            Some(value) => line.push_str(&d19_12(value)),
            None => line.push_str("                   "),
        }
    }
    line
}

fn cnav_clock_line(sat: &str, af0: f64) -> String {
    let mut line = format!("{sat:<3} 2020 06 25 04 00 00");
    line.push_str(&d19_12(af0));
    line.push_str(&d19_12(7.0e-12));
    line.push_str(&d19_12(0.0));
    line
}

fn cnav_lines_with_clock(sat: &str, af0: f64) -> Vec<String> {
    vec![
        cnav_clock_line(sat, af0),
        cnav_orbit_line([
            Some(0.125),
            Some(-39.6875),
            Some(4.304822170265e-9),
            Some(0.6342094507864),
        ]),
        cnav_orbit_line([
            Some(-2.177432179451e-6),
            Some(0.01000394229777),
            Some(1.9371509552e-6),
            Some(5153.707128525),
        ]),
        cnav_orbit_line([
            Some(360_000.0),
            Some(-1.508742570877e-7),
            Some(2.572838528869),
            Some(1.359730958939e-7),
        ]),
        cnav_orbit_line([
            Some(0.9806518601091),
            Some(353.96875),
            Some(0.7941703015008),
            Some(-8.384634967987e-9),
        ]),
        cnav_orbit_line([
            Some(-5.714523747137e-11),
            Some(1.0e-18),
            Some(0.0),
            Some(2.0),
        ]),
        cnav_orbit_line([Some(1.0), Some(0.0), Some(5.122274160385e-9), Some(4.0)]),
        cnav_orbit_line([Some(1.0e-9), Some(2.0e-9), Some(3.0e-9), Some(4.0e-9)]),
        cnav_orbit_line([Some(356_106.0), Some(2111.0), Some(5.0), None]),
    ]
}

fn cnav_lines(sat: &str) -> Vec<String> {
    cnav_lines_with_clock(sat, 2.0e-4)
}

fn cnv2_lines(sat: &str) -> Vec<String> {
    let mut lines = cnav_lines_with_clock(sat, 3.0e-4);
    lines[8] = cnav_orbit_line([Some(6.0e-9), Some(7.0e-9), None, None]);
    lines.push(cnav_orbit_line([
        Some(356_106.0),
        Some(2111.0),
        Some(1.0),
        None,
    ]));
    lines
}

fn push_owned_lines(out: &mut String, lines: &[String]) {
    for line in lines {
        out.push_str(line);
        out.push('\n');
    }
}

fn join(lines: &[&str]) -> String {
    let mut s = lines.join("\n");
    s.push('\n');
    s
}

fn replace_fourth_orbit_field(line: &str, value: &str) -> String {
    assert_eq!(line.len(), 80);
    let field = format!("{value:>19}");
    assert_eq!(field.len(), 19);
    let mut out = line.to_string();
    out.replace_range(61..80, &field);
    out
}

fn nav_text_with_header_line(header_line: &str) -> String {
    format!(
        "     3.05           NAVIGATION DATA     M                   RINEX VERSION / TYPE\n\
{header_line}\n\
     XXX                                                         END OF HEADER\n{}",
        join(G01_LINES)
    )
}

fn header_record(content: &str, label: &str) -> String {
    format!("{content:<60}{label}\n")
}

fn v4_data_frames() -> String {
    let mut text = String::new();
    text.push_str("> ION G29 LNAV\n");
    text.push_str(
        "    2020 06 25 00 00 00 1.024454832077e-08 0.000000000000e+00 0.000000000000e+00\n",
    );
    text.push_str(
        "    -1.192092895508e-07 9.625600000000e+04 0.000000000000e+00 0.000000000000e+00\n",
    );
    text.push_str("    -5.898240000000e+05\n");
    text.push_str("> STO G01 LNAV\n");
    text.push_str(&format!(
        "    2020 06 25 00 00 00 {:<18} {:<18} {:<18}\n",
        "GPUT", "", "UTC(USNO)"
    ));
    text.push_str(
        "     3.456000000000e+05 9.313225746155e-10 2.664535259100e-15 0.000000000000e+00\n",
    );
    text.push_str("> EOP G01 CNVX\n");
    text.push_str(
        "    2020 06 25 00 00 00 1.000000000000e-01 2.000000000000e-03 0.000000000000e+00\n",
    );
    text.push_str(
        "                        3.000000000000e-01-4.000000000000e-03 0.000000000000e+00\n",
    );
    text.push_str(
        "     3.456000000000e+05-2.000000000000e-01 5.000000000000e-04 0.000000000000e+00\n",
    );
    text
}

use sidereon_nav::health::gps_ura_index_to_meters;
use sidereon_nav::lnav::{gps_fit_interval_from_flag, LnavDecoded, LnavRecordError};

fn to_f64(x: Decimal) -> f64 {
    let sign = if x.negative { "-" } else { "" };
    format!("{sign}{}e{}", x.digits, x.exponent).parse().unwrap()
}

fn sample_lnav_decoded() -> LnavDecoded {
    // Realistic healthy GPS ephemeris in transmitted units: the angular elements
    // (m0, delta_n, omega0, i0, omega, omega_dot, idot) are semicircles or
    // semicircles/second; the harmonic terms are radians and crc/crs meters.
    LnavDecoded {
        // Must reduce to full_week % 1024; the tests unroll with full_week 2110
        // (2110 % 1024 = 62), so from_lnav's week-residue check passes.
        week_number: 62,
        l2_code: 1,
        ura_index: 0,
        sv_health: 0,
        iodc: 12,
        tgd: d(-5.0e-9),
        toc: 345_600,
        af0: d(1.0e-4),
        af1: d(1.0e-12),
        af2: d(0.0),
        iode: 12,
        crs: d(20.0),
        delta_n: d(1.5e-9),
        m0: d(0.3),
        cuc: d(1.0e-6),
        eccentricity: d(0.005),
        cus: d(2.0e-6),
        sqrt_a: d(5153.6),
        toe: 345_600,
        fit_interval_flag: 0,
        aodo: 0,
        cic: d(1.0e-7),
        omega0: d(-0.8),
        cis: d(-1.0e-7),
        i0: d(0.31),
        crc: d(200.0),
        omega: d(0.5),
        omega_dot: d(-2.5e-9),
        idot: d(1.0e-10),
    }
}

#[test]
fn from_lnav_scales_semicircles_to_radians_and_passes_radian_terms_through() {
    let decoded = sample_lnav_decoded();
    let sat = GnssSatelliteId::new(GnssSystem::Gps, 7).expect("valid GPS id");
    let record = BroadcastRecord::from_lnav(&decoded, sat, 2110).expect("GPS LNAV record");

    // Angular elements: semicircles -> radians, to nineteen digits.
    let tenths_of_pi = Decimal { negative: false, digits: 9424777960769379714, exponent: -19 };
    assert_eq!(record.elements.m0, tenths_of_pi);
    let half_pi = Decimal { negative: false, digits: 1570796326794896619, exponent: -18 };
    assert_eq!(record.elements.omega, half_pi);
    for (radians, semicircles) in [
        (record.elements.m0, decoded.m0),
        (record.elements.delta_n, decoded.delta_n),
        (record.elements.omega0, decoded.omega0),
        (record.elements.i0, decoded.i0),
        (record.elements.omega, decoded.omega),
        (record.elements.omega_dot, decoded.omega_dot),
        (record.elements.idot, decoded.idot),
    ] {
        let expected = to_f64(semicircles) * core::f64::consts::PI;
        let found = to_f64(radians);
        assert!((found - expected).abs() <= expected.abs() * f64::EPSILON, "{found} {expected}");
    }

    // Radian/meter terms pass through unchanged.
    assert_eq!(record.elements.cuc, decoded.cuc);
    assert_eq!(record.elements.cus, decoded.cus);
    assert_eq!(record.elements.cic, decoded.cic);
    assert_eq!(record.elements.cis, decoded.cis);
    assert_eq!(record.elements.crc, decoded.crc);
    assert_eq!(record.elements.crs, decoded.crs);
    assert_eq!(record.elements.e, decoded.eccentricity);
    assert_eq!(record.elements.sqrt_a, decoded.sqrt_a);

    // Epoch, clock, and metadata.
    assert_eq!(record.elements.toe_sow, d(decoded.toe as f64));
    assert_eq!(record.clock.toc_sow, secs(decoded.toc as f64));
    assert_eq!(record.clock.af0, decoded.af0);
    assert_eq!(record.week, 2110);
    assert_eq!(record.toe.week, 2110);
    assert_eq!(record.message, NavMessage::GpsLnav);
    assert_eq!(record.sv_health, d(0.0));
    assert_eq!(record.sv_accuracy_m, Some(d(2.4)));
    assert_eq!(record.iodc(), Some(d(decoded.iodc as f64)));
    assert_eq!(record.fit_interval_h, Some(d(4.0)));
    assert_eq!(record.group_delays.gps_tgd_s, Some(decoded.tgd));
}

#[test]
fn from_lnav_rejects_non_gps_satellite() {
    let decoded = sample_lnav_decoded();
    let sat = GnssSatelliteId::new(GnssSystem::Galileo, 7).expect("valid Galileo id");
    assert_eq!(
        BroadcastRecord::from_lnav(&decoded, sat, 2110),
        Err(LnavRecordError::NotGps(sat))
    );
}

#[test]
fn from_lnav_rejects_week_residue_mismatch() {
    // Sample decodes 10-bit week 62; unrolling with a full_week whose low 10 bits
    // are not 62 means the wrong rollover epoch, which must be rejected.
    let decoded = sample_lnav_decoded();
    assert_eq!(decoded.week_number, 62);
    let sat = GnssSatelliteId::new(GnssSystem::Gps, 7).expect("valid GPS id");

    // 2109 % 1024 = 61 != 62.
    assert_eq!(
        BroadcastRecord::from_lnav(&decoded, sat, 2109),
        Err(LnavRecordError::WeekMismatch {
            full_week: 2109,
            decoded_week: 62,
        })
    );

    // A different rollover epoch with the SAME residue is accepted (62, 1086,
    // 2110 all reduce to 62).
    for full_week in [62u32, 1086, 2110, 3134] {
        let record = BroadcastRecord::from_lnav(&decoded, sat, full_week)
            .expect("matching week residue is accepted");
        assert_eq!(record.week, full_week);
    }
}

#[test]
fn from_lnav_rejects_ura_index_15() {
    let mut decoded = sample_lnav_decoded();
    decoded.ura_index = 15;
    let sat = GnssSatelliteId::new(GnssSystem::Gps, 7).expect("valid GPS id");
    assert_eq!(
        BroadcastRecord::from_lnav(&decoded, sat, 2110),
        Err(LnavRecordError::NoUraPrediction(15))
    );
}

#[test]
fn gps_ura_index_table_matches_is_gps_200n() {
    // IS-GPS-200N 20.3.3.3.1.3 URA index -> meters (band upper bound).
    let expected = [
        (0, 2.4),
        (1, 3.4),
        (2, 4.85),
        (3, 6.85),
        (4, 9.65),
        (5, 13.65),
        (6, 24.0),
        (7, 48.0),
        (8, 96.0),
        (9, 192.0),
        (10, 384.0),
        (11, 768.0),
        (12, 1536.0),
        (13, 3072.0),
        (14, 6144.0),
    ];
    for (index, meters) in expected {
        assert_eq!(
            gps_ura_index_to_meters(index),
            Some(d(meters)),
            "URA index {index}"
        );
    }
    // Index 15 = no accuracy prediction / not to be used: distinct, not a bogus
    // finite value. Out-of-range indices are also None.
    assert_eq!(gps_ura_index_to_meters(15), None);
    assert_eq!(gps_ura_index_to_meters(16), None);
    assert_eq!(gps_ura_index_to_meters(-1), None);
}

#[test]
fn gps_fit_interval_mapping_matches_is_gps_200n_table_20_xii() {
    // flag 0 -> 4 hours regardless of IODE/IODC (IODE values are in the 0-239
    // normal-operations range, IS-GPS-200N 20.3.3.4.3.1 / Table 20-XII).
    assert_eq!(
        gps_fit_interval_from_flag(0, 12, 12),
        Ok(4)
    );

    // flag 1, short-term extended (IODE < 240) -> 6 hours.
    assert_eq!(
        gps_fit_interval_from_flag(1, 12, 12),
        Ok(6)
    );
    assert_eq!(
        gps_fit_interval_from_flag(1, 239, 239),
        Ok(6)
    );

    // flag 1, long-term extended (IODE 240-255) -> IODC selects the fit length.
    assert_eq!(
        gps_fit_interval_from_flag(1, 240, 240),
        Ok(8)
    );
    assert_eq!(
        gps_fit_interval_from_flag(1, 247, 247),
        Ok(8)
    );
    assert_eq!(
        gps_fit_interval_from_flag(1, 248, 248),
        Ok(14)
    );
    assert_eq!(
        gps_fit_interval_from_flag(1, 255, 496),
        Ok(14)
    );
    assert_eq!(
        gps_fit_interval_from_flag(1, 250, 497),
        Ok(26)
    );
    assert_eq!(
        gps_fit_interval_from_flag(1, 250, 1023),
        Ok(26)
    );

    // Reserved IODC for long-term extended (504-511, 752-767, 1008-1020).
    assert_eq!(
        gps_fit_interval_from_flag(1, 250, 504),
        Err(LnavRecordError::FitIntervalUnsupported {
            fit_interval_flag: 1,
            iode: 250,
            iodc: 504,
        })
    );

    // IODE above the defined extended range is not a valid flag-1 combination.
    assert_eq!(
        gps_fit_interval_from_flag(1, 256, 256),
        Err(LnavRecordError::FitIntervalUnsupported {
            fit_interval_flag: 1,
            iode: 256,
            iodc: 256,
        })
    );

    // A flag outside {0, 1} cannot be a defined interval.
    assert_eq!(
        gps_fit_interval_from_flag(2, 12, 12),
        Err(LnavRecordError::FitIntervalUnsupported {
            fit_interval_flag: 2,
            iode: 12,
            iodc: 12,
        })
    );

    // A negative IODE is not a real 8-bit decode and must not be read as a
    // short-term extended (6-hour) fit.
    assert_eq!(
        gps_fit_interval_from_flag(1, -1, 12),
        Err(LnavRecordError::FitIntervalUnsupported {
            fit_interval_flag: 1,
            iode: -1,
            iodc: 12,
        })
    );
}

#[test]
fn from_lnav_uses_extended_fit_interval_for_flag_1() {
    let mut decoded = sample_lnav_decoded();
    decoded.fit_interval_flag = 1; // short-term extended, IODE 12 < 240
    let sat = GnssSatelliteId::new(GnssSystem::Gps, 7).expect("valid GPS id");
    let record = BroadcastRecord::from_lnav(&decoded, sat, 2110).expect("GPS LNAV record");
    assert_eq!(record.fit_interval_h, Some(d(6.0)));
}

#[test]
fn lnav_errors_in_words() {
    let sat = GnssSatelliteId::new(GnssSystem::Galileo, 7).unwrap();
    assert_eq!(
        LnavRecordError::NotGps(sat).text(),
        "LNAV is a GPS message; E07 is not a GPS satellite"
    );
    assert_eq!(
        LnavRecordError::WeekMismatch { full_week: 2109, decoded_week: 62 }.text(),
        "full_week 2109 (week % 1024 = 61) disagrees with decoded 10-bit week 62"
    );
    assert_eq!(
        LnavRecordError::NoUraPrediction(15).text(),
        "URA index 15 carries no accuracy prediction"
    );
    assert_eq!(
        LnavRecordError::InvalidEpoch("toe").text(),
        "derived toe week/TOW is not representable"
    );
    assert_eq!(
        LnavRecordError::FitIntervalUnsupported { fit_interval_flag: 1, iode: -1, iodc: 12 }.text(),
        "fit interval flag 1 with IODE -1 / IODC 12 is not a defined curve-fit interval"
    );
    let mut decoded = sample_lnav_decoded();
    decoded.toe = -604_800 * 3000;
    let gps = GnssSatelliteId::new(GnssSystem::Gps, 7).unwrap();
    assert_eq!(
        BroadcastRecord::from_lnav(&decoded, gps, 2110),
        Err(LnavRecordError::InvalidEpoch("toe"))
    );
}

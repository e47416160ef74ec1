//! What holds of the library as a whole, on chosen values.

use sidereon_nav::body::{group_body, split_lines};
use sidereon_nav::decimal::{push_scientific, read_field, Decimal};
use sidereon_nav::epoch::{exact_week_tow_epoch, query_native_time, ExactEpoch};
use sidereon_nav::error::{NavDiagnostic, NavParseError};
use sidereon_nav::evaluate::SelectedRecord;
use sidereon_nav::fields::two_digit_year;
use sidereon_nav::file::{
    parse_glonass, parse_glonass_lenient, parse_iono_corrections, parse_nav, parse_nav_file,
    parse_nav_lenient, parse_sbas,
};
use sidereon_nav::format::tenths_string;
use sidereon_nav::glonass::fold_glonass_channel;
use sidereon_nav::header::{parse_rinex_version, read_header, NavHeader};
use sidereon_nav::health::{keplerian_variance_m2, ura_index};
use sidereon_nav::id::{GnssSatelliteId, GnssSystem};
use sidereon_nav::instant::{serialized_week_tow, written_seconds};
use sidereon_nav::record::{cnav_ura_nominal_m, BroadcastRecord, NavVersion};
use sidereon_nav::store::BroadcastStore;
use sidereon_nav::time::{
    date_number, date_of_number, gps_minus_utc_at_utc_j2000_s, GnssWeekTow, Seconds, TimeScale,
};
use sidereon_nav::write::{encode_nav, encode_nav_file, format_header};

fn dec(negative: bool, digits: u128, exponent: i32) -> Decimal {
    Decimal { negative, digits, exponent }
}

const HEAD: &str =
    "     3.05           NAVIGATION DATA     M                   RINEX VERSION / TYPE\n\
     XXX                                                         END OF HEADER\n";

const G01: &str =
    "G01 2020 06 25 04 00 00 1.604342833161e-05 7.048583938740e-12 0.000000000000e+00\n\
\x20    5.800000000000e+01-3.968750000000e+01 4.304822170265e-09 6.342094507864e-01\n\
\x20   -2.177432179451e-06 1.000394229777e-02 1.937150955200e-06 5.153707128525e+03\n\
\x20    3.600000000000e+05-1.508742570877e-07 2.572838528869e+00 1.359730958939e-07\n\
\x20    9.806518601091e-01 3.539687500000e+02 7.941703015008e-01-8.384634967987e-09\n\
\x20   -5.714523747137e-11 1.000000000000e+00 2.111000000000e+03 0.000000000000e+00\n\
\x20    2.000000000000e+00 0.000000000000e+00 5.122274160385e-09 5.800000000000e+01\n\
\x20    3.561060000000e+05 4.000000000000e+00\n";

const R01: &str =
    "R01 2020 06 24 23 15 00 6.355904042721e-05 0.000000000000e+00 3.420000000000e+05\n\
\x20    1.090894238281e+04 1.407806396484e+00-1.862645149231e-09 0.000000000000e+00\n\
\x20   -2.885726074219e+03 2.795855522156e+00-0.000000000000e+00 1.000000000000e+00\n\
\x20    2.288353955078e+04-3.169984817505e-01-2.793967723846e-09 0.000000000000e+00\n";

const S20: &str =
    "S20 2020 06 25 00 01 36 1.117587089539e-08 0.000000000000e+00 3.456960000000e+05\n\
\x20    4.063093080000e+04 1.200000000000e-03 1.000000000000e-07 0.000000000000e+00\n\
\x20   -1.126480640000e+04-2.400000000000e-03 0.000000000000e+00 4.000000000000e+00\n\
\x20    2.000000000000e+01 1.000000000000e-04 0.000000000000e+00 2.200000000000e+01\n";

fn g01() -> BroadcastRecord {
    parse_nav(&format!("{HEAD}{G01}")).expect("parse")[0]
}

#[test]
fn numbers_of_thirteen_digits_read_back_from_their_field() {
    for value in [
        Decimal::zero(),
        dec(false, 1, 0),
        dec(true, 2907656250000 / 10000, -6),
        dec(false, 9999999999999, 80),
        dec(true, 1234567890123, -99),
        dec(false, 5, -99),
    ] {
        let mut out = String::new();
        value.push_d19_12(&mut out);
        assert_eq!(out.len(), 19, "{out:?}");
        assert_eq!(read_field(&out), Some(value), "{out:?}");
    }
    let mut out = String::new();
    dec(true, 290765625, -6).push_d19_12(&mut out);
    assert_eq!(out, "-2.907656250000e+02");
    out.clear();
    dec(false, 99999999999995, 0).push_d19_12(&mut out);
    assert_eq!(out, " 1.000000000000e+14");
    out.clear();
    dec(false, 12345, 0).push_kilometers(&mut out);
    assert_eq!(out, " 1.234500000000e+01");
}

#[test]
fn a_week_end_that_rounds_away_is_written_as_the_next_week() {
    let tow = Seconds::from_decimal(dec(true, 1, -8));
    let settled = serialized_week_tow(GnssWeekTow::new(TimeScale::Gpst, 9, tow));
    assert_eq!(settled.week, 9);
    assert_eq!(settled.tow_s, Seconds { whole: 0, quectos: 0 });
    let tow = Seconds::from_decimal(dec(false, 6048005, -1));
    let settled = serialized_week_tow(GnssWeekTow::new(TimeScale::Gpst, 8, tow));
    assert_eq!(settled.week, 9);
    assert_eq!(written_seconds(settled.tow_s), dec(false, 5, -1));
    let last = GnssWeekTow::new(TimeScale::Gpst, u32::MAX, Seconds { whole: 604_800, quectos: 0 });
    assert_eq!(serialized_week_tow(last), last);
}

#[test]
fn dates_and_day_numbers_are_inverse() {
    for (year, month, day) in [(1, 1, 1), (1980, 1, 6), (2000, 2, 29), (2020, 12, 31), (-4, 3, 1)] {
        assert_eq!(date_of_number(date_number(year, month, day)), (year, month, day));
    }
    assert_eq!(date_number(2000, 1, 1), 730119);
}

#[test]
fn leap_seconds_change_at_midnight() {
    let new_year_2017 = (date_number(2017, 1, 1) - 730119) * 86400 - 43200;
    assert_eq!(gps_minus_utc_at_utc_j2000_s(new_year_2017 - 1), 17);
    assert_eq!(gps_minus_utc_at_utc_j2000_s(new_year_2017), 18);
}

#[test]
fn two_digit_years_turn_at_eighty() {
    assert_eq!(two_digit_year(79), 2079);
    assert_eq!(two_digit_year(80), 1980);
    assert_eq!(two_digit_year(99), 1999);
    assert_eq!(two_digit_year(0), 2000);
}

#[test]
fn channels_fold_above_128() {
    assert_eq!(fold_glonass_channel(128), 128);
    assert_eq!(fold_glonass_channel(129), -127);
    assert_eq!(fold_glonass_channel(250), -6);
    assert_eq!(fold_glonass_channel(-7), -7);
}

#[test]
fn every_line_belongs_to_one_block() {
    let body = vec!["stray", "G01 a", "    b", "G02 c", "    d", "    e"];
    let found: Vec<(usize, usize, bool)> =
        group_body(&body, 0, 3).iter().map(|g| (g.start, g.end, g.stray)).collect();
    assert_eq!(found, vec![(0, 1, true), (1, 3, false), (3, 6, false)]);
}

#[test]
fn strict_reading_agrees_with_lenient_reading() {
    let text = format!("{HEAD}{G01}");
    let strict = parse_nav(&text).expect("strict");
    let lenient = parse_nav_lenient(&text).expect("lenient");
    assert_eq!(strict, lenient.records);
    assert!(lenient.skipped.is_empty() && lenient.departures.is_empty());
}

#[test]
fn records_written_twice_are_written_alike() {
    let records = vec![g01()];
    let encoded = encode_nav(&records).expect("encode");
    let again = parse_nav(&encoded).expect("reread");
    assert_eq!(again, records);
    assert_eq!(encode_nav(&again).expect("encode"), encoded);
    assert!(encoded.starts_with(
        "     3.04           N: GNSS NAV DATA    M                   RINEX VERSION / TYPE\n\
         sidereon                                                    PGM / RUN BY / DATE\n"
    ));
}

#[test]
fn accuracies_stand_for_their_index() {
    assert_eq!(ura_index(dec(false, 24, -1)), 0);
    assert_eq!(ura_index(dec(false, 25, -1)), 1);
    assert_eq!(ura_index(dec(false, 6144, 0)), 14);
    assert_eq!(ura_index(dec(false, 6145, 0)), 15);
    assert_eq!(ura_index(dec(true, 1, 0)), 0);
    let mut record = g01();
    record.sv_accuracy_m = Some(dec(false, 485, -2));
    assert_eq!(keplerian_variance_m2(&record), dec(false, 235225, -4));
    record.sv_accuracy_m = None;
    assert_eq!(keplerian_variance_m2(&record), dec(false, 576, -2));
    record.satellite_id = GnssSatelliteId::new(GnssSystem::Galileo, 1).unwrap();
    for (sisa, variance) in [
        (dec(false, 312, -2), dec(false, 97344, -4)),
        (dec(false, 49, -2), dec(false, 2401, -4)),
        (dec(false, 495, -3), dec(false, 25, -2)),
        (dec(false, 51, -2), dec(false, 2704, -4)),
        (dec(false, 6, 0), dec(false, 36, 0)),
        (dec(false, 601, -2), dec(false, 25, 4)),
        (dec(true, 1, 0), dec(false, 25, 4)),
    ] {
        record.sv_accuracy_m = Some(sisa);
        assert_eq!(keplerian_variance_m2(&record), variance, "{sisa:?}");
    }
}

#[test]
fn unusable_records_yield_none_from_a_file_store() {
    let healthy = format!("{HEAD}{G01}");
    let inaccurate = healthy.replace("     2.000000000000e+00 0.000", "     1.921000000000e+02 0.000");
    let unhealthy = healthy
        .replace("     2.000000000000e+00 0.000000000000e+00", "     2.000000000000e+00 1.000000000000e+00");
    let sat = GnssSatelliteId::new(GnssSystem::Gps, 1).unwrap();
    let t = exact_week_tow_epoch(g01().toe);
    for (text, served) in [(healthy, true), (inaccurate, false), (unhealthy, false)] {
        let store = BroadcastStore::from_nav(&text).ok().expect("store");
        assert_eq!(store.records().len(), 1);
        assert_eq!(store.select_record_at(sat, t).is_some(), served);
        let manual = BroadcastStore::new(store.records().clone()).ok().expect("store");
        assert!(manual.select_record_at(sat, t).is_some());
    }
}

#[test]
fn nominal_accuracies_are_powers_of_the_root_of_two() {
    assert_eq!(cnav_ura_nominal_m(-1), Some(dec(false, 14142135623730951, -16)));
    assert_eq!(cnav_ura_nominal_m(-14), Some(dec(false, 15625, -6)));
    assert_eq!(cnav_ura_nominal_m(14), Some(dec(false, 4096, 0)));
}

#[test]
fn errors_in_words() {
    let error = parse_nav("").expect_err("no header");
    assert_eq!(error, NavParseError::MissingHeaderEnd);
    let short = format!("{HEAD}{}", G01.lines().take(3).map(|l| format!("{l}\n")).collect::<String>());
    assert_eq!(
        parse_nav(&short),
        Err(NavParseError::TruncatedRecord("G01".to_string()))
    );
    let stray = format!("{HEAD}stray\n{G01}");
    assert_eq!(parse_sbas(&stray), Err(NavParseError::UnexpectedLine { line: 3 }));
    let file = parse_nav_file(&stray).expect("read");
    assert_eq!(file.entries.len(), 2);
    assert!(!error.text().is_empty());
}

#[test]
fn unreadable_blocks_do_not_move_their_neighbours() {
    let body = vec!["G01 a", "    b", "G02 c", "    d"];
    let behind = vec!["stray", "G09", "G01 a", "    b", "G02 c", "    d"];
    let alone: Vec<(usize, usize)> =
        group_body(&body, 0, 3).iter().map(|g| (g.start + 2, g.end + 2)).collect();
    let moved: Vec<(usize, usize)> =
        group_body(&behind, 0, 3).iter().skip(2).map(|g| (g.start, g.end)).collect();
    assert_eq!(alone, moved);
    let broken = format!("{HEAD}G09 2020 13 25 04 00 00\n{G01}");
    let lenient = parse_nav_lenient(&broken).expect("lenient");
    assert_eq!(lenient.records, vec![g01()]);
    assert_eq!(lenient.skipped.len(), 1);
    assert!(parse_nav(&broken).is_err());
}

#[test]
fn strict_glonass_reading_agrees_with_lenient_reading() {
    let head = HEAD.replace("3.05", "3.04");
    let clean = format!("{head}{R01}");
    let lenient = parse_glonass_lenient(&clean).expect("lenient");
    assert!(lenient.invalid.is_empty() && lenient.departures.is_empty());
    assert_eq!(parse_glonass(&clean).expect("strict"), lenient.records);
    let broken = clean.replace("2020 06 24", "2020 13 24");
    assert_eq!(parse_glonass_lenient(&broken).expect("lenient").invalid.len(), 1);
    assert!(parse_glonass(&broken).is_err());
}

#[test]
fn legacy_frames_are_written_as_rinex_3_records() {
    let head = HEAD.replace("3.05", "4.02");
    let records = parse_nav(&format!("{head}> EPH G01 LNAV\n{G01}")).expect("parse");
    assert_eq!(records, vec![g01()]);
    let encoded = encode_nav(&records).expect("encode");
    assert!(encoded.starts_with("     3.04 "));
    assert_eq!(parse_nav(&encoded).expect("reread"), records);
}

#[test]
fn glonass_records_are_selected_by_their_fifteen_minute_index() {
    let text = format!("{}{R01}", HEAD.replace("3.05", "3.04"));
    let store = BroadcastStore::from_nav(&text).ok().expect("store");
    let record = store.glonass_records()[0];
    let t = record.toe_gpst_j2000_s();
    let sat = record.satellite_id;
    assert_eq!(store.select_glonass_by_issue_at(sat, 9, t), Some(&record));
    assert_eq!(store.select_glonass_by_issue_at(sat, 10, t), None);
    let far = t.checked_add_seconds(dec(false, 1801, 0)).unwrap();
    assert_eq!(store.select_glonass_by_issue_at(sat, 9, far), None);
}

#[test]
fn sbas_records_are_selected_by_their_issue() {
    let store = BroadcastStore::from_nav(&format!("{HEAD}{S20}")).ok().expect("store");
    let record = parse_sbas(&format!("{HEAD}{S20}")).expect("parse")[0];
    let sat = record.satellite_id;
    let t = record.t0_j2000_s();
    assert_eq!(store.select_sbas_by_issue_at(sat, 22, true, t), Some(&record));
    assert_eq!(store.select_sbas_by_issue_at(sat, 102, false, t), Some(&record));
    assert_eq!(store.select_sbas_by_issue_at(sat, 102, true, t), None);
    assert_eq!(store.select_sbas_by_issue_at(sat, 22, false, t), None);
    let edge = t.checked_add_seconds(dec(false, 360, 0)).unwrap();
    let past = t.checked_add_seconds(dec(false, 360001, -3)).unwrap();
    assert_eq!(store.select_sbas_by_issue_at(sat, 22, true, edge), Some(&record));
    assert_eq!(store.select_sbas_by_issue_at(sat, 22, true, past), None);
    let gps = GnssSatelliteId::new(GnssSystem::Gps, 20).unwrap();
    assert_eq!(store.select_sbas_by_issue_at(gps, 22, true, t), None);
}

#[test]
fn query_times_are_seconds_of_the_native_week() {
    let noon = ExactEpoch::new(0, 0).unwrap();
    let week_later = ExactEpoch::new(604800, 0).unwrap();
    let sow = query_native_time(GnssSystem::Gps, noon).expect("GPS");
    assert_eq!((sow.whole, sow.quectos), (561600, 0));
    assert_eq!(query_native_time(GnssSystem::Gps, week_later), Some(sow));
    let beidou = query_native_time(GnssSystem::BeiDou, noon).expect("BeiDou");
    assert_eq!(beidou.whole, 561586);
    assert_eq!(query_native_time(GnssSystem::Glonass, noon), None);
    assert_eq!(query_native_time(GnssSystem::Sbas, noon), None);
}

#[test]
fn the_record_of_the_observation_epoch_is_evaluated_at_transmission() {
    let text = format!("{}{G01}{R01}{S20}", HEAD.replace("3.05", "3.04"));
    let store: BroadcastStore = text.parse().ok().expect("store");
    let at = |t: ExactEpoch, s: u128| t.checked_add_seconds(dec(false, s, 0)).unwrap();

    let gps = g01().satellite_id;
    let toe = exact_week_tow_epoch(g01().toe);
    let Some(SelectedRecord::Keplerian { record, since_toe, since_toc, is_geo }) =
        store.selected_at(gps, at(toe, 9000), at(toe, 60))
    else {
        panic!("no GPS record");
    };
    assert_eq!(*record, g01());
    assert_eq!((since_toe.whole, since_toe.quectos), (9000, 0));
    assert_eq!((since_toc.whole, since_toc.quectos), (9000, 0));
    assert!(!is_geo);
    assert!(store.selected_at(gps, toe, at(toe, 9000)).is_none());
    let (_, sow, _) = store.keplerian_selected(gps, at(toe, 60), toe).expect("selected");
    assert_eq!(sow.whole, 360060);
    let by_iode = store.state_by_iode_at(gps, 58, toe).expect("issue 58");
    assert_eq!(
        by_iode.single_frequency_group_delay_s(),
        store.single_frequency_group_delay_s(gps, toe)
    );
    assert!(store.state_by_iode_at(gps, 59, toe).is_none());

    let glonass = store.glonass_records()[0];
    let tb = glonass.toe_gpst_j2000_s();
    let Some(SelectedRecord::Glonass { record, since_toe }) =
        store.selected_at(glonass.satellite_id, at(tb, 5), at(tb, 7))
    else {
        panic!("no GLONASS record");
    };
    assert_eq!((*record, since_toe.whole), (glonass, 5));
    assert!(store.glonass_ssr_state(glonass.satellite_id, 9, tb, tb).is_some());
    assert!(store.glonass_ssr_state(glonass.satellite_id, 8, tb, tb).is_none());

    let sbas = store.sbas_records()[0];
    let t0 = sbas.t0_j2000_s();
    let Some(SelectedRecord::Sbas { record, since_t0 }) =
        store.selected_at(sbas.satellite_id, at(t0, 3), t0)
    else {
        panic!("no SBAS record");
    };
    assert_eq!((*record, since_t0.whole), (sbas, 3));
    assert!(store.sbas_ssr_state(sbas.satellite_id, 22, true, t0, t0).is_some());
    assert!(store.sbas_ssr_state(sbas.satellite_id, 23, true, t0, t0).is_none());
}

#[test]
fn entries_formatted_from_their_fields_read_back() {
    let frames = format!(
        "> ION G29 LNAV\n\
         \x20   2020 06 25 00 00 00 1.024454832077e-08 0.000000000000e+00 0.000000000000e+00\n\
         \x20   -1.192092895508e-07 9.625600000000e+04 0.000000000000e+00 0.000000000000e+00\n\
         \x20   -5.898240000000e+05\n\
         > STO G01 LNAV\n\
         \x20   2020 06 25 00 00 00 {:<18} {:<18} {:<18}\n\
         \x20    3.456000000000e+05 9.313225746155e-10 2.664535259100e-15 0.000000000000e+00\n\
         > EOP G01 CNVX\n\
         \x20   2020 06 25 00 00 00 1.000000000000e-01 2.000000000000e-03 0.000000000000e+00\n\
         \x20                       3.000000000000e-01-4.000000000000e-03 0.000000000000e+00\n\
         \x20    3.456000000000e+05-2.000000000000e-01 5.000000000000e-04 0.000000000000e+00\n",
        "GPUT", "", "UTC(USNO)"
    );
    let fourth =
        "     0.000000000000e+00 2.793967723846e-09 3.000000000000e+00 0.000000000000e+00\n";
    let v3 = format!("{HEAD}{R01}{fourth}{S20}{G01}");
    let v4 = format!(
        "{}> EPH R01 FDMA\n{R01}{fourth}> EPH S20 SBAS\n{S20}{frames}",
        HEAD.replace("3.05", "4.02")
    );
    for (text, entries) in [(v3, 3), (v4, 5)] {
        let read = parse_nav_file(&text).expect("read");
        assert_eq!(read.entries.len(), entries);
        let mut edited = parse_nav_file(&text).expect("read");
        for entry in &mut edited.entries {
            assert!(entry.departures.is_empty());
            entry.text.clear();
        }
        let written = encode_nav_file(&edited).expect("write");
        let again = parse_nav_file(&written).expect("reread");
        assert_eq!(again.header, read.header);
        assert_eq!(again.entries.len(), entries);
        for (a, b) in again.entries.iter().zip(&read.entries) {
            assert_eq!((a.kind, a.system, &a.item), (b.kind, b.system, &b.item));
            assert!(a.departures.is_empty());
        }
    }
}

#[test]
fn a_leap_second_label_is_written_as_the_next_day() {
    let head = HEAD.replace("3.05", "3.04");
    let text = format!("{head}{}", R01.replace("2020 06 24 23 15 00", "2016 12 31 23 59 60"));
    let mut file = parse_nav_file(&text).expect("read");
    file.entries[0].text.clear();
    let written = encode_nav_file(&file).expect("write");
    assert!(written.contains("R01 2017 01 01 00 00 00"));
    assert_eq!(parse_glonass(&written).expect("reread"), parse_glonass(&text).expect("read"));
}

/// A RINEX 3.05 text whose header holds the lines given.
fn with_header_lines(lines: &[String]) -> String {
    let mut text = format!(
        "{:>9}{:11}{:<20}{:<20}RINEX VERSION / TYPE\n",
        "3.05", "", "NAVIGATION DATA", "M"
    );
    for line in lines {
        text.push_str(line);
        text.push('\n');
    }
    text.push_str(&format!("{:<60}END OF HEADER\n", ""));
    text
}

#[test]
fn unreadable_header_records_are_kept_verbatim() {
    let row = format!("{:<60}IONOSPHERIC CORR", "GPSA not-a-float");
    let text = with_header_lines(&[row.clone()]);
    let mut file = parse_nav_file(&text).expect("read");
    assert_eq!(
        file.header_departures(),
        vec![NavDiagnostic {
            line: 2,
            satellite: String::new(),
            error: NavParseError::BadHeaderField { field: "ionospheric correction" },
        }]
    );
    assert_eq!(file.header.iono.gps, None);
    assert!(file.header.other_records.contains(&row));
    // Formatted from its fields the record still stands, once.
    file.header.text.clear();
    let written = encode_nav_file(&file).expect("write");
    assert_eq!(written.lines().filter(|line| line.contains("GPSA")).collect::<Vec<_>>(), vec![&row]);
    let again = parse_nav_file(&written).expect("reread");
    assert_eq!(again.header.other_records, file.header.other_records);
    assert_eq!(again.header.iono, file.header.iono);
}

#[test]
fn unreadable_rows_replace_none_when_written() {
    let value = |x: &str| format!("{x:>12}");
    let good = |label: &str| {
        let values = value("1.0000e-08").repeat(4);
        format!("{:<60}IONOSPHERIC CORR", format!("{label} {values}"))
    };
    let bad = format!("{:<60}IONOSPHERIC CORR", "GPSA not-a-float");
    for (lines, formed) in [
        (vec![bad.clone(), good("GPSA"), good("GPSB")], true),
        (vec![good("GPSA"), bad.clone(), good("GPSB")], false),
    ] {
        let mut file = parse_nav_file(&with_header_lines(&lines)).expect("read");
        assert_eq!(file.header.iono.gps.is_some(), formed);
        file.header.text.clear();
        let again = parse_nav_file(&encode_nav_file(&file).expect("write")).expect("reread");
        assert_eq!(again.header.iono, file.header.iono);
        assert_eq!(again.header.other_records, vec![bad.clone()]);
    }
}

#[test]
fn headers_read_without_a_departure_are_written_without_loss() {
    let lines = [
        format!("{:<20}{:<20}{:<20}PGM / RUN BY / DATE", "prog", "agency", "20200625 000000 UTC"),
        format!("{:<60}COMMENT", "  a comment"),
        format!(
            "{:<60}IONOSPHERIC CORR",
            format!("GAL  {:>12}{:>12}{:>12}{:>12}", "1.2000e+01", "-3.4000e-01", "5.0000e-03", "0.0000e+00")
        ),
        format!(
            "{:<60}TIME SYSTEM CORR",
            format!("GPUT {:>17}{:>16}{:>7}{:>5}", "9.3132257462e-10", "2.664535259e-15", "405504", "2111")
        ),
        format!("{:<60}LEAP SECONDS", format!("{:>6}{:>6}{:>6}{:>6}", 18, 18, 1929, 7)),
        format!("{:<60}MERGED FILE", "2"),
    ];
    let mut file = parse_nav_file(&with_header_lines(&lines)).expect("read");
    assert!(file.header_departures().is_empty());
    file.header.text.clear();
    let again = parse_nav_file(&encode_nav_file(&file).expect("write")).expect("reread");
    let mut read = again.header;
    read.text.clear();
    assert_eq!(read, file.header);
}

#[test]
fn the_body_decides_no_error() {
    let unsupported = HEAD.replace("3.05", "5.00");
    for body in ["", "stray\n", G01, "> EPH\r\n"] {
        assert!(parse_nav_file(&format!("{HEAD}{body}")).is_ok());
        assert!(matches!(
            parse_nav_file(&format!("{unsupported}{body}")),
            Err(NavParseError::UnsupportedHeader(_))
        ));
    }
}

#[test]
fn store_and_reader_give_the_same_ionosphere() {
    let text = format!(
        "{}> ION G29 LNAV\n\
         \x20   2020 06 25 00 00 00 1.024454832077e-08 0.000000000000e+00 0.000000000000e+00\n\
         \x20   -1.192092895508e-07 9.625600000000e+04 0.000000000000e+00 0.000000000000e+00\n\
         \x20   -5.898240000000e+05\n",
        HEAD.replace("3.05", "4.00")
    );
    let iono = parse_iono_corrections(&text).expect("iono");
    assert!(iono.gps.is_some());
    let store = BroadcastStore::from_nav(&text).ok().expect("store");
    assert_eq!(store.iono_corrections(), iono);
    assert_eq!(store.header().expect("header").text.len(), 2);
    let built = BroadcastStore::new(Vec::new()).ok().expect("store");
    assert_eq!(built.iono_corrections(), Default::default());
}

#[test]
fn records_of_old_versions_read_back() {
    // The fit interval field of G01 is 4: hours also where 0 and 1 are flags.
    let v301 = format!("{}{G01}", HEAD.replace("3.05", "3.01"));
    // The same record in RINEX 2 columns.
    let mut v2 = HEAD.replace("     3.05           NAVIGATION DATA     M", "     2.11           N: GPS NAV DATA      ");
    for (i, line) in G01.lines().enumerate() {
        if i == 0 {
            v2.push_str(&format!(" 1 20  6 25  4  0  0.0{}\n", &line[23..]));
        } else {
            v2.push_str(&format!("{}\n", &line[1..]));
        }
    }
    for text in [v301, v2] {
        let records = parse_nav(&text).expect("read");
        assert_eq!(records.len(), 1);
        assert_eq!(parse_nav(&encode_nav(&records).expect("encode")).expect("reread"), records);
    }
}

#[test]
fn beidou_records_are_nearest_in_beidou_time() {
    let mut early = g01();
    early.satellite_id = GnssSatelliteId::new(GnssSystem::BeiDou, 19).unwrap();
    early.message = sidereon_nav::record::NavMessage::BeidouD1;
    early.group_delays = Default::default();
    let at = |sow: i64| GnssWeekTow::new(TimeScale::Bdt, 755, Seconds { whole: sow, quectos: 0 });
    early.week = 755;
    early.toe = at(0);
    early.toc = at(0);
    let mut late = early;
    late.toe = at(3600);
    late.toc = at(3600);
    let store = BroadcastStore::new(vec![early, late]).ok().expect("store");
    let t = exact_week_tow_epoch(at(0)).checked_add_seconds(dec(false, 1805, 0)).unwrap();
    let selected = store.select_record_at(early.satellite_id, t).expect("selected");
    assert_eq!(selected.toe, early.toe);
}

#[test]
fn versions_in_words() {
    assert_eq!(NavVersion::new(3, 4).text(), "3.04");
    assert_eq!(NavVersion::new(2, 11).text(), "2.11");
}

#[test]
fn integers_are_read_as_doubles_tell_them() {
    let week = "2.111000000000e+03";
    let near = format!("{HEAD}{}", G01.replace(week, "2111.0000000000001"));
    assert_eq!(parse_nav(&near).expect("read")[0].week, 2111);
    let below = format!("{HEAD}{}", G01.replace(week, "2110.9999999999999"));
    assert_eq!(parse_nav(&below).expect("read")[0].week, 2111);
    let apart = format!("{HEAD}{}", G01.replace(week, "2111.0000000000010"));
    assert!(parse_nav(&apart).is_err());
}

#[test]
fn large_transmission_times_are_told_apart() {
    // Two records of one satellite as near to the query: the later candidate is taken.
    let at = |t: &str, toe: &str, issue: &str| {
        G01.replace("3.561060000000e+05", t)
            .replace("3.600000000000e+05", toe)
            .replace("G01 2020 06 25 04 00 00", if toe.starts_with("3.6") {
                "G01 2020 06 25 04 00 00"
            } else {
                "G01 2020 06 25 06 00 00"
            })
            .replace("5.800000000000e+01", issue)
    };
    let early = at("2.000000000000e+17", "3.600000000000e+05", "5.800000000000e+01");
    let late = at("1.000000000000e+17", "3.672000000000e+05", "5.900000000000e+01");
    for (a, b) in [(&early, &late), (&late, &early)] {
        let store = BroadcastStore::from_nav(&format!("{HEAD}{a}{b}")).ok().expect("store");
        let t = exact_week_tow_epoch(g01().toe).checked_add_seconds(dec(false, 36, 2)).unwrap();
        let selected = store.select_record_at(g01().satellite_id, t).expect("selected");
        assert_eq!(selected.toe, g01().toe);
    }
    let far = early.replace("2.000000000000e+17", "2.000000000000e+80");
    let farther = late.replace("1.000000000000e+17", "3.000000000000e+80");
    let store = BroadcastStore::from_nav(&format!("{HEAD}{farther}{far}")).ok().expect("store");
    let t = exact_week_tow_epoch(g01().toe).checked_add_seconds(dec(false, 36, 2)).unwrap();
    let selected = store.select_record_at(g01().satellite_id, t).expect("selected");
    assert_ne!(selected.toe, g01().toe);
}

#[test]
fn words_are_rounded_as_doubles_round() {
    assert_eq!(dec(false, 5164, -1).to_nearest_word(), Some(516));
    assert_eq!(dec(false, 5165, -1).to_nearest_word(), Some(517));
    assert_eq!(dec(false, 5164999999999999, -13).to_nearest_word(), Some(516));
    assert_eq!(dec(false, 516499999999999999, -15).to_nearest_word(), Some(517));
    assert_eq!(dec(false, 4999999999999999, -16).to_nearest_word(), Some(0));
    assert_eq!(dec(false, 4999999999999999999, -19).to_nearest_word(), Some(1));
    assert_eq!(dec(true, 4, -1).to_nearest_word(), Some(0));
    assert_eq!(dec(true, 1, 0).to_nearest_word(), None);
}

/// A magnitude in scientific form with an exponent of at least two digits.
fn double_form(value: f64, decimals: usize) -> String {
    let text = format!("{value:.decimals$e}");
    let (mantissa, exponent) = text.split_once('e').expect("exponent");
    let exponent: i32 = exponent.parse().expect("integer");
    format!("{mantissa}e{exponent:+03}")
}

/// A field of a number: a first digit, decimals and an exponent.
fn long_field(digits: u64, exponent: i32) -> String {
    let text = digits.to_string();
    format!("{}.{}e{exponent:+03}", &text[..1], &text[1..])
}

/// Numbers that look like nothing in particular.
fn next(seed: &mut u64) -> u64 {
    *seed = seed.wrapping_mul(6364136223846793005).wrapping_add(1442695040888963407);
    *seed >> 11
}

#[test]
fn numbers_of_more_digits_are_rounded_as_doubles() {
    // The double nearest to 1.0000000000005 lies above the middle, that to 1.0000000000015 below.
    for (field, expected) in [
        ("1.0000000000005e+00", " 1.000000000001e+00"),
        ("1.0000000000015e+00", " 1.000000000001e+00"),
        ("9.9999999999995e+00", " 1.000000000000e+01"),
        ("9.9999999999985e+00", " 9.999999999999e+00"),
    ] {
        let mut out = String::new();
        read_field(field).expect("number").push_d19_12(&mut out);
        let value: f64 = field.parse().expect("double");
        assert_eq!(out, format!(" {}", double_form(value, 12)), "{field}");
        assert_eq!(out, expected, "{field}");
    }
    let mut seed: u64 = 1;
    for round in 0..300 {
        let exponent = (next(&mut seed) % 199) as i32 - 99;
        // Fourteen digits, the last a five: halfway between two fields.
        let digits = (1_000_000_000_000 + next(&mut seed) % 9_000_000_000_000) * 10 + 5;
        let field = long_field(digits, if round % 2 == 0 { exponent } else { exponent % 12 });
        assert_eq!(field.len(), 19);
        let value: f64 = field.parse().expect("double");
        let number = read_field(&field).expect("number");
        let mut out = String::new();
        number.push_d19_12(&mut out);
        assert_eq!(out, format!(" {}", double_form(value, 12)), "{field}");
        for decimals in [4, 9, 10] {
            let mut out = String::new();
            push_scientific(&mut out, number.digits, i64::from(number.exponent), decimals);
            assert_eq!(out, double_form(value, decimals as usize), "{field}");
        }
        let meters = Decimal { exponent: number.exponent + 3, ..number };
        let mut out = String::new();
        meters.push_kilometers(&mut out);
        let back = value * 1000.0 / 1000.0;
        assert_eq!(out, format!(" {}", double_form(back, 12)), "{field}");
    }
}

#[test]
fn integers_that_doubles_hold_are_rounded_by_their_digits() {
    for (digits, expected) in [
        (45035996273705_u128, " 4.503599627370e+13"),
        (45035996273715, " 4.503599627372e+13"),
        (9007199254740991, " 9.007199254741e+15"),
        (8999999999999500, " 9.000000000000e+15"),
        (8999999999998500, " 8.999999999998e+15"),
    ] {
        let mut out = String::new();
        dec(false, digits, 0).push_d19_12(&mut out);
        assert_eq!(out, expected, "{digits}");
        assert_eq!(out, format!(" {}", double_form(digits as f64, 12)), "{digits}");
    }
}

#[test]
fn short_header_numbers_are_rounded_as_doubles() {
    for digits in 0..100_u64 {
        let field = format!("1.2{digits:02}5E-08");
        let value: f64 = field.parse().expect("double");
        let number = read_field(&field).expect("number");
        for decimals in [1_u32, 2, 3] {
            let mut out = String::new();
            push_scientific(&mut out, number.digits, i64::from(number.exponent), decimals);
            assert_eq!(out, double_form(value, decimals as usize), "{field}");
        }
    }
}

#[test]
fn seconds_are_rounded_to_tenths_as_doubles() {
    for hundredths in 0..6000_u32 {
        let text = format!("{}.{:02}", hundredths / 100, hundredths % 100);
        let value: f64 = text.parse().expect("double");
        let number = read_field(&text).expect("number");
        assert_eq!(tenths_string(number), format!("{value:.1}"), "{text}");
    }
    assert_eq!(tenths_string(dec(false, 35, -2)), "0.3");
    assert_eq!(tenths_string(dec(false, 25, -2)), "0.2");
    assert_eq!(tenths_string(dec(false, 1, -60)), "0.0");
}

#[test]
fn times_are_written_as_their_doubles() {
    let mut seed: u64 = 7;
    for round in 0..200 {
        // From a fraction of a second to far more than a week.
        let exponent = (next(&mut seed) % 15) as i32 - 2;
        let digits = if round % 3 == 0 {
            (1_000_000_000_000 + next(&mut seed) % 9_000_000_000_000) * 10 + 5
        } else {
            10_000_000_000_000 + next(&mut seed) % 90_000_000_000_000
        };
        let field = long_field(digits, exponent);
        let value: f64 = field.parse().expect("double");
        let time = Seconds::from_decimal(read_field(&field).expect("number"));
        let mut out = String::new();
        written_seconds(time).push_d19_12(&mut out);
        assert_eq!(out, format!(" {}", double_form(value, 12)), "{field}");
    }
    // Nine digits of seconds and thirty decimals: the digits decide.
    let long = Seconds { whole: 123456789, quectos: 123_450_000_000_000_000_000_000_000_001 };
    assert_eq!(written_seconds(long), dec(false, 1234567891235, -4));
}

#[test]
fn doubled_carriage_returns_change_no_outcome() {
    let doubled = HEAD.replace('\n', "\r\r\n");
    let unsupported = doubled.replace("3.05", "5.00");
    let mut messages: Vec<NavParseError> = Vec::new();
    for body in ["", "stray\n", "stray\r\n", G01] {
        let file = parse_nav_file(&format!("{doubled}{body}")).ok().expect("file");
        assert_eq!(file.header.version, NavVersion::new(3, 5));
        assert_eq!(file.header.file_type, 'N');
        assert_eq!(file.header.text.len(), 2);
        match parse_nav_file(&format!("{unsupported}{body}")) {
            Err(error) => messages.push(error),
            Ok(_) => panic!("unsupported version"),
        }
    }
    for error in &messages {
        assert_eq!(error, &messages[0]);
    }
}

#[test]
fn carriage_returns_do_not_hide_the_ionosphere() {
    let text = format!(
        "{}> ION G29 LNAV\n\
         \x20   2020 06 25 00 00 00 1.024454832077e-08 0.000000000000e+00 0.000000000000e+00\n\
         \x20   -1.192092895508e-07 9.625600000000e+04 0.000000000000e+00 0.000000000000e+00\n\
         \x20   -5.898240000000e+05",
        HEAD.replace("3.05", "4.00")
    );
    let plain = parse_iono_corrections(&text).ok().expect("iono");
    assert!(plain.gps.is_some());
    for ending in ["\r\n", "\r\r\n"] {
        for last in ["", "\r", "\r\r\n"] {
            let ended = format!("{}{last}", text.replace('\n', ending));
            let iono = parse_iono_corrections(&ended).ok().expect("iono");
            assert_eq!(iono, plain);
            let store = BroadcastStore::from_nav(&ended).ok().expect("store");
            assert_eq!(store.iono_corrections(), iono);
        }
    }
}

#[test]
fn lines_are_the_text_between_line_feeds() {
    for (text, lines, crlf, ended) in [
        ("", Vec::new(), false, false),
        ("\n", vec![""], false, true),
        ("\r\n", vec![""], true, true),
        ("a", vec!["a"], false, false),
        ("a\r", vec!["a\r"], false, false),
        ("a\r\nb", vec!["a", "b"], true, false),
        ("a\r\nb\n", vec!["a\r", "b"], false, true),
        ("a\r\r\nb\r\n", vec!["a\r", "b"], true, true),
        ("a\n\nb\r", vec!["a", "", "b\r"], false, false),
    ] {
        assert_eq!(split_lines(text), (lines, crlf, ended), "{text:?}");
    }
}

#[test]
fn every_version_reads_back_from_its_header() {
    for major in 2..=4_u8 {
        for minor in 0..=255_u8 {
            let version = NavVersion::new(major, minor);
            assert_eq!(parse_rinex_version(&format!("{major}.{minor:02}")), Some(version));
            let header = NavHeader::new(version);
            let mut lines: Vec<String> = Vec::new();
            format_header(&mut lines, &header);
            let texts: Vec<&str> = lines.iter().map(|line| line.as_str()).collect();
            let read = read_header(&texts).ok().expect("header");
            assert_eq!(read.header.version, version);
            assert_eq!(read.header.file_type, header.file_type);
            assert_eq!(read.header.text.len(), lines.len());
        }
    }
    for text in ["1.00", "5.00", "0.00", "12.0"] {
        assert_eq!(parse_rinex_version(text), None);
    }
}

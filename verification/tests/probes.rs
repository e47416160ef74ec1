//! Line probes, exact times and selection at exact times.

use sidereon_nav::decimal::Decimal;
use sidereon_nav::epoch::{
    exact_week_tow_epoch, record_within_exact_limit, within_exact_interval, ExactEpoch,
};
use sidereon_nav::health::keplerian_variance_m2;
use sidereon_nav::id::{GnssSatelliteId, GnssSystem};
use sidereon_nav::marker::{is_record_start, is_v2_numeric_record_start};
use sidereon_nav::record::{
    BroadcastGroupDelays, BroadcastIssue, BroadcastRecord, ClockPolynomial, GlonassRecord,
    KeplerianElements, NavMessage, SbasRecord, StatedNavFields,
};
use sidereon_nav::store::{beidou_ssr_iod, sbas_issue_matches, BroadcastStore};
use sidereon_nav::time::{GnssWeekTow, NavEpoch, Seconds, TimeScale};

fn dec(digits: u128, exponent: i32) -> Decimal {
    Decimal { negative: false, digits, exponent }
}

fn whole(n: i64) -> Decimal {
    Decimal::from_integer(n)
}

fn time(scale: TimeScale, week: u32, sow: i64) -> GnssWeekTow {
    GnssWeekTow::new(scale, week, Seconds::from_decimal(whole(sow)))
}

fn gps_selection_record(toe_sow: i64, issue: u32) -> BroadcastRecord {
    let message = NavMessage::GpsLnav;
    let zero = Decimal::zero();
    BroadcastRecord {
        satellite_id: GnssSatelliteId::new(GnssSystem::Gps, 30).expect("valid satellite id"),
        message,
        issue_of_data: Some(BroadcastIssue { issue, message }),
        week: 2111,
        toe: time(TimeScale::Gpst, 2111, toe_sow),
        toc: time(TimeScale::Gpst, 2111, toe_sow),
        elements: KeplerianElements {
            sqrt_a: whole(5153),
            e: dec(1, -3),
            m0: zero,
            delta_n: zero,
            omega0: zero,
            i0: dec(9, -1),
            omega: zero,
            omega_dot: zero,
            idot: zero,
            cuc: zero,
            cus: zero,
            crc: zero,
            crs: zero,
            cic: zero,
            cis: zero,
            toe_sow: whole(toe_sow),
        },
        clock: ClockPolynomial {
            af0: zero,
            af1: zero,
            af2: zero,
            toc_sow: Seconds::from_decimal(whole(toe_sow)),
        },
        group_delays: BroadcastGroupDelays::default(),
        cnav: None,
        sv_health: zero,
        sv_accuracy_m: Some(whole(2)),
        fit_interval_h: None,
        stated: StatedNavFields::default(),
    }
}

fn glonass_selection_record(toe_utc_j2000_s: i64) -> GlonassRecord {
    let zero = Decimal::zero();
    GlonassRecord {
        satellite_id: GnssSatelliteId::new(GnssSystem::Glonass, 1).expect("valid satellite id"),
        toe_utc_j2000_s,
        epoch_utc_j2000_s: Seconds { whole: toe_utc_j2000_s, quectos: 0 },
        pos_m: [zero; 3],
        vel_m_s: [zero; 3],
        acc_m_s2: [zero; 3],
        clk_bias: zero,
        gamma_n: zero,
        sv_health: zero,
        freq_channel: 0,
        stated_freq_channel: 0,
        message_frame_time_s: None,
        age_days: None,
        status_flags: None,
        l1_l2_group_delay_field_s: None,
        urai: None,
        health_flags: None,
    }
}

fn sbas_selection_record(year: i32, second: Decimal) -> SbasRecord {
    let zero = Decimal::zero();
    SbasRecord {
        satellite_id: GnssSatelliteId::new(GnssSystem::Sbas, 20).expect("valid satellite id"),
        epoch: NavEpoch { year, month: 1, day: 1, hour: 12, minute: 0, second },
        af0_s: zero,
        af1_s_s: zero,
        message_frame_time_s: None,
        pos_m: [zero; 3],
        vel_m_s: [zero; 3],
        acc_m_s2: [zero; 3],
        health: zero,
        ura_m: None,
        iodn: None,
    }
}

#[test]
fn malformed_utf8_replacement_does_not_panic_record_probe() {
    assert!(!is_record_start("G\u{FFFD}"));
    assert!(!is_v2_numeric_record_start("1\u{FFFD}"));
}

#[test]
fn exact_week_tow_difference_keeps_fraction_across_week_boundary() {
    let reference = exact_week_tow_epoch(GnssWeekTow::new(
        TimeScale::Gpst,
        2200,
        Seconds::from_decimal(dec(6047999, -1)),
    ));
    let query = exact_week_tow_epoch(GnssWeekTow::new(
        TimeScale::Gpst,
        2201,
        Seconds::from_decimal(Decimal::zero()),
    ));
    assert_eq!(query.seconds_since(reference), Some(Seconds::from_decimal(dec(1, -1))));

    let just_before = query.checked_sub_seconds(dec(1, -30)).unwrap();
    let back = Seconds::from_decimal(Decimal { negative: true, digits: 1, exponent: -30 });
    assert_eq!(just_before.seconds_since(query), Some(back));
    let rounded = Seconds { whole: query.whole as i64, quectos: query.quectos };
    assert!(just_before.before(ExactEpoch::from_j2000_seconds(rounded)));
}

#[test]
fn exact_igs_galileo_issue_uses_low_bits_after_but_not_at_toe() {
    let mut record = gps_selection_record(120_000, 0x123);
    record.satellite_id = GnssSatelliteId::new(GnssSystem::Galileo, 1).unwrap();
    record.message = NavMessage::GalileoInav;
    record.issue_of_data = Some(BroadcastIssue {
        issue: 0x123,
        message: NavMessage::GalileoInav,
    });
    let satellite = record.satellite_id;
    let toe = exact_week_tow_epoch(record.toe);
    let after = toe.checked_add_seconds(dec(1, -18)).unwrap();
    let store = BroadcastStore::new(vec![record]).unwrap();
    let select = |low_bits: u32, t: ExactEpoch| {
        store
            .select_by_issue_low_bits_at(satellite, low_bits, 8, NavMessage::GalileoInav, t)
            .copied()
    };
    assert!(select(0x23, toe).is_none());
    let selected = select(0x23, after).unwrap();
    assert_eq!(selected.issue_of_data.unwrap().issue, 0x123);
    assert!(select(0x24, after).is_none());
}

#[test]
fn exact_native_sbas_issue_does_not_round_across_a_sixteen_second_boundary() {
    let record = sbas_selection_record(2020, dec(15999999999, -9));
    let before = (0..512).find(|&issue| sbas_issue_matches(&record, issue, false)).unwrap();
    let record = sbas_selection_record(2020, whole(16));
    assert!(sbas_issue_matches(&record, (before + 1) % 512, false));
    assert!(!sbas_issue_matches(&record, before, false));
}

#[test]
fn exact_record_selection_keeps_twenty_nanoseconds_before_midpoint() {
    let early = gps_selection_record(0, 1);
    let late = gps_selection_record(7_200, 2);
    let sat = early.satellite_id;
    let midpoint = exact_week_tow_epoch(time(TimeScale::Gpst, 2111, 3_600));
    let selection_epoch = midpoint.checked_sub_seconds(dec(2, -8)).expect("finite offset");
    let store = BroadcastStore::new(vec![early, late]).ok().expect("valid store");
    let selected_exact = store.select_record_at(sat, selection_epoch).expect("exact selection");
    assert_eq!(selected_exact.issue_of_data.expect("issue").issue, 1);
    let selected_tie = store.select_record_at(sat, midpoint).expect("exact tie selection");
    assert_eq!(selected_tie.issue_of_data.expect("issue").issue, 2);
}

#[test]
fn exact_variance_uses_the_record_selected_before_rounded_midpoint() {
    let mut early = gps_selection_record(0, 1);
    early.sv_accuracy_m = Some(whole(2));
    let mut late = gps_selection_record(7_200, 2);
    late.sv_accuracy_m = Some(whole(20));
    let sat = early.satellite_id;
    let early_variance = keplerian_variance_m2(&early);
    let late_variance = keplerian_variance_m2(&late);
    assert_ne!(early_variance, late_variance);

    let midpoint = exact_week_tow_epoch(time(TimeScale::Gpst, 2111, 3_600));
    let selection_epoch = midpoint.checked_sub_seconds(dec(2, -8)).expect("finite offset");
    let store = BroadcastStore::new(vec![early, late]).ok().expect("valid store");
    assert_eq!(store.ephemeris_variance_m2(sat, selection_epoch), Some(early_variance));
    assert_eq!(store.ephemeris_variance_m2(sat, midpoint), Some(late_variance));
}

#[test]
fn exact_selection_age_limit_distinguishes_one_attosecond() {
    let reference = ExactEpoch::new(1_000_000_000, 0).expect("reference epoch");
    let at_limit = ExactEpoch::new(1_000_000_090, 0).expect("limit epoch");
    let twenty_nanoseconds_inside = at_limit.checked_sub_seconds(dec(2, -8)).expect("finite offset");
    let one_attosecond_past = ExactEpoch::new(1_000_000_090, 1).expect("one-attosecond-past epoch");
    assert!(within_exact_interval(twenty_nanoseconds_inside, reference, 90));
    assert!(within_exact_interval(at_limit, reference, 90));
    assert!(!within_exact_interval(one_attosecond_past, reference, 90));
}

#[test]
fn galileo_exact_selection_requires_toe_and_includes_age_limit() {
    let mut record = gps_selection_record(7_200, 1);
    record.satellite_id = GnssSatelliteId::new(GnssSystem::Galileo, 1).unwrap();
    record.message = NavMessage::GalileoInav;
    record.toe = time(TimeScale::Gst, 2111, 7_200);
    record.toc = record.toe;

    let toe = exact_week_tow_epoch(record.toe);
    let just_before_toe = toe.checked_sub_seconds(dec(1, -18)).expect("finite offset");
    let just_after_toe = toe.checked_add_seconds(dec(1, -18)).expect("finite offset");
    assert!(!record_within_exact_limit(&record, just_before_toe));
    assert!(record_within_exact_limit(&record, just_after_toe));

    let at_age_limit = toe.checked_add_seconds(whole(14_400)).expect("finite offset");
    let past_age_limit = at_age_limit.checked_add_seconds(dec(1, -18)).expect("finite offset");
    assert!(record_within_exact_limit(&record, at_age_limit));
    assert!(!record_within_exact_limit(&record, past_age_limit));
}

#[test]
fn exact_glonass_and_sbas_age_limits_include_boundary_but_not_one_attosecond_past() {
    const ATTOSECONDS_PER_SECOND: u64 = 1_000_000_000_000_000_000;
    let glonass = glonass_selection_record(0).toe_gpst_j2000_s();
    let glonass_limit = glonass.checked_add_seconds(whole(1_800)).unwrap();
    let glonass_inside = ExactEpoch::new(1_812, ATTOSECONDS_PER_SECOND - 1).unwrap();
    let glonass_past = ExactEpoch::new(1_813, 1).unwrap();
    assert!(within_exact_interval(glonass, glonass_inside, 1_800));
    assert!(within_exact_interval(glonass, glonass_limit, 1_800));
    assert!(!within_exact_interval(glonass, glonass_past, 1_800));

    let sbas = sbas_selection_record(2000, Decimal::zero()).t0_j2000_s();
    let sbas_limit = sbas.checked_add_seconds(whole(360)).unwrap();
    let sbas_inside = ExactEpoch::new(359, ATTOSECONDS_PER_SECOND - 1).unwrap();
    let sbas_past = ExactEpoch::new(360, 1).unwrap();
    assert!(within_exact_interval(sbas, sbas_inside, 360));
    assert!(within_exact_interval(sbas, sbas_limit, 360));
    assert!(!within_exact_interval(sbas, sbas_past, 360));
}

#[test]
fn exact_issue_selection_preserves_beidou_iod_modulo_and_full_issue() {
    let mut record = gps_selection_record(172_799, 0x1_2345);
    let sat = GnssSatelliteId::new(GnssSystem::BeiDou, 1).unwrap();
    record.satellite_id = sat;
    record.message = NavMessage::BeidouD1;
    record.issue_of_data = Some(BroadcastIssue {
        issue: 0x1_2345,
        message: NavMessage::BeidouD1,
    });
    record.toe = time(TimeScale::Bdt, 2111, 172_799);
    record.toc = record.toe;

    assert_eq!(beidou_ssr_iod(&record), Some(239));
    let query = exact_week_tow_epoch(record.toe);
    let store = BroadcastStore::new(vec![record]).ok().expect("valid store");
    let issue = |issue: u32| BroadcastIssue { issue, message: NavMessage::BeidouD1 };
    assert!(store
        .select_by_issue_at(sat, issue(0x1_2345), NavMessage::BeidouD1, query)
        .is_some());
    assert!(store
        .select_by_issue_at(sat, issue(0x2345), NavMessage::BeidouD1, query)
        .is_none());
    assert!(store
        .select_by_beidou_ssr_iod_at(sat, 239, NavMessage::BeidouD1, query)
        .is_some());
    assert!(store
        .select_by_beidou_ssr_iod_at(sat, 0x1_00ef, NavMessage::BeidouD1, query)
        .is_none());
}

#[test]
fn records_built_in_code_are_checked() {
    let mut record = gps_selection_record(0, 1);
    record.fit_interval_h = Some(Decimal::zero());
    let error = BroadcastStore::new(vec![record]).err().expect("a fit interval of zero");
    assert_eq!(error.text(), "record.fit_interval_s not positive");
    let mut record = gps_selection_record(0, 1);
    record.message = NavMessage::GpsCnav;
    let error = BroadcastStore::new(vec![record]).err().expect("CNAV without parameters");
    assert_eq!(
        error.text(),
        "record.cnav must be present only for CNAV-family messages"
    );
}

#[test]
fn retained_records_are_selected_again() {
    let early = gps_selection_record(0, 1);
    let late = gps_selection_record(7_200, 2);
    let sat = early.satellite_id;
    let mut store = BroadcastStore::new(vec![early, late]).ok().expect("valid store");
    let t = exact_week_tow_epoch(time(TimeScale::Gpst, 2111, 7_000));
    assert_eq!(store.select_record_at(sat, t), Some(&late));
    store.retain(|record| record.issue_of_data.map(|issue| issue.issue) == Some(1));
    assert_eq!(store.records().len(), 1);
    assert_eq!(store.select_record_at(sat, t), Some(&early));
}

//! What a query of a store answers: how far a record is from the instant asked for, which records
//! are left out, and which record a correction names.

use vstd::arithmetic::power2::pow2;
use vstd::prelude::*;

use crate::decimal::{decimal_of, pow10, Decimal};
use crate::epoch::{gap, native_total, within_limit};
use crate::evaluate::{evaluated, evaluated_iode, Selection};
use crate::format::clamped;
use crate::health::{glonass_healthy, health_excluded};
use crate::id::{GnssSatelliteId, GnssSystem};
use crate::order::{
    epoch_at, glonass_identity, glonass_key, glonass_order, glonass_reference, keplerian_order,
    law_distinct_covers, law_distinct_within, law_order_represents, law_sorted_indices,
    sbas_identity, sbas_key, sbas_order, sorted_indices,
};
use crate::positions::lemma_integer_word;
use crate::record::{BroadcastIssue, BroadcastRecord, GlonassRecord, NavMessage, SbasRecord};
use crate::store::{
    candidate, first_glonass, first_named, glonass_candidate, glonass_tb_of, law_nearest,
    law_nearest_glonass, law_nearest_sbas, law_selected_is_nearest, low_mask, named,
    nearest_glonass, nearest_sbas, sbas_candidate, selected, selected_glonass, selected_index,
    selected_sbas, toe_distance, usable_glonass, RecordIssue, Store,
};
use crate::time::{leap_seconds_on, GnssWeekTow, Seconds, QUECTOS_PER_SECOND};

verus! {

/// The instant of GPS time at which a clock shows a week and time of week, in 10^-30 s past J2000
/// noon. GPS weeks count from 1980-01-06, 630763200 s before; BeiDou weeks from 14 s into GPS week
/// 1356.
pub open spec fn gps_instant(w: GnssWeekTow) -> int {
    let start = if w.system is Bdt {
        (1356 + w.week) * 604800 + 14
    } else {
        w.week * 604800
    };
    (start - 630763200) * 1000000000000000000000000000000 + w.tow_s.whole
        * 1000000000000000000000000000000 + w.tow_s.quectos
}

/// Whether a record's times are of its system: BeiDou time for BeiDou, GPS or Galileo time else.
pub open spec fn timed_by_system(record: BroadcastRecord) -> bool {
    &&& record.toe.system is Bdt <==> record.satellite_id.system is BeiDou
    &&& record.toc.system is Bdt <==> record.satellite_id.system is BeiDou
}

/// The seconds a Keplerian record may be away from a query: 14400 for Galileo, 21601 for BeiDou,
/// 7201 else.
pub open spec fn limit_s(system: GnssSystem) -> int {
    if system is Galileo {
        14400
    } else if system is BeiDou {
        21601
    } else {
        7201
    }
}

/// A week and time of week on the clock of its own scale.
pub proof fn lemma_quectos(w: GnssWeekTow)
    ensures
        native_total(w) == gps_instant(w) - (if w.system is Bdt {
            14 * 1000000000000000000000000000000
        } else {
            0
        }),
{
    let q: int = 1000000000000000000000000000000;
    if w.system is Bdt {
        assert(((1356 + w.week) * 604800 + 14 - 630763200) * q == (w.week * 604800 + 189345600) * q
            + 14 * q);
        assert(w.week * 604800 + (732311 - 730119) * 86400 - 43200 == w.week * 604800 + 189345600);
    } else {
        assert(w.week * 604800 + (722819 - 730119) * 86400 - 43200 == w.week * 604800 - 630763200);
    }
}

/// A record that a query selects is of the satellite, and no farther from the query than its system
/// allows: its clock shows `toe` within that many seconds of the instant asked for, and for Galileo
/// before it.
pub proof fn law_selected_age(store: Store, sat: GnssSatelliteId, t: int)
    ensures
        selected(store, sat, t) matches Some(record) ==> {
            &&& record.satellite_id == sat
            &&& !(sat.system is Glonass) && !(sat.system is Sbas)
            &&& timed_by_system(record) ==> {
                &&& gps_instant(record.toe) - t <= limit_s(sat.system)
                    * 1000000000000000000000000000000
                &&& t - gps_instant(record.toe) <= limit_s(sat.system)
                    * 1000000000000000000000000000000
                &&& sat.system is Galileo ==> gps_instant(record.toe) < t
            }
        },
{
    let order = keplerian_order(store.records);
    let a = law_nearest(store.records, order, sat, t, store.preference, true);
    let b = law_nearest(store.records, order, sat, t, store.preference, false);
    if let Some(record) = selected(store, sat, t) {
        lemma_quectos(record.toe);
    }
}

/// The record a correction names is one of the store, of the satellite and of the issue, and within
/// its system's limit.
proof fn lemma_first_named(
    records: Seq<BroadcastRecord>,
    order: Seq<int>,
    sat: GnssSatelliteId,
    issue: RecordIssue,
    t: int,
)
    ensures
        match first_named(records, order, sat, issue, t) {
            Some(i) => order.contains(i) && records[i].satellite_id == sat && issue.names(records[i])
                && within_limit(records[i], t),
            None => forall|k: int|
                0 <= k < order.len() ==> !(records[#[trigger] order[k]].satellite_id == sat
                    && issue.names(records[order[k]]) && within_limit(records[order[k]], t)),
        },
    decreases order.len(),
{
    if order.len() > 0 {
        let rest = order.drop_first();
        lemma_first_named(records, rest, sat, issue, t);
        assert(order[0] == order.first());
        match first_named(records, rest, sat, issue, t) {
            Some(i) => {
                let j = choose|j: int| 0 <= j < rest.len() && rest[j] == i;
                assert(order[j + 1] == i);
            },
            None => {
                assert forall|k: int| 0 <= k < order.len() && k > 0 implies order[k] == rest[k
                    - 1] by {}
            },
        }
    }
}

/// A record that a correction names is of the satellite, and no farther from the query than its
/// system allows, as one that is selected by time.
pub proof fn law_named_age(store: Store, sat: GnssSatelliteId, issue: RecordIssue, t: int)
    ensures
        named(store, sat, issue, t) matches Some(record) ==> {
            &&& record.satellite_id == sat
            &&& !(sat.system is Glonass) && !(sat.system is Sbas)
            &&& issue.names(record)
            &&& toe_distance(record, t) <= limit_s(sat.system) * 1000000000000000000000000000000
            &&& timed_by_system(record) ==> {
                &&& gps_instant(record.toe) - t <= limit_s(sat.system)
                    * 1000000000000000000000000000000
                &&& t - gps_instant(record.toe) <= limit_s(sat.system)
                    * 1000000000000000000000000000000
                &&& sat.system is Galileo ==> gps_instant(record.toe) < t
            }
        },
{
    lemma_first_named(store.records, keplerian_order(store.records), sat, issue, t);
    if let Some(record) = named(store, sat, issue, t) {
        lemma_quectos(record.toe);
    }
}

/// Whether a number is less than one in magnitude, by its digits.
pub open spec fn below_one(d: Decimal) -> bool {
    if d.exponent >= 0 {
        d.digits == 0
    } else {
        d.digits < pow10((-d.exponent) as nat)
    }
}

/// A health word excludes a record unless it is less than one in magnitude; of a QZSS word the last
/// bit does not count.
pub proof fn law_health_excludes(record: BroadcastRecord)
    ensures
        !(record.satellite_id.system is Qzss) ==> health_excluded(record) == !below_one(
            record.sv_health,
        ),
        record.satellite_id.system is Qzss && below_one(record.sv_health) ==> !health_excluded(
            record,
        ),
        record.satellite_id.system is Qzss && !record.sv_health.negative ==> forall|n: int|
            0 <= n <= i64::MAX && #[trigger] record.sv_health.integer() == Some(n)
                ==> health_excluded(record) == !(n % 256 == 0 || n % 256 == 1),
{
    let d = record.sv_health;
    let w = d.rounded_to_zero();
    lemma_word_zero(d);
    assert(0i64 & 0xfe == 0) by (bit_vector);
    if record.satellite_id.system is Qzss && !d.negative {
        assert forall|n: int|
            0 <= n <= i64::MAX && #[trigger] d.integer() == Some(n) implies health_excluded(record)
            == !(n % 256 == 0 || n % 256 == 1) by {
            assert(w == n);
            let word = n as i64;
            assert(word & 0xfe == 0 <==> (word % 256 == 0 || word % 256 == 1)) by (bit_vector)
                requires
                    word >= 0,
            ;
        }
    }
}

/// A number reads as the word zero where it is less than one in magnitude.
proof fn lemma_word_zero(d: Decimal)
    ensures
        (clamped(d.rounded_to_zero()) == 0) == below_one(d),
{
    let w = d.rounded_to_zero();
    crate::decimal::lemma_pow10_monotone(0, (if d.exponent >= 0 {
        d.exponent as int
    } else {
        -d.exponent
    }) as nat);
    if d.exponent >= 0 {
        let p = pow10(d.exponent as nat);
        assert(d.digits * p == 0 <==> d.digits == 0) by (nonlinear_arith)
            requires
                p >= 1,
        ;
        assert(d.digits * p >= 0) by (nonlinear_arith)
            requires
                p >= 1,
        ;
    } else {
        let p = pow10((-d.exponent) as nat);
        assert(d.digits as int / p as int == 0 <==> d.digits < p) by (nonlinear_arith)
            requires
                p >= 1,
                d.digits >= 0,
        ;
        assert(d.digits as int / p as int >= 0) by (nonlinear_arith)
            requires
                p >= 1,
                d.digits >= 0,
        ;
    }
    assert((w == 0) == below_one(d));
    assert((clamped(w) == 0) == (w == 0));
}

/// A store that excludes unusable records gives none whose health is not zero: whatever it selects
/// or a correction names for a system other than QZSS has a health field of less than one in
/// magnitude.
pub proof fn law_unhealthy_left_out(store: Store, sat: GnssSatelliteId, issue: RecordIssue, t: int)
    requires
        store.exclude,
        !(sat.system is Qzss),
    ensures
        selected(store, sat, t) matches Some(record) ==> below_one(record.sv_health),
        named(store, sat, issue, t) matches Some(record) ==> below_one(record.sv_health),
{
    law_selected_age(store, sat, t);
    law_named_age(store, sat, issue, t);
    if let Some(record) = selected(store, sat, t) {
        law_health_excludes(record);
    }
    if let Some(record) = named(store, sat, issue, t) {
        law_health_excludes(record);
    }
}

/// A Keplerian record is evaluated by the time since its clocks showed `toe` and `toc`: each span is
/// zero exactly at the instant of GPS time at which the clock of its system shows that time.
pub proof fn law_evaluated_spans(store: Store, sat: GnssSatelliteId, t: int, at: int)
    ensures
        evaluated(store, sat, t, at) matches Some(Selection::Keplerian(record, toe, toc, geo))
            ==> timed_by_system(record) ==> {
            &&& toe == t - gps_instant(record.toe)
            &&& toc == t - gps_instant(record.toc)
            &&& selected(store, sat, at) == Some(record)
            &&& geo == (sat.system is BeiDou && (sat.prn <= 5 && sat.prn >= 1 || sat.prn >= 59
                && sat.prn <= 63) && record.cnav is None)
        },
{
    if let Some(Selection::Keplerian(record, _, _, _)) = evaluated(store, sat, t, at) {
        lemma_quectos(record.toe);
        lemma_quectos(record.toc);
    }
}

/// A record evaluated at the instant it is selected at is evaluated no farther from its `toe` than
/// its system allows, and by the distance it was selected by.
pub proof fn law_evaluated_age(store: Store, sat: GnssSatelliteId, t: int)
    ensures
        evaluated(store, sat, t, t) matches Some(Selection::Keplerian(record, toe, _, _))
            ==> timed_by_system(record) ==> {
            &&& toe_distance(record, t) == gap(toe, 0)
            &&& gap(toe, 0) <= limit_s(sat.system) * 1000000000000000000000000000000
        },
{
    law_evaluated_spans(store, sat, t, t);
    law_selected_age(store, sat, t);
    if let Some(Selection::Keplerian(record, _, _, _)) = evaluated(store, sat, t, t) {
        lemma_quectos(record.toe);
    }
}

/// The same of a record that a correction names by its issue byte.
pub proof fn law_evaluated_iode_spans(store: Store, sat: GnssSatelliteId, iode: u8, t: int, at: int)
    ensures
        match evaluated_iode(store, sat, iode, t, at) {
            Some(Selection::Keplerian(record, toe, toc, _)) => {
                &&& record.satellite_id == sat
                &&& record.issue_of_data == Some(
                    BroadcastIssue { issue: iode as u32, message: NavMessage::GpsLnav },
                )
                &&& timed_by_system(record) ==> toe == t - gps_instant(record.toe) && toc == t
                    - gps_instant(record.toc) && gap(gps_instant(record.toe), at) <= limit_s(
                    sat.system,
                ) * 1000000000000000000000000000000
            },
            None => named(store, sat, RecordIssue::Iode(iode), at) is None,
            _ => false,
        },
{
    law_named_age(store, sat, RecordIssue::Iode(iode), at);
    if let Some(Selection::Keplerian(record, _, _, _)) = evaluated_iode(store, sat, iode, t, at) {
        lemma_quectos(record.toe);
        lemma_quectos(record.toc);
    }
}

/// Whether a record may answer a query: its clock shows `toe` no more than its system's limit away
/// from the instant, and for Galileo before it.
pub open spec fn near_enough(record: BroadcastRecord, t: int) -> bool {
    let d = gps_instant(record.toe) - t;
    let limit = limit_s(record.satellite_id.system) * 1000000000000000000000000000000;
    -limit <= d <= limit && (record.satellite_id.system is Galileo ==> d < 0)
}

/// Whether a message is of the CNAV family.
pub open spec fn modern(message: NavMessage) -> bool {
    message is GpsCnav || message is GpsCnav2 || message is QzssCnav || message is QzssCnav2
}

/// Wherever a record of the satellite is near enough, one is selected, and no record of its kind that
/// is held is nearer: of all of them, or for GPS and QZSS of the CNAV family or of the others.
pub proof fn law_nearest_selected(store: Store, sat: GnssSatelliteId, t: int, k: int)
    requires
        0 <= k < store.records.len(),
        !(sat.system is Glonass) && !(sat.system is Sbas),
        store.records[k].satellite_id == sat,
        timed_by_system(store.records[k]),
        near_enough(store.records[k], t),
    ensures
        match selected_index(store, sat, t) {
            Some(i) => {
                &&& 0 <= i < store.records.len()
                &&& store.records[i].satellite_id == sat
                &&& timed_by_system(store.records[i]) && (!(sat.system is Gps) && !(sat.system
                    is Qzss) || modern(store.records[i].message) == modern(
                    store.records[k].message,
                )) ==> gap(gps_instant(store.records[i].toe), t) <= gap(
                    gps_instant(store.records[k].toe),
                    t,
                )
            },
            None => false,
        },
{
    let record = store.records[k];
    lemma_quectos(record.toe);
    assert(within_limit(record, t));
    law_selected_is_nearest(store, sat, t, k);
    let i = selected_index(store, sat, t)->0;
    lemma_quectos(store.records[i].toe);
}

/// The preference decides for GPS and QZSS: a store that prefers legacy records selects a CNAV one
/// only where no legacy record is near enough, and the other way round.
pub proof fn law_preferred_family(store: Store, sat: GnssSatelliteId, t: int, k: int)
    requires
        0 <= k < store.records.len(),
        sat.system is Gps || sat.system is Qzss,
        store.records[k].satellite_id == sat,
        timed_by_system(store.records[k]),
        near_enough(store.records[k], t),
        modern(store.records[k].message) == (store.preference is PreferModern),
    ensures
        selected_index(store, sat, t) matches Some(i) && modern(store.records[i].message) == (
        store.preference is PreferModern),
{
    let records = store.records;
    let order = keplerian_order(records);
    lemma_quectos(records[k].toe);
    let r = law_order_represents(records, k);
    let m = order[r];
    assert(candidate(records[m], sat, t, store.preference, true));
    let a = law_nearest(records, order, sat, t, store.preference, true);
}

/// A correction that names a record that is near enough finds one, unless the record found is left
/// out for its health: the first in the order of transmission.
pub proof fn law_named_found(
    store: Store,
    sat: GnssSatelliteId,
    issue: RecordIssue,
    t: int,
    k: int,
)
    requires
        !(sat.system is Glonass) && !(sat.system is Sbas),
        0 <= k < keplerian_order(store.records).len(),
        ({
            let record = store.records[keplerian_order(store.records)[k]];
            &&& record.satellite_id == sat
            &&& issue.names(record)
            &&& timed_by_system(record)
            &&& near_enough(record, t)
        }),
    ensures
        !store.exclude ==> named(store, sat, issue, t) is Some,
        first_named(store.records, keplerian_order(store.records), sat, issue, t) matches Some(i)
            && named(store, sat, issue, t) == (if store.exclude && health_excluded(
            store.records[i],
        ) {
            None
        } else {
            Some(store.records[i])
        }),
{
    let order = keplerian_order(store.records);
    lemma_first_named(store.records, order, sat, issue, t);
    lemma_quectos(store.records[order[k]].toe);
}

/// The issue that names a record: the issue of data and message; the GPS LNAV issue byte; the
/// remainder of the issue by a power of two; or for BeiDou the 720 s of the week that `toe` is in,
/// modulo 240.
pub proof fn law_issue_names(record: BroadcastRecord, issue: RecordIssue)
    ensures
        match issue {
            RecordIssue::Issue { issue, message } => issue.message == message ==> (RecordIssue::Issue {
                issue,
                message,
            }).names(record) == (record.message == message && record.issue_of_data == Some(issue)),
            RecordIssue::Iode(iode) => RecordIssue::Iode(iode).names(record) == (
            record.issue_of_data matches Some(i) && i.issue == iode && i.message is GpsLnav),
            RecordIssue::LowBits { low_bits, bits, message } => 1 <= bits <= 31 ==> (
            RecordIssue::LowBits { low_bits, bits, message }).names(record) == (record.message
                == message && (record.issue_of_data matches Some(i) && i.message == message
                && i.issue as nat % pow2(bits as nat) == low_bits)),
            RecordIssue::BeidouSsr { iod, message } => match record.elements.toe_sow.integer() {
                Some(n) => 0 <= n < 604800 ==> (RecordIssue::BeidouSsr { iod, message }).names(record)
                    == (record.satellite_id.system is BeiDou && record.message == message && n / 720
                    % 240 == iod),
                None => true,
            },
        },
{
    if let RecordIssue::LowBits { low_bits, bits, message } = issue {
        if 1 <= bits <= 31 {
            if let Some(i) = record.issue_of_data {
                lemma_low_bits(i.issue, bits);
            }
        }
    }
}

/// The low bits of a word are its remainder by a power of two.
proof fn lemma_low_bits(x: u32, bits: u32)
    requires
        1 <= bits <= 31,
    ensures
        (x & low_mask(bits)) as nat == x as nat % pow2(bits as nat),
{
    let k = (32 - bits) as u32;
    let m = 0xffff_ffffu32 >> k;
    vstd::bits::lemma_u32_low_bits_mask_is_mod(x, bits as nat);
    vstd::arithmetic::power2::lemma2_to64();
    vstd::arithmetic::power2::lemma_pow2_strictly_increases(bits as nat, 32);
    vstd::arithmetic::power2::lemma_pow2_pos(bits as nat);
    let wide = bits as u64;
    vstd::bits::lemma_u64_shl_is_mul(1, wide);
    assert(m as u64 + 1 == 1u64 << wide) by (bit_vector)
        requires
            1 <= bits <= 31,
            k + bits == 32,
            m == 0xffff_ffffu32 >> k,
            wide == bits as u64,
    ;
}

/// The instant of GPS time of a GLONASS record's reference epoch: UTC and the leap seconds of its day.
pub open spec fn glonass_instant(record: GlonassRecord) -> int {
    (record.toe_utc_j2000_s + leap_seconds_on(730119 + (record.toe_utc_j2000_s + 43200) / 86400))
        * 1000000000000000000000000000000
}

/// The GLONASS records held are all represented in their order.
proof fn lemma_glonass_represented(records: Seq<GlonassRecord>, k: int) -> (r: int)
    requires
        0 <= k < records.len(),
    ensures
        ({
            let order = glonass_order(records);
            &&& 0 <= r < order.len()
            &&& 0 <= order[r] < records.len()
            &&& records[order[r]].satellite_id == records[k].satellite_id
            &&& glonass_reference(records[order[r]]) == glonass_reference(records[k])
        }),
{
    let keys = records.map_values(|r: GlonassRecord| glonass_key(r));
    let ids = records.map_values(|r: GlonassRecord| glonass_identity(r));
    let sorted = sorted_indices(keys, keys.len() as int);
    law_sorted_indices(keys, keys.len() as int);
    assert(sorted.contains(k));
    let a = choose|a: int| 0 <= a < sorted.len() && sorted[a] == k;
    let r = law_distinct_covers(sorted, ids, a);
    let b = law_distinct_within(sorted, ids, r);
    assert(sorted.contains(sorted[b]));
    let order = glonass_order(records);
    assert(ids[order[r]] == glonass_identity(records[order[r]]));
    assert(ids[k] == glonass_identity(records[k]));
    r
}

/// A GLONASS record that a query selects is of the satellite and at most half an hour from the query,
/// and a store that excludes unusable records gives none whose health field is not zero.
pub proof fn law_glonass_selected(store: Store, sat: GnssSatelliteId, t: int)
    ensures
        selected_glonass(store, sat, t) matches Some(record) ==> {
            &&& record.satellite_id == sat
            &&& gap(glonass_instant(record), t) <= 1800 * 1000000000000000000000000000000
            &&& store.exclude ==> record.sv_health.digits == 0
        },
{
    let r = law_nearest_glonass(store.glonass, glonass_order(store.glonass), sat, t);
}

/// Wherever a GLONASS record of the satellite is at most half an hour from the query one is selected,
/// and none that is held is nearer; where it is usable or nothing is excluded it is the answer.
pub proof fn law_glonass_nearest(store: Store, sat: GnssSatelliteId, t: int, k: int)
    requires
        0 <= k < store.glonass.len(),
        store.glonass[k].satellite_id == sat,
        gap(glonass_instant(store.glonass[k]), t) <= 1800 * 1000000000000000000000000000000,
    ensures
        nearest_glonass(store.glonass, glonass_order(store.glonass), sat, t) matches Some(i) && gap(
            glonass_instant(store.glonass[i]),
            t,
        ) <= gap(glonass_instant(store.glonass[k]), t),
        !store.exclude ==> selected_glonass(store, sat, t) is Some,
{
    let order = glonass_order(store.glonass);
    let p = lemma_glonass_represented(store.glonass, k);
    let r = law_nearest_glonass(store.glonass, order, sat, t);
    assert(glonass_candidate(store.glonass[order[p]], sat, None, t));
}

/// A GLONASS record is evaluated by the time since its reference epoch.
pub proof fn law_glonass_evaluated(store: Store, sat: GnssSatelliteId, t: int, at: int)
    ensures
        sat.system is Glonass ==> match evaluated(store, sat, t, at) {
            Some(Selection::Glonass(record, since)) => selected_glonass(store, sat, at) == Some(
                record,
            ) && since == t - glonass_instant(record),
            None => selected_glonass(store, sat, at) is None,
            _ => false,
        },
{
}

/// The index of a GLONASS reference epoch is its quarter of an hour in the day of Moscow time, three
/// hours ahead of UTC, from 0 to 96.
pub proof fn law_glonass_index(record: GlonassRecord)
    ensures
        0 <= glonass_tb_of(record) <= 96,
        ({
            let moscow = (record.toe_utc_j2000_s + 43200 + 10800) % 86400;
            -450 <= 900 * glonass_tb_of(record) - moscow <= 450
        }),
{
}

/// The GLONASS record a correction names is the first whose quarter of an hour is the issue, of the
/// satellite and at most half an hour from the query.
pub proof fn law_glonass_named(store: Store, sat: GnssSatelliteId, issue: u32, t: int)
    ensures
        usable_glonass(
            store,
            first_glonass(store.glonass, glonass_order(store.glonass), sat, issue, t),
        ) matches Some(record) ==> {
            &&& record.satellite_id == sat
            &&& glonass_tb_of(record) == issue
            &&& gap(glonass_instant(record), t) <= 1800 * 1000000000000000000000000000000
            &&& store.exclude ==> record.sv_health.digits == 0
        },
{
    lemma_first_glonass(store.glonass, glonass_order(store.glonass), sat, issue, t);
}

/// The first GLONASS record of an issue is one of the order.
proof fn lemma_first_glonass(
    records: Seq<GlonassRecord>,
    order: Seq<int>,
    sat: GnssSatelliteId,
    issue: u32,
    t: int,
)
    ensures
        first_glonass(records, order, sat, issue, t) matches Some(i) ==> glonass_candidate(
            records[i],
            sat,
            Some(issue),
            t,
        ),
    decreases order.len(),
{
    if order.len() > 0 {
        lemma_first_glonass(records, order.drop_first(), sat, issue, t);
    }
}

/// A GLONASS health record: the flags count only where they are stated. The almanac health counts
/// where it is said to be there, and the fast health flag unless the satellite type says otherwise.
pub proof fn law_glonass_health(record: GlonassRecord)
    ensures
        record.sv_health.digits != 0 ==> !glonass_healthy(record),
        record.sv_health.digits == 0 && record.health_flags is None ==> glonass_healthy(record),
        record.sv_health.digits == 0 ==> (record.health_flags matches Some(d) ==> (d.integer()
            matches Some(n) ==> (0 <= n < 4294967296 ==> {
            let c = n % 2 == 1;
            let ac = n / 2 % 2 == 1;
            let fast = n / 4 % 2 == 1;
            &&& ac && !c ==> !glonass_healthy(record)
            &&& !fast && (ac ==> c) ==> glonass_healthy(record)
            &&& fast && record.status_flags is None ==> !glonass_healthy(record)
        }))),
{
    if let Some(d) = record.health_flags {
        if let Some(n) = d.integer() {
            if 0 <= n < 4294967296 {
                lemma_integer_word(d, n);
                assert(pow10(0) == 1);
                assert(999999999999 * pow10(0) == 999999999999);
                let w = n as u32;
                assert((w & 1 != 0) == (w % 2 == 1)) by (bit_vector);
                assert((w & 2 != 0) == (w / 2 % 2 == 1)) by (bit_vector);
                assert((w & 4 != 0) == (w / 4 % 2 == 1)) by (bit_vector);
            }
        }
    }
}

/// The SBAS records held are all represented in their order.
proof fn lemma_sbas_represented(records: Seq<SbasRecord>, k: int) -> (r: int)
    requires
        0 <= k < records.len(),
    ensures
        ({
            let order = sbas_order(records);
            &&& 0 <= r < order.len()
            &&& 0 <= order[r] < records.len()
            &&& records[order[r]].satellite_id == records[k].satellite_id
            &&& records[order[r]].epoch.j2000().total() == records[k].epoch.j2000().total()
        }),
{
    let keys = records.map_values(|r: SbasRecord| sbas_key(r));
    let ids = records.map_values(|r: SbasRecord| sbas_identity(r));
    let sorted = sorted_indices(keys, keys.len() as int);
    law_sorted_indices(keys, keys.len() as int);
    assert(sorted.contains(k));
    let a = choose|a: int| 0 <= a < sorted.len() && sorted[a] == k;
    let r = law_distinct_covers(sorted, ids, a);
    let b = law_distinct_within(sorted, ids, r);
    assert(sorted.contains(sorted[b]));
    let order = sbas_order(records);
    assert(ids[order[r]] == sbas_identity(records[order[r]]));
    assert(ids[k] == sbas_identity(records[k]));
    lemma_epoch_at(records[order[r]].epoch.j2000());
    lemma_epoch_at(records[k].epoch.j2000());
    r
}

/// An instant of whole seconds and a fraction is found again from its count.
proof fn lemma_epoch_at(s: Seconds)
    ensures
        epoch_at(s.total()).total() == s.total(),
{
    let q = QUECTOS_PER_SECOND as int;
    vstd::arithmetic::div_mod::lemma_fundamental_div_mod(s.total(), q);
    assert(s.whole * q >= -9223372036854775808 * q && s.whole * q <= 9223372036854775807 * q)
        by (nonlinear_arith)
        requires
            -9223372036854775808 <= s.whole <= 9223372036854775807,
            q > 0,
    ;
    assert(-9223372036854775809 <= s.total() / q <= 1000000000000000000000) by (nonlinear_arith)
        requires
            s.total() == q * (s.total() / q) + s.total() % q,
            0 <= s.total() % q < q,
            s.total() >= -9223372036854775808 * q,
            s.total() <= 9223372036854775807 * q + 340282366920938463463374607431768211455,
            q == 1000000000000000000000000000000,
    ;
    assert((s.total() / q) * q == q * (s.total() / q)) by (nonlinear_arith);
}

/// An SBAS record that a query selects is of the satellite and at most six minutes from the query; a
/// store that excludes unusable records gives none whose health is one or more. It is evaluated by
/// the time since its epoch.
pub proof fn law_sbas_selected(
    store: Store,
    sat: GnssSatelliteId,
    issue: Option<(u32, bool)>,
    t: int,
    at: int,
)
    ensures
        selected_sbas(store, sat, issue, at) matches Some(record) ==> {
            &&& record.satellite_id == sat
            &&& gap(record.epoch.j2000().total(), at) <= 360 * 1000000000000000000000000000000
            &&& store.exclude ==> below_one(record.health)
            &&& issue matches Some((n, true)) ==> record.iodn matches Some(d) && d == decimal_of(
                n as int,
            )
            &&& issue matches Some((n, false)) ==> ((record.epoch.j2000().total()
                / 1000000000000000000000000000000 + 561600) % 604800) / 16 % 512 == n
        },
        sat.system is Sbas ==> match evaluated(store, sat, t, at) {
            Some(Selection::Sbas(record, since)) => selected_sbas(store, sat, None, at) == Some(record)
                && since == t - record.epoch.j2000().total(),
            None => selected_sbas(store, sat, None, at) is None,
            _ => false,
        },
{
    let r = law_nearest_sbas(store.sbas, sbas_order(store.sbas), sat, issue, at);
    if let Some(record) = selected_sbas(store, sat, issue, at) {
        lemma_word_zero(record.health);
    }
}

/// Wherever an SBAS record of the satellite is at most six minutes from the query one is selected, and
/// none that is held is nearer.
pub proof fn law_sbas_nearest(store: Store, sat: GnssSatelliteId, t: int, k: int)
    requires
        0 <= k < store.sbas.len(),
        store.sbas[k].satellite_id == sat,
        gap(store.sbas[k].epoch.j2000().total(), t) <= 360 * 1000000000000000000000000000000,
    ensures
        nearest_sbas(store.sbas, sbas_order(store.sbas), sat, None, t) matches Some(i) && gap(
            store.sbas[i].epoch.j2000().total(),
            t,
        ) <= gap(store.sbas[k].epoch.j2000().total(), t),
        !store.exclude ==> selected_sbas(store, sat, None, t) is Some,
{
    let order = sbas_order(store.sbas);
    let p = lemma_sbas_represented(store.sbas, k);
    let r = law_nearest_sbas(store.sbas, order, sat, None, t);
    assert(sbas_candidate(store.sbas[order[p]], sat, None, t));
}

} // verus!

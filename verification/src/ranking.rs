//! The order in which records are considered: by transmission, then reference time, satellite and
//! clock set.

use vstd::arithmetic::div_mod::lemma_fundamental_div_mod;
use vstd::prelude::*;

use crate::decimal::{lemma_pow10_add, lemma_pow10_monotone, lemma_pow10_values, pow10, Decimal};
use crate::epoch::native_total;
use crate::id::GnssSystem;
use crate::order::{
    distinct, epoch_at, in_fnav_set, in_order, keplerian_identities, keplerian_key, keplerian_keys,
    keplerian_order, law_distinct_differs, law_distinct_within, law_order_within,
    law_sorted_indices, precedes, sorted_indices, transmission_total, Identity, SelectionKey,
};
use crate::positions::lemma_integer_word;
use crate::record::{transmission_sow, BroadcastRecord};
use crate::stated_time::{beyond_rank, wide_total};
use crate::time::{week_epoch_day, GnssWeekTow, Seconds, J2000_DAY, SECONDS_PER_DAY};

verus! {

/// Whether a transmission time is absent or a number of seconds of fewer than twenty digits.
pub open spec fn ordinary(sow: Option<Decimal>) -> bool {
    sow matches Some(d) ==> d.wf() && -30 <= d.exponent <= 0
}

/// A stated number of seconds in 10^-30 s; none counts as zero.
pub open spec fn seconds_stated(sow: Option<Decimal>) -> int {
    match sow {
        Some(d) => d.signed_digits() * pow10((30 + d.exponent) as nat),
        None => 0,
    }
}

/// The start of a record's week, in 10^-30 s past J2000 noon of its scale.
pub open spec fn week_start(record: BroadcastRecord) -> int {
    native_total(record.toc) + ((record.week - record.toc.week) * 604800
        - record.toc.tow_s.whole) * 1000000000000000000000000000000 - record.toc.tow_s.quectos
}

/// An ordinary number of seconds as it is compared.
proof fn lemma_ordinary(sow: Option<Decimal>)
    requires
        ordinary(sow),
    ensures
        beyond_rank(sow) == 0,
        wide_total(sow) == seconds_stated(sow),
        -10000000000000000000000000000000000000000000000000000 < wide_total(sow)
            < 10000000000000000000000000000000000000000000000000000,
{
    if let Some(d) = sow {
        lemma_pow10_values();
        let k = (30 + d.exponent) as nat;
        lemma_pow10_monotone(k, 30);
        lemma_pow10_add(15, 15);
        assert(pow10(30) == 1000000000000000000000000000000);
        let p = pow10(k);
        let n = d.digits as int;
        assert(0 <= n * p <= 10000000000000000000 * 1000000000000000000000000000000)
            by (nonlinear_arith)
            requires
                0 <= n < 10000000000000000000,
                0 <= p <= 1000000000000000000000000000000,
        ;
        assert(-n * p == -(n * p)) by (nonlinear_arith);
    }
}

/// A time in whole seconds and a fraction is that time.
proof fn lemma_epoch_total(total: int)
    requires
        -100000000000000000000000000000000000000000000000000000 < total
            < 100000000000000000000000000000000000000000000000000000,
    ensures
        epoch_at(total).total() == total,
{
    lemma_fundamental_div_mod(total, 1000000000000000000000000000000);
}

/// The reference times of records in 10^-30 s are of at most 53 digits.
proof fn lemma_native_bound(w: GnssWeekTow)
    ensures
        -1000000000000000000000000000000000000000000000000000 < native_total(w)
            < 1000000000000000000000000000000000000000000000000000,
{
}

/// A record was transmitted at the seconds of its week that it states, in the week in which that is
/// nearest to its clock reference time: within half a week, wherever the time stated is less than a
/// week and a half away.
pub proof fn law_transmission_time(record: BroadcastRecord)
    requires
        ordinary(transmission_sow(record)),
    ensures
        ({
            let half = 302400 * 1000000000000000000000000000000;
            let stated = week_start(record) + seconds_stated(transmission_sow(record));
            let sent = transmission_total(record);
            let toc = native_total(record.toc);
            &&& sent == stated || sent == stated - 2 * half || sent == stated + 2 * half
            &&& toc - half <= stated <= toc + half ==> sent == stated
            &&& toc - 3 * half <= stated <= toc + 3 * half ==> toc - half <= sent <= toc + half
            &&& record.cnav matches Some(c) ==> transmission_sow(record) == Some(
                c.transmission_time_sow,
            )
            &&& record.cnav is None ==> transmission_sow(record)
                == record.stated.transmission_time_sow
        }),
{
    lemma_ordinary(transmission_sow(record));
    let w = GnssWeekTow {
        system: record.toc.system,
        week: record.week,
        tow_s: Seconds { whole: 0, quectos: 0 },
    };
    let base = (week_epoch_day(record.toc.system) - J2000_DAY) * SECONDS_PER_DAY - 43200;
    assert(native_total(w) == (record.week * 604800 + base) * 1000000000000000000000000000000);
    assert(native_total(record.toc) == (record.toc.week * 604800 + base)
        * 1000000000000000000000000000000 + record.toc.tow_s.whole * 1000000000000000000000000000000
        + record.toc.tow_s.quectos);
}

/// The place of a system among others: GPS, GLONASS, Galileo, BeiDou, QZSS, NavIC, SBAS.
pub open spec fn place(system: GnssSystem) -> int {
    match system {
        GnssSystem::Gps => 1,
        GnssSystem::Glonass => 2,
        GnssSystem::Galileo => 3,
        GnssSystem::BeiDou => 4,
        GnssSystem::Qzss => 5,
        GnssSystem::Navic => 6,
        GnssSystem::Sbas => 7,
    }
}

/// Leaving out records that repeat the one before keeps the order.
proof fn lemma_distinct_in_order(order: Seq<int>, ids: Seq<Identity>, keys: Seq<SelectionKey>)
    requires
        in_order(order, keys),
    ensures
        in_order(distinct(order, ids), keys),
    decreases order.len(),
{
    if order.len() > 0 {
        let head = order.drop_last();
        assert(in_order(head, keys)) by {
            assert forall|a: int, b: int| 0 <= a < b < head.len() implies precedes(
                keys[#[trigger] head[a]],
                keys[#[trigger] head[b]],
            ) || (!precedes(keys[head[b]], keys[head[a]]) && head[a] < head[b]) by {
                assert(head[a] == order[a] && head[b] == order[b]);
            }
        }
        lemma_distinct_in_order(head, ids, keys);
        let before = distinct(head, ids);
        let all = distinct(order, ids);
        assert forall|a: int, b: int| 0 <= a < b < all.len() implies precedes(
            keys[#[trigger] all[a]],
            keys[#[trigger] all[b]],
        ) || (!precedes(keys[all[b]], keys[all[a]]) && all[a] < all[b]) by {
            if b < before.len() {
                assert(all[a] == before[a] && all[b] == before[b]);
            } else {
                let r = law_distinct_within(head, ids, a);
                assert(all[a] == before[a] && before[a] == head[r]);
                assert(head[r] == order[r]);
                assert(all[b] == order[order.len() - 1]);
            }
        }
    }
}

/// Records are considered in the order of their transmission; of those transmitted at once, the
/// earlier reference time comes first, then the system's place, the satellite's number, and a record
/// of another clock set before one of F/NAV.
pub proof fn law_considered_order(records: Seq<BroadcastRecord>, a: int, b: int)
    requires
        0 <= a < b < keplerian_order(records).len(),
        ordinary(transmission_sow(records[keplerian_order(records)[a]])),
        ordinary(transmission_sow(records[keplerian_order(records)[b]])),
    ensures
        ({
            let x = records[keplerian_order(records)[a]];
            let y = records[keplerian_order(records)[b]];
            &&& transmission_total(x) <= transmission_total(y)
            &&& transmission_total(x) == transmission_total(y) ==> {
                &&& native_total(x.toe) <= native_total(y.toe)
                &&& native_total(x.toe) == native_total(y.toe) ==> {
                    &&& place(x.satellite_id.system) <= place(y.satellite_id.system)
                    &&& x.satellite_id.system == y.satellite_id.system ==> {
                        &&& x.satellite_id.prn <= y.satellite_id.prn
                        &&& x.satellite_id == y.satellite_id && in_fnav_set(x) ==> in_fnav_set(y)
                        &&& x.satellite_id == y.satellite_id && in_fnav_set(x) == in_fnav_set(y)
                            ==> keplerian_order(records)[a] < keplerian_order(records)[b]
                    }
                }
            }
        }),
{
    let keys = keplerian_keys(records);
    let ids = keplerian_identities(records);
    let n = keys.len() as int;
    law_sorted_indices(keys, n);
    lemma_distinct_in_order(sorted_indices(keys, n), ids, keys);
    let order = keplerian_order(records);
    law_order_within(records, a);
    law_order_within(records, b);
    let x = records[order[a]];
    let y = records[order[b]];
    assert(keys[order[a]] == keplerian_key(x));
    assert(keys[order[b]] == keplerian_key(y));
    law_transmission_time(x);
    law_transmission_time(y);
    lemma_ordinary(transmission_sow(x));
    lemma_ordinary(transmission_sow(y));
    lemma_native_bound(x.toe);
    lemma_native_bound(y.toe);
    lemma_native_bound(x.toc);
    lemma_native_bound(y.toc);
    lemma_epoch_total(native_total(x.toe));
    lemma_epoch_total(native_total(y.toe));
    lemma_sent_bound(x);
    lemma_sent_bound(y);
    lemma_epoch_total(transmission_total(x));
    lemma_epoch_total(transmission_total(y));
    assert(precedes(keys[order[a]], keys[order[b]]) || (!precedes(keys[order[b]], keys[order[a]])
        && order[a] < order[b]));
}

/// A transmission time is of at most 53 digits.
proof fn lemma_sent_bound(record: BroadcastRecord)
    requires
        ordinary(transmission_sow(record)),
    ensures
        -100000000000000000000000000000000000000000000000000000 < transmission_total(record)
            < 100000000000000000000000000000000000000000000000000000,
{
    lemma_ordinary(transmission_sow(record));
    lemma_native_bound(
        GnssWeekTow {
            system: record.toc.system,
            week: record.week,
            tow_s: Seconds { whole: 0, quectos: 0 },
        },
    );
}

/// A Galileo record is of the F/NAV clock set where bit 1 or bit 8 of its data sources is set; one
/// that states none is where its message is F/NAV.
pub proof fn law_fnav_set(record: BroadcastRecord)
    requires
        record.satellite_id.system is Galileo,
    ensures
        record.stated.orbit5_field2 is None ==> in_fnav_set(record) == record.message is GalileoFnav,
        record.stated.orbit5_field2 matches Some(d) ==> (d.integer() matches Some(n) ==> (0 <= n
            < 4294967296 ==> in_fnav_set(record) == (n / 2 % 2 == 1 || n / 256 % 2 == 1))),
{
    if let Some(d) = record.stated.orbit5_field2 {
        if let Some(n) = d.integer() {
            if 0 <= n < 4294967296 {
                lemma_integer_word(d, n);
                let w = n as u32;
                assert((w & 258 != 0) == (w / 2 % 2 == 1 || w / 256 % 2 == 1)) by (bit_vector);
            }
        }
    }
}

/// Two records are the same to a store where they are of one satellite, reference time, message,
/// issue and, for Galileo, clock set: of such that follow one another only the first is considered.
pub proof fn law_same_record(records: Seq<BroadcastRecord>, b: int)
    requires
        0 < b < keplerian_order(records).len(),
    ensures
        ({
            let x = records[keplerian_order(records)[b - 1]];
            let y = records[keplerian_order(records)[b]];
            ||| x.satellite_id != y.satellite_id
            ||| native_total(x.toe) != native_total(y.toe)
            ||| x.message != y.message
            ||| x.issue_of_data is Some != y.issue_of_data is Some
            ||| x.issue_of_data matches Some(i) && y.issue_of_data matches Some(j) && i.issue
                != j.issue
            ||| x.satellite_id.system is Galileo && in_fnav_set(x) != in_fnav_set(y)
        }),
{
    let keys = keplerian_keys(records);
    let ids = keplerian_identities(records);
    let sorted = sorted_indices(keys, keys.len() as int);
    law_distinct_differs(sorted, ids, b);
    law_order_within(records, b);
    law_order_within(records, b - 1);
}

} // verus!

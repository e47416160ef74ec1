//! The order records are considered in when one is selected: by transmission time, then reference
//! time, then satellite, in file order among equals, with a record that repeats the one before it
//! left out.

use vstd::arithmetic::div_mod::{
    lemma_fundamental_div_mod, lemma_fundamental_div_mod_converse,
};
use vstd::prelude::*;

use crate::decimal::Decimal;
use crate::epoch::{
    exact_week_tow_epoch, glonass_gpst, leap_seconds_at, native_total, toe_total, ExactEpoch,
    J2000_GPS_SECONDS_OF_WEEK,
};
use crate::health::flags_word;
use crate::id::{GnssSatelliteId, GnssSystem};
use crate::instant::{floor_mod, split_time};
use crate::record::{transmission_sow, BroadcastRecord, GlonassRecord, NavMessage, SbasRecord};
use crate::stated_time::{
    beyond_rank, rank_beyond, stated_day, stated_quectos, time_of_day, wide_time, wide_total,
};
use crate::time::{
    day_of_j2000, leap_seconds_on, week_epoch_day, GnssWeekTow, Seconds, J2000_DAY,
    QUECTOS_PER_SECOND, SECONDS_PER_DAY, SECONDS_PER_WEEK,
};

verus! {

/// What the order of records goes by.
#[derive(Debug, Clone, Copy, PartialEq, Eq, Structural)]
pub struct SelectionKey {
    /// The place of a transmission time that is beyond all instants (see [`beyond_rank`]).
    pub beyond: i128,
    /// The transmission time.
    pub sent: ExactEpoch,
    /// The reference time.
    pub reference: ExactEpoch,
    /// The place of the satellite's system.
    pub system: u8,
    /// The satellite's number.
    pub prn: u8,
    /// Whether a Galileo record belongs to the F/NAV clock set.
    pub fnav: bool,
}

/// What a record repeats another by.
#[derive(Debug, Clone, Copy, PartialEq, Eq, Structural)]
pub struct Identity {
    /// The satellite.
    pub satellite: GnssSatelliteId,
    /// The reference time.
    pub reference: ExactEpoch,
    /// The issue of data.
    pub issue: Option<u32>,
    /// The message.
    pub message: Option<NavMessage>,
    /// Whether a Galileo record belongs to the F/NAV clock set.
    pub fnav: bool,
    /// The health of a GLONASS record.
    pub health: Option<Decimal>,
    /// The health flags of a GLONASS record.
    pub flags: Option<u32>,
}

/// Whether a key goes before another.
pub open spec fn precedes(a: SelectionKey, b: SelectionKey) -> bool {
    ||| a.beyond < b.beyond
    ||| a.beyond == b.beyond && {
        ||| a.sent.total() < b.sent.total()
        ||| a.sent.total() == b.sent.total() && {
            ||| a.reference.total() < b.reference.total()
            ||| a.reference.total() == b.reference.total() && {
                ||| a.system < b.system
                ||| a.system == b.system && {
                    ||| a.prn < b.prn
                    ||| a.prn == b.prn && !a.fnav && b.fnav
                }
            }
        }
    }
}

/// The instants of a key have a fraction below one second.
pub open spec fn key_wf(a: SelectionKey) -> bool {
    a.sent.quectos < QUECTOS_PER_SECOND && a.reference.quectos < QUECTOS_PER_SECOND
}

/// The order with the index `i` put after every index its key does not precede, counted from the
/// end.
pub open spec fn put_index(order: Seq<int>, keys: Seq<SelectionKey>, i: int) -> Seq<int>
    decreases order.len(),
{
    if order.len() == 0 || !precedes(keys[i], keys[order.last()]) {
        order.push(i)
    } else {
        put_index(order.drop_last(), keys, i).push(order.last())
    }
}

/// The indices of the first `n` keys in the order of the keys, equal keys in their own order.
pub open spec fn sorted_indices(keys: Seq<SelectionKey>, n: int) -> Seq<int>
    decreases n,
{
    if n <= 0 {
        Seq::empty()
    } else {
        put_index(sorted_indices(keys, n - 1), keys, n - 1)
    }
}

/// An order without the indices that repeat the one kept before them.
pub open spec fn distinct(order: Seq<int>, ids: Seq<Identity>) -> Seq<int>
    decreases order.len(),
{
    if order.len() == 0 {
        order
    } else {
        let before = distinct(order.drop_last(), ids);
        if before.len() > 0 && ids[before.last()] == ids[order.last()] {
            before
        } else {
            before.push(order.last())
        }
    }
}

/// The order records are considered in.
pub open spec fn selection_order(keys: Seq<SelectionKey>, ids: Seq<Identity>) -> Seq<int> {
    distinct(sorted_indices(keys, keys.len() as int), ids)
}

/// Whether indices stand in the order of their keys, equal keys in their own order.
pub open spec fn in_order(order: Seq<int>, keys: Seq<SelectionKey>) -> bool {
    forall|a: int, b: int|
        0 <= a < b < order.len() ==> precedes(keys[#[trigger] order[a]], keys[#[trigger] order[b]])
            || (!precedes(keys[order[b]], keys[order[a]]) && order[a] < order[b])
}

/// An index put in its place keeps the order.
proof fn lemma_put_index(order: Seq<int>, keys: Seq<SelectionKey>, i: int)
    requires
        in_order(order, keys),
        forall|a: int| 0 <= a < order.len() ==> 0 <= (#[trigger] order[a]) < i,
        0 <= i < keys.len(),
    ensures
        in_order(put_index(order, keys, i), keys),
        put_index(order, keys, i).len() == order.len() + 1,
        put_index(order, keys, i).to_multiset() == order.to_multiset().insert(i),
        forall|a: int|
            0 <= a < order.len() + 1 ==> 0 <= (#[trigger] put_index(order, keys, i)[a]) <= i,
    decreases order.len(),
{
    broadcast use vstd::seq_lib::group_to_multiset_ensures;

    let put = put_index(order, keys, i);
    if order.len() == 0 || !precedes(keys[i], keys[order.last()]) {
        assert forall|a: int, b: int| 0 <= a < b < put.len() implies precedes(
            keys[#[trigger] put[a]],
            keys[#[trigger] put[b]],
        ) || (!precedes(keys[put[b]], keys[put[a]]) && put[a] < put[b]) by {
            if b == order.len() {
                assert(put[b] == i);
                assert(put[a] == order[a]);
                let last = order.last();
                if a < order.len() - 1 {
                    assert(order[order.len() - 1] == last);
                    assert(precedes(keys[order[a]], keys[last]) || !precedes(
                        keys[last],
                        keys[order[a]],
                    ));
                }
            } else {
                assert(put[a] == order[a] && put[b] == order[b]);
            }
        }
    } else {
        let head = order.drop_last();
        let last = order.last();
        lemma_put_index(head, keys, i);
        let inner = put_index(head, keys, i);
        assert(order =~= head.push(last));
        assert(put =~= inner.push(last));
        assert forall|a: int, b: int| 0 <= a < b < put.len() implies precedes(
            keys[#[trigger] put[a]],
            keys[#[trigger] put[b]],
        ) || (!precedes(keys[put[b]], keys[put[a]]) && put[a] < put[b]) by {
            if b == inner.len() {
                assert(put[b] == last);
                assert(put[a] == inner[a]);
                assert(inner.to_multiset().contains(inner[a]));
                if inner[a] != i {
                    assert(head.to_multiset().contains(inner[a]));
                    let c = choose|c: int| 0 <= c < head.len() && head[c] == inner[a];
                    assert(order[c] == inner[a]);
                    assert(order[order.len() - 1] == last);
                }
            } else {
                assert(put[a] == inner[a] && put[b] == inner[b]);
            }
        }
        assert(head.to_multiset().insert(i).insert(last) =~= order.to_multiset().insert(i));
    }
}

/// The order of keys holds every index once, in the order of the keys, equal keys in their own
/// order.
pub proof fn law_sorted_indices(keys: Seq<SelectionKey>, n: int)
    requires
        0 <= n <= keys.len(),
    ensures
        in_order(sorted_indices(keys, n), keys),
        sorted_indices(keys, n).len() == n,
        sorted_indices(keys, n).no_duplicates(),
        forall|i: int| 0 <= i < n <==> #[trigger] sorted_indices(keys, n).contains(i),
    decreases n,
{
    broadcast use vstd::seq_lib::group_to_multiset_ensures;

    if n > 0 {
        law_sorted_indices(keys, n - 1);
        let before = sorted_indices(keys, n - 1);
        assert forall|a: int| 0 <= a < before.len() implies 0 <= #[trigger] before[a] < n - 1 by {
            assert(before.contains(before[a]));
        }
        lemma_put_index(before, keys, n - 1);
        let order = sorted_indices(keys, n);
        assert forall|i: int| 0 <= i < n <==> #[trigger] order.contains(i) by {
            assert(order.contains(i) <==> order.to_multiset().contains(i));
            assert(before.contains(i) <==> before.to_multiset().contains(i));
        }
        assert forall|a: int, b: int| 0 <= a < order.len() && 0 <= b < order.len() && a
            != b implies order[a] != order[b] by {
            let (x, y) = if a < b {
                (a, b)
            } else {
                (b, a)
            };
            assert(precedes(keys[order[x]], keys[order[y]]) || order[x] < order[y]);
        }
    }
}

/// The last record of an order is kept or repeats the last that is kept.
proof fn lemma_distinct_last(order: Seq<int>, ids: Seq<Identity>)
    requires
        order.len() > 0,
    ensures
        distinct(order, ids).len() > 0,
        ids[distinct(order, ids).last()] == ids[order.last()],
{
}

/// Every record of an order is kept or repeats one that is kept, the `r`th.
pub proof fn law_distinct_covers(order: Seq<int>, ids: Seq<Identity>, a: int) -> (r: int)
    requires
        0 <= a < order.len(),
    ensures
        0 <= r < distinct(order, ids).len(),
        ids[distinct(order, ids)[r]] == ids[order[a]],
    decreases order.len(),
{
    lemma_distinct_last(order, ids);
    if a == order.len() - 1 {
        distinct(order, ids).len() - 1
    } else {
        law_distinct_covers(order.drop_last(), ids, a)
    }
}

/// A record that is kept is one of the order, the `r`th.
pub proof fn law_distinct_within(order: Seq<int>, ids: Seq<Identity>, b: int) -> (r: int)
    requires
        0 <= b < distinct(order, ids).len(),
    ensures
        0 <= r < order.len(),
        order[r] == distinct(order, ids)[b],
    decreases order.len(),
{
    if b < distinct(order.drop_last(), ids).len() {
        law_distinct_within(order.drop_last(), ids, b)
    } else {
        order.len() - 1
    }
}

/// A record that is kept does not repeat the one kept before it.
pub proof fn law_distinct_differs(order: Seq<int>, ids: Seq<Identity>, b: int)
    requires
        0 < b < distinct(order, ids).len(),
    ensures
        ids[distinct(order, ids)[b - 1]] != ids[distinct(order, ids)[b]],
    decreases order.len(),
{
    if b < distinct(order.drop_last(), ids).len() {
        law_distinct_differs(order.drop_last(), ids, b);
    }
}

/// What positions in an order state.
pub open spec fn indices(order: Seq<usize>) -> Seq<int> {
    order.map_values(|i: usize| i as int)
}

/// Whether a key goes before another (see [`precedes`]).
fn is_before(a: &SelectionKey, b: &SelectionKey) -> (r: bool)
    requires
        key_wf(*a),
        key_wf(*b),
    ensures
        r == precedes(*a, *b),
{
    if a.beyond < b.beyond {
        return true;
    }
    if b.beyond < a.beyond {
        return false;
    }
    if a.sent.before(b.sent) {
        return true;
    }
    if b.sent.before(a.sent) {
        return false;
    }
    if a.reference.before(b.reference) {
        return true;
    }
    if b.reference.before(a.reference) {
        return false;
    }
    a.system < b.system || (a.system == b.system && (a.prn < b.prn || (a.prn == b.prn && !a.fnav
        && b.fnav)))
}

/// An index goes where the first index after it has a key it precedes.
proof fn lemma_put_at(order: Seq<int>, keys: Seq<SelectionKey>, i: int, at: int)
    requires
        0 <= at <= order.len(),
        at > 0 ==> !precedes(keys[i], keys[order[at - 1]]),
        forall|k: int| at <= k < order.len() ==> precedes(keys[i], keys[#[trigger] order[k]]),
    ensures
        put_index(order, keys, i) == order.insert(at, i),
    decreases order.len(),
{
    if at < order.len() {
        assert(precedes(keys[i], keys[order[order.len() - 1]]));
        lemma_put_at(order.drop_last(), keys, i, at);
        assert(order.drop_last().insert(at, i).push(order.last()) =~= order.insert(at, i));
    } else {
        assert(order.push(i) =~= order.insert(at, i));
        if order.len() > 0 {
            assert(order[at - 1] == order.last());
        }
    }
}

/// The indices of keys in the order of the keys (see [`sorted_indices`]).
fn sort_keys(keys: &Vec<SelectionKey>) -> (r: Vec<usize>)
    requires
        forall|k: int| 0 <= k < keys@.len() ==> key_wf(#[trigger] keys@[k]),
    ensures
        indices(r@) == sorted_indices(keys@, keys@.len() as int),
{
    let mut order: Vec<usize> = Vec::new();
    let mut i: usize = 0;
    assert(indices(order@) =~= sorted_indices(keys@, 0));
    while i < keys.len()
        invariant
            forall|k: int| 0 <= k < keys@.len() ==> key_wf(#[trigger] keys@[k]),
            i <= keys@.len(),
            order@.len() == i,
            forall|k: int| 0 <= k < order@.len() ==> (#[trigger] order@[k]) < i,
            indices(order@) == sorted_indices(keys@, i as int),
        decreases keys@.len() - i,
    {
        let ghost before = order@;
        let mut at: usize = order.len();
        while at > 0 && is_before(&keys[i], &keys[order[at - 1]])
            invariant
                forall|k: int| 0 <= k < keys@.len() ==> key_wf(#[trigger] keys@[k]),
                i < keys@.len(),
                order@ == before,
                at <= order@.len(),
                forall|k: int| 0 <= k < order@.len() ==> (#[trigger] order@[k]) < i,
                forall|k: int|
                    at <= k < order@.len() ==> precedes(
                        keys@[i as int],
                        keys@[(#[trigger] order@[k]) as int],
                    ),
            decreases at,
        {
            at = at - 1;
        }
        proof {
            let o = indices(before);
            assert forall|k: int| at <= k < o.len() implies precedes(
                keys@[i as int],
                keys@[#[trigger] o[k]],
            ) by {
                assert(o[k] == before[k]);
            }
            lemma_put_at(o, keys@, i as int, at as int);
        }
        order.insert(at, i);
        assert(indices(order@) =~= indices(before).insert(at as int, i as int));
        assert forall|k: int| 0 <= k < order@.len() implies (#[trigger] order@[k]) < i + 1 by {
            if k < at {
                assert(order@[k] == before[k]);
            } else if k > at {
                assert(order@[k] == before[k - 1]);
            }
        }
        i = i + 1;
    }
    order
}

/// An order without the indices that repeat the one kept before them (see [`distinct`]).
fn keep_distinct(order: &Vec<usize>, ids: &Vec<Identity>) -> (r: Vec<usize>)
    requires
        forall|k: int| 0 <= k < order@.len() ==> (#[trigger] order@[k]) < ids@.len(),
    ensures
        indices(r@) == distinct(indices(order@), ids@),
        forall|k: int| 0 <= k < r@.len() ==> (#[trigger] r@[k]) < ids@.len(),
{
    let ghost all = indices(order@);
    let mut kept: Vec<usize> = Vec::new();
    let mut i: usize = 0;
    assert(indices(kept@) =~= distinct(all.subrange(0, 0), ids@));
    while i < order.len()
        invariant
            all == indices(order@),
            forall|k: int| 0 <= k < order@.len() ==> (#[trigger] order@[k]) < ids@.len(),
            forall|k: int| 0 <= k < kept@.len() ==> (#[trigger] kept@[k]) < ids@.len(),
            i <= order@.len(),
            indices(kept@) == distinct(all.subrange(0, i as int), ids@),
        decreases order@.len() - i,
    {
        proof {
            assert(all.subrange(0, i + 1).drop_last() =~= all.subrange(0, i as int));
            assert(all.subrange(0, i + 1).last() == order@[i as int]);
        }
        let index: usize = order[i];
        let n: usize = kept.len();
        let ghost before = kept@;
        if n > 0 {
            assert(indices(before).last() == before[n - 1]);
        }
        if n == 0 || ids[kept[n - 1]] != ids[index] {
            kept.push(index);
            assert(indices(kept@) =~= indices(before).push(index as int));
        }
        i = i + 1;
    }
    assert(all.subrange(0, i as int) =~= all);
    kept
}

/// The order records are considered in (see [`selection_order`]).
fn order_of(keys: &Vec<SelectionKey>, ids: &Vec<Identity>) -> (r: Vec<usize>)
    requires
        keys@.len() == ids@.len(),
        forall|k: int| 0 <= k < keys@.len() ==> key_wf(#[trigger] keys@[k]),
    ensures
        indices(r@) == selection_order(keys@, ids@),
        forall|k: int| 0 <= k < r@.len() ==> (#[trigger] r@[k]) < keys@.len(),
{
    let order = sort_keys(keys);
    proof {
        law_sorted_indices(keys@, keys@.len() as int);
        assert forall|k: int| 0 <= k < order@.len() implies (#[trigger] order@[k]) < ids@.len() by {
            assert(indices(order@)[k] == order@[k]);
            assert(sorted_indices(keys@, keys@.len() as int).contains(indices(order@)[k]));
        }
    }
    keep_distinct(&order, ids)
}

/// The instant `total` 10^-30 s past J2000 noon.
pub open spec fn epoch_at(total: int) -> ExactEpoch {
    ExactEpoch {
        whole: (total / (QUECTOS_PER_SECOND as int)) as i128,
        quectos: (total % (QUECTOS_PER_SECOND as int)) as u128,
    }
}

/// An instant with a fraction below one second is that of its total.
proof fn lemma_epoch_at(e: ExactEpoch)
    requires
        e.quectos < QUECTOS_PER_SECOND,
    ensures
        e == epoch_at(e.total()),
{
    vstd::arithmetic::div_mod::lemma_fundamental_div_mod_converse(
        e.total(),
        QUECTOS_PER_SECOND as int,
        e.whole as int,
        e.quectos as int,
    );
}

/// A time moved by `period` to lie within `half` of a reference.
pub open spec fn brought_near(t: int, reference: int, half: int, period: int) -> int {
    if t < reference - half {
        t + period
    } else if t > reference + half {
        t - period
    } else {
        t
    }
}

/// A time moved by `2 * half` seconds to lie within `half` seconds of a reference (see
/// [`brought_near`]).
fn bring_near(t: ExactEpoch, reference: ExactEpoch, half: i128) -> (r: ExactEpoch)
    requires
        t.quectos < QUECTOS_PER_SECOND,
        -20000000000000000000000000000000000000 <= t.whole
            <= 20000000000000000000000000000000000000,
        reference.quectos < QUECTOS_PER_SECOND,
        -200000000000000000000 <= reference.whole <= 200000000000000000000,
        0 <= half <= 1000000,
    ensures
        r.total() == brought_near(
            t.total(),
            reference.total(),
            half * QUECTOS_PER_SECOND,
            2 * half * QUECTOS_PER_SECOND,
        ),
        r.quectos < QUECTOS_PER_SECOND,
        t.whole - 2 * half <= r.whole <= t.whole + 2 * half,
{
    proof {
        assert((2 * half) * QUECTOS_PER_SECOND == 2 * half * QUECTOS_PER_SECOND) by (nonlinear_arith);
        assert((-half) * QUECTOS_PER_SECOND == -(half * QUECTOS_PER_SECOND)) by (nonlinear_arith);
        assert((-2 * half) * QUECTOS_PER_SECOND == -(2 * half * QUECTOS_PER_SECOND))
            by (nonlinear_arith);
    }
    if t.before(reference.moved(-half)) {
        t.moved(2 * half)
    } else if reference.moved(half).before(t) {
        t.moved(-2 * half)
    } else {
        t
    }
}

/// Half a week in 10^-30 s.
pub open spec fn half_week_quectos() -> int {
    302400 * QUECTOS_PER_SECOND
}

/// A Keplerian record's transmission time: the stated transmission time of message (0 when blank)
/// in the stated week, moved to within half a week of `toc`, in 10^-30 s of the record's scale.
pub open spec fn transmission_total(record: BroadcastRecord) -> int {
    brought_near(
        native_total(
            GnssWeekTow {
                system: record.toc.system,
                week: record.week,
                tow_s: Seconds { whole: 0, quectos: 0 },
            },
        ) + wide_total(transmission_sow(record)),
        native_total(record.toc),
        half_week_quectos(),
        2 * half_week_quectos(),
    )
}

/// The start of a week is a whole second.
proof fn lemma_week_start(week: ExactEpoch)
    requires
        week.wf(),
        week.total() % (QUECTOS_PER_SECOND as int) == 0,
    ensures
        week.quectos == 0,
        week.total() == week.whole * QUECTOS_PER_SECOND,
{
    lemma_epoch_at(week);
}

/// A Keplerian record's transmission time (see [`transmission_total`]).
fn transmission_key(record: &BroadcastRecord) -> (r: ExactEpoch)
    ensures
        r == epoch_at(transmission_total(*record)),
        r.quectos < QUECTOS_PER_SECOND,
{
    let toc = exact_week_tow_epoch(record.toc);
    let week = exact_week_tow_epoch(
        GnssWeekTow {
            system: record.toc.system,
            week: record.week,
            tow_s: Seconds { whole: 0, quectos: 0 },
        },
    );
    proof {
        let q = QUECTOS_PER_SECOND as int;
        let start = record.week * SECONDS_PER_WEEK + (week_epoch_day(record.toc.system) - J2000_DAY)
            * SECONDS_PER_DAY - 43200;
        lemma_fundamental_div_mod_converse(start * q, q, start, 0);
        lemma_week_start(week);
    }
    let ttr = wide_time(record.transmission_time_sow()).moved(week.whole);
    let r = bring_near(ttr, toc, 302400);
    proof {
        lemma_epoch_at(r);
    }
    r
}

/// Whether a Galileo record belongs to the F/NAV clock set (bit 8 or bit 1 of its data sources),
/// which is kept apart from the I/NAV set.
pub open spec fn in_fnav_set(record: BroadcastRecord) -> bool {
    match crate::record::data_sources(record) {
        Some(word) => word & 258 != 0,
        None => record.message == NavMessage::GalileoFnav,
    }
}

/// Whether a Galileo record belongs to the F/NAV clock set (see [`in_fnav_set`]).
fn galileo_fnav_set(record: &BroadcastRecord) -> (r: bool)
    ensures
        r == in_fnav_set(*record),
{
    match record.galileo_data_sources() {
        Some(word) => word & 258 != 0,
        None => record.message == NavMessage::GalileoFnav,
    }
}

/// The place of a system in the order of satellites.
pub open spec fn system_rank(system: GnssSystem) -> u8 {
    match system {
        GnssSystem::Gps => 0,
        GnssSystem::Glonass => 1,
        GnssSystem::Galileo => 2,
        GnssSystem::BeiDou => 3,
        GnssSystem::Qzss => 4,
        GnssSystem::Navic => 5,
        GnssSystem::Sbas => 6,
    }
}

/// The place of a system in the order of satellites.
fn rank_of_system(system: GnssSystem) -> (r: u8)
    ensures
        r == system_rank(system),
{
    match system {
        GnssSystem::Gps => 0,
        GnssSystem::Glonass => 1,
        GnssSystem::Galileo => 2,
        GnssSystem::BeiDou => 3,
        GnssSystem::Qzss => 4,
        GnssSystem::Navic => 5,
        GnssSystem::Sbas => 6,
    }
}

/// The key of a Keplerian record.
pub open spec fn keplerian_key(record: BroadcastRecord) -> SelectionKey {
    SelectionKey {
        beyond: beyond_rank(transmission_sow(record)) as i128,
        sent: epoch_at(transmission_total(record)),
        reference: epoch_at(toe_total(record)),
        system: system_rank(record.satellite_id.system),
        prn: record.satellite_id.prn,
        fnav: in_fnav_set(record),
    }
}

/// What a Keplerian record repeats another by: its satellite, `toe`, issue and message, and for
/// Galileo the clock set.
pub open spec fn keplerian_identity(record: BroadcastRecord) -> Identity {
    Identity {
        satellite: record.satellite_id,
        reference: epoch_at(toe_total(record)),
        issue: match record.issue_of_data {
            Some(issue) => Some(issue.issue),
            None => None,
        },
        message: Some(record.message),
        fnav: record.satellite_id.system == GnssSystem::Galileo && in_fnav_set(record),
        health: None,
        flags: None,
    }
}

/// The keys of Keplerian records.
pub open spec fn keplerian_keys(records: Seq<BroadcastRecord>) -> Seq<SelectionKey> {
    records.map_values(|r: BroadcastRecord| keplerian_key(r))
}

/// What Keplerian records repeat each other by.
pub open spec fn keplerian_identities(records: Seq<BroadcastRecord>) -> Seq<Identity> {
    records.map_values(|r: BroadcastRecord| keplerian_identity(r))
}

/// The order Keplerian records are considered in.
pub open spec fn keplerian_order(records: Seq<BroadcastRecord>) -> Seq<int> {
    selection_order(keplerian_keys(records), keplerian_identities(records))
}

/// A week and time of week is that of its epoch.
proof fn lemma_native_epoch(w: GnssWeekTow)
    ensures
        epoch_at(native_total(w)).total() == native_total(w),
{
    let q = QUECTOS_PER_SECOND as int;
    let t = native_total(w);
    let start = w.week * SECONDS_PER_WEEK + (week_epoch_day(w.system) - J2000_DAY) * SECONDS_PER_DAY
        - 43200;
    assert(t == (start + w.tow_s.whole) * q + w.tow_s.quectos) by (nonlinear_arith)
        requires
            t == start * q + (w.tow_s.whole * q + w.tow_s.quectos),
    ;
    lemma_fundamental_div_mod(t, q);
    let k = t / q;
    assert(q * k == k * q) by (nonlinear_arith);
    let n = start + w.tow_s.whole;
    let bound = 10000000000000000000000int;
    assert(-bound <= n <= bound);
    assert(w.tow_s.quectos < 1000000000 * q);
    assert(-(bound * q) <= n * q <= bound * q) by (nonlinear_arith)
        requires
            -bound <= n <= bound,
            q > 0,
    ;
    assert(k < bound + 1000000000 + 1) by (nonlinear_arith)
        requires
            k * q <= bound * q + 1000000000 * q,
            q > 0,
    ;
    assert(k > -bound - 2) by (nonlinear_arith)
        requires
            k * q + q > -(bound * q) - 1,
            q > 1,
    ;
}

/// The order records are considered in is one of records.
pub proof fn law_order_within(records: Seq<BroadcastRecord>, r: int)
    requires
        0 <= r < keplerian_order(records).len(),
    ensures
        0 <= keplerian_order(records)[r] < records.len(),
{
    let keys = keplerian_keys(records);
    let n = keys.len() as int;
    law_sorted_indices(keys, n);
    let sorted = sorted_indices(keys, n);
    let b = law_distinct_within(sorted, keplerian_identities(records), r);
    assert(sorted.contains(sorted[b]));
}

/// Every record is represented in the order records are considered in: by a record of the same
/// satellite, message and reference time, the `r`th of the order.
pub proof fn law_order_represents(records: Seq<BroadcastRecord>, k: int) -> (r: int)
    requires
        0 <= k < records.len(),
    ensures
        ({
            let order = keplerian_order(records);
            &&& 0 <= r < order.len()
            &&& 0 <= order[r] < records.len()
            &&& records[order[r]].satellite_id == records[k].satellite_id
            &&& records[order[r]].message == records[k].message
            &&& toe_total(records[order[r]]) == toe_total(records[k])
        }),
{
    let keys = keplerian_keys(records);
    let ids = keplerian_identities(records);
    let n = keys.len() as int;
    law_sorted_indices(keys, n);
    let sorted = sorted_indices(keys, n);
    assert(sorted.contains(k));
    let a = choose|a: int| 0 <= a < sorted.len() && sorted[a] == k;
    let r = law_distinct_covers(sorted, ids, a);
    let b = law_distinct_within(sorted, ids, r);
    let m = distinct(sorted, ids)[r];
    assert(sorted.contains(sorted[b]));
    assert(ids[m] == keplerian_identity(records[m]));
    assert(ids[k] == keplerian_identity(records[k]));
    lemma_native_epoch(records[m].toe);
    lemma_native_epoch(records[k].toe);
    r
}

/// The order Keplerian records are considered in (see [`keplerian_order`]).
pub fn keplerian_selection_order(records: &Vec<BroadcastRecord>) -> (r: Vec<usize>)
    ensures
        indices(r@) == keplerian_order(records@),
        forall|k: int| 0 <= k < r@.len() ==> (#[trigger] r@[k]) < records@.len(),
{
    let mut keys: Vec<SelectionKey> = Vec::new();
    let mut ids: Vec<Identity> = Vec::new();
    let mut i: usize = 0;
    while i < records.len()
        invariant
            i <= records@.len(),
            keys@.len() == i,
            ids@.len() == i,
            forall|k: int| 0 <= k < i ==> #[trigger] keys@[k] == keplerian_key(records@[k]),
            forall|k: int| 0 <= k < i ==> key_wf(#[trigger] keys@[k]),
            forall|k: int| 0 <= k < i ==> #[trigger] ids@[k] == keplerian_identity(records@[k]),
        decreases records@.len() - i,
    {
        let record = &records[i];
        let sent = transmission_key(record);
        let reference = exact_week_tow_epoch(record.toe);
        proof {
            lemma_epoch_at(reference);
        }
        let fnav: bool = galileo_fnav_set(record);
        keys.push(
            SelectionKey {
                beyond: rank_beyond(record.transmission_time_sow()),
                sent,
                reference,
                system: rank_of_system(record.satellite_id.system),
                prn: record.satellite_id.prn,
                fnav,
            },
        );
        ids.push(
            Identity {
                satellite: record.satellite_id,
                reference,
                issue: match record.issue_of_data {
                    Some(issue) => Some(issue.issue),
                    None => None,
                },
                message: Some(record.message),
                fnav: record.satellite_id.system == GnssSystem::Galileo && fnav,
                health: None,
                flags: None,
            },
        );
        i = i + 1;
    }
    assert(keys@ =~= keplerian_keys(records@));
    assert(ids@ =~= keplerian_identities(records@));
    order_of(&keys, &ids)
}

/// A GLONASS record's frame time in 10^-30 s of GPS time: the stated message frame time within its
/// UTC day (0 when blank) on the day of the stated epoch, moved to within half a day of `tb`.
pub open spec fn glonass_frame_total(record: GlonassRecord) -> int {
    let q = QUECTOS_PER_SECOND as int;
    let epoch = record.epoch_utc_j2000_s.total() / q;
    let day_start = epoch - (epoch + 43200) % (SECONDS_PER_DAY as int);
    let frame = brought_near(
        day_start * q + time_of_day(stated_quectos(record.message_frame_time_s)),
        record.toe_utc_j2000_s * q,
        43200 * q,
        86400 * q,
    );
    frame + leap_seconds_on(day_of_j2000(frame / q)) * q
}

/// A GLONASS record's frame time (see [`glonass_frame_total`]).
fn glonass_frame_key(record: &GlonassRecord) -> (r: ExactEpoch)
    ensures
        r == epoch_at(glonass_frame_total(*record)),
        r.quectos < QUECTOS_PER_SECOND,
{
    let (epoch, _) = split_time(record.epoch_utc_j2000_s);
    let day_start: i128 = epoch - floor_mod(epoch + 43200, SECONDS_PER_DAY as i128);
    let tod = stated_day(record.message_frame_time_s);
    let toe = ExactEpoch { whole: record.toe_utc_j2000_s as i128, quectos: 0 };
    let frame = bring_near(tod.moved(day_start), toe, 43200);
    let r = frame.moved(leap_seconds_at(frame.whole) as i128);
    proof {
        lemma_epoch_at(frame);
        lemma_epoch_at(r);
        assert(frame.whole == frame.total() / (QUECTOS_PER_SECOND as int));
    }
    r
}

/// The key of a GLONASS record.
pub open spec fn glonass_key(record: GlonassRecord) -> SelectionKey {
    SelectionKey {
        beyond: 0,
        sent: epoch_at(glonass_frame_total(record)),
        reference: glonass_reference(record),
        system: system_rank(record.satellite_id.system),
        prn: record.satellite_id.prn,
        fnav: false,
    }
}

/// A GLONASS record's reference time in GPS time.
pub open spec fn glonass_reference(record: GlonassRecord) -> ExactEpoch {
    ExactEpoch { whole: glonass_gpst(record.toe_utc_j2000_s as int) as i128, quectos: 0 }
}

/// What a GLONASS record repeats another by: its satellite, reference epoch and health.
pub open spec fn glonass_identity(record: GlonassRecord) -> Identity {
    Identity {
        satellite: record.satellite_id,
        reference: glonass_reference(record),
        issue: None,
        message: None,
        fnav: false,
        health: Some(record.sv_health),
        flags: flags_word(record.health_flags),
    }
}

/// The order GLONASS records are considered in.
pub open spec fn glonass_order(records: Seq<GlonassRecord>) -> Seq<int> {
    selection_order(
        records.map_values(|r: GlonassRecord| glonass_key(r)),
        records.map_values(|r: GlonassRecord| glonass_identity(r)),
    )
}

/// The order GLONASS records are considered in (see [`glonass_order`]).
pub fn glonass_selection_order(records: &Vec<GlonassRecord>) -> (r: Vec<usize>)
    ensures
        indices(r@) == glonass_order(records@),
        forall|k: int| 0 <= k < r@.len() ==> (#[trigger] r@[k]) < records@.len(),
{
    let mut keys: Vec<SelectionKey> = Vec::new();
    let mut ids: Vec<Identity> = Vec::new();
    let mut i: usize = 0;
    while i < records.len()
        invariant
            i <= records@.len(),
            keys@.len() == i,
            ids@.len() == i,
            forall|k: int| 0 <= k < i ==> #[trigger] keys@[k] == glonass_key(records@[k]),
            forall|k: int| 0 <= k < i ==> key_wf(#[trigger] keys@[k]),
            forall|k: int| 0 <= k < i ==> #[trigger] ids@[k] == glonass_identity(records@[k]),
        decreases records@.len() - i,
    {
        let record = &records[i];
        let sent = glonass_frame_key(record);
        let reference = record.toe_gpst_j2000_s();
        keys.push(
            SelectionKey {
                beyond: 0,
                sent,
                reference,
                system: rank_of_system(record.satellite_id.system),
                prn: record.satellite_id.prn,
                fnav: false,
            },
        );
        ids.push(
            Identity {
                satellite: record.satellite_id,
                reference,
                issue: None,
                message: None,
                fnav: false,
                health: Some(record.sv_health),
                flags: record.health_flags_word(),
            },
        );
        i = i + 1;
    }
    assert(keys@ =~= records@.map_values(|r: GlonassRecord| glonass_key(r)));
    assert(ids@ =~= records@.map_values(|r: GlonassRecord| glonass_identity(r)));
    order_of(&keys, &ids)
}

/// An SBAS record's frame time in 10^-30 s: the stated transmission time (0 when blank) in the GPS
/// week of `t0`, moved to within half a week of `t0`.
pub open spec fn sbas_frame_total(record: SbasRecord) -> int {
    let q = QUECTOS_PER_SECOND as int;
    let t0 = record.epoch.j2000().total();
    let week_start = t0 / q - (t0 / q + J2000_GPS_SECONDS_OF_WEEK) % (SECONDS_PER_WEEK as int);
    brought_near(
        week_start * q + wide_total(record.message_frame_time_s),
        t0,
        half_week_quectos(),
        2 * half_week_quectos(),
    )
}

/// An SBAS record's frame time (see [`sbas_frame_total`]).
fn sbas_frame_key(record: &SbasRecord) -> (r: ExactEpoch)
    ensures
        r == epoch_at(sbas_frame_total(*record)),
        r.quectos < QUECTOS_PER_SECOND,
{
    let t0 = record.t0_j2000_s();
    proof {
        lemma_epoch_at(t0);
    }
    let week_start: i128 = t0.whole - floor_mod(
        t0.whole + J2000_GPS_SECONDS_OF_WEEK as i128,
        SECONDS_PER_WEEK as i128,
    );
    let stated = wide_time(record.message_frame_time_s);
    let r = bring_near(stated.moved(week_start), t0, 302400);
    proof {
        lemma_epoch_at(r);
    }
    r
}

/// The key of an SBAS record.
pub open spec fn sbas_key(record: SbasRecord) -> SelectionKey {
    SelectionKey {
        beyond: beyond_rank(record.message_frame_time_s) as i128,
        sent: epoch_at(sbas_frame_total(record)),
        reference: epoch_at(record.epoch.j2000().total()),
        system: system_rank(record.satellite_id.system),
        prn: record.satellite_id.prn,
        fnav: false,
    }
}

/// What an SBAS record repeats another by: its satellite and `t0`.
pub open spec fn sbas_identity(record: SbasRecord) -> Identity {
    Identity {
        satellite: record.satellite_id,
        reference: epoch_at(record.epoch.j2000().total()),
        issue: None,
        message: None,
        fnav: false,
        health: None,
        flags: None,
    }
}

/// The order SBAS records are considered in.
pub open spec fn sbas_order(records: Seq<SbasRecord>) -> Seq<int> {
    selection_order(
        records.map_values(|r: SbasRecord| sbas_key(r)),
        records.map_values(|r: SbasRecord| sbas_identity(r)),
    )
}

/// The order SBAS records are considered in (see [`sbas_order`]).
pub fn sbas_selection_order(records: &Vec<SbasRecord>) -> (r: Vec<usize>)
    ensures
        indices(r@) == sbas_order(records@),
        forall|k: int| 0 <= k < r@.len() ==> (#[trigger] r@[k]) < records@.len(),
{
    let mut keys: Vec<SelectionKey> = Vec::new();
    let mut ids: Vec<Identity> = Vec::new();
    let mut i: usize = 0;
    while i < records.len()
        invariant
            i <= records@.len(),
            keys@.len() == i,
            ids@.len() == i,
            forall|k: int| 0 <= k < i ==> #[trigger] keys@[k] == sbas_key(records@[k]),
            forall|k: int| 0 <= k < i ==> key_wf(#[trigger] keys@[k]),
            forall|k: int| 0 <= k < i ==> #[trigger] ids@[k] == sbas_identity(records@[k]),
        decreases records@.len() - i,
    {
        let record = &records[i];
        let sent = sbas_frame_key(record);
        let reference = record.t0_j2000_s();
        proof {
            lemma_epoch_at(reference);
        }
        keys.push(
            SelectionKey {
                beyond: rank_beyond(record.message_frame_time_s),
                sent,
                reference,
                system: rank_of_system(record.satellite_id.system),
                prn: record.satellite_id.prn,
                fnav: false,
            },
        );
        ids.push(
            Identity {
                satellite: record.satellite_id,
                reference,
                issue: None,
                message: None,
                fnav: false,
                health: None,
                flags: None,
            },
        );
        i = i + 1;
    }
    assert(keys@ =~= records@.map_values(|r: SbasRecord| sbas_key(r)));
    assert(ids@ =~= records@.map_values(|r: SbasRecord| sbas_identity(r)));
    order_of(&keys, &ids)
}

} // verus!

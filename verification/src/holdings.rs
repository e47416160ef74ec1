//! What a file and a store hold: which blocks give records, and which record stands first.

use vstd::prelude::*;

use crate::accuracy::law_variance;
use crate::body::{Content, Entry, Reason};
use crate::decimal::{lemma_pow10_values, number, pow10, strip_zeros, zero};
use crate::error::{fault_text, Fault, OtherNavBlockKind};
use crate::file::{
    content_satellite, diagnostics_of, entry_diagnostics, entry_fault, entry_other, entry_skipped,
    first_fault, glonass_diagnostics, glonass_diagnostics_of, glonass_entry, glonass_invalid,
    glonass_invalid_of, glonass_of, glonass_records_of, glonass_records_part, glonass_slots,
    glonass_slots_of, ion_of, keplerian_diagnostics, keplerian_diagnostics_of, keplerian_of,
    others_of, sbas_of, skipped_of, Diagnostic, File, Skipped, Slot, StrictScope,
};
use crate::health::{glonass_healthy, sisa_deviation, ura_deviation, variance};
use crate::id::{GnssSatelliteId, GnssSystem};
use crate::order::keplerian_order;
use crate::positions::lemma_integer_word;
use crate::queries::{law_selected_age, modern};
use crate::record::{BroadcastRecord, GlonassRecord, GroupDelay, NavMessage};
use crate::store::{
    candidate, channels, default_records, delay_at, kept_records, law_nearest, manual_fault,
    nearest, selected, selected_glonass, selected_sbas, store_of, toe_distance, variance_at, Store,
};
use crate::text::{blank, utf8};

verus! {

/// The record of a block, as a sequence of one or none.
pub open spec fn block_record(e: Entry) -> Seq<BroadcastRecord> {
    if let Content::Ephemeris(r) = e.block.content {
        seq![r]
    } else {
        Seq::empty()
    }
}

/// A file's records are those of its blocks, each in its kind, in the order of the blocks: no block
/// adds none, and one block more adds its own record at the end.
pub proof fn law_file_records(before: Seq<Entry>, e: Entry)
    ensures
        ({
            let all = before.push(e);
            let none = Seq::<Entry>::empty();
            &&& keplerian_of(none).len() == 0 && glonass_of(none).len() == 0 && sbas_of(none).len()
                == 0 && ion_of(none).len() == 0
            &&& keplerian_of(all) == keplerian_of(before) + block_record(e)
            &&& glonass_of(all) == (if let Content::Glonass(r) = e.block.content {
                glonass_of(before).push(r)
            } else {
                glonass_of(before)
            })
            &&& sbas_of(all) == (if let Content::Sbas(r) = e.block.content {
                sbas_of(before).push(r)
            } else {
                sbas_of(before)
            })
            &&& ion_of(all) == (if let Content::Ion(f) = e.block.content {
                ion_of(before).push(f)
            } else {
                ion_of(before)
            })
        }),
{
    let all = before.push(e);
    assert(all.drop_last() =~= before);
    assert(all.last() == e);
}

/// A block that cannot be read is listed with its satellite, its line and the text of what is wrong,
/// and one that is not decoded, or holds no Keplerian record, among the others; a block that is read
/// is not listed as skipped.
pub proof fn law_skipped_blocks(before: Seq<Entry>, e: Entry)
    ensures
        ({
            let all = before.push(e);
            &&& skipped_of(Seq::empty()).len() == 0 && others_of(Seq::empty()).len() == 0
            &&& match e.block.content {
                Content::Kept(sat, _, Reason::Malformed(fault)) => skipped_of(all) == skipped_of(
                    before,
                ).push(Skipped { satellite: sat, message: fault_text(fault), line: e.line }),
                Content::Kept(_, _, Reason::Stray) => (skipped_of(all).len() == skipped_of(
                    before,
                ).len() + 1) == (exists|i: int|
                    0 <= i < e.text.len() && !blank(#[trigger] e.text[i])),
                _ => skipped_of(all) == skipped_of(before),
            }
            &&& match e.block.content {
                Content::Ephemeris(_) => others_of(all) == others_of(before),
                Content::Kept(_, _, Reason::Malformed(_)) => others_of(all) == others_of(before),
                Content::Kept(_, _, Reason::Stray) => others_of(all) == others_of(before),
                _ => others_of(all).len() == others_of(before).len() + 1 && others_of(
                    all,
                ).last().line == e.line && (match others_of(all).last().kind {
                    OtherNavBlockKind::Glonass => e.block.content is Glonass,
                    OtherNavBlockKind::Sbas => e.block.content is Sbas,
                    OtherNavBlockKind::SystemTimeOffset => e.block.content is Offset,
                    OtherNavBlockKind::EarthOrientation => e.block.content is Orientation,
                    OtherNavBlockKind::Ionosphere => e.block.content is Ion,
                    OtherNavBlockKind::NotDecoded => e.block.content is Kept,
                }),
            }
        }),
{
    let all = before.push(e);
    assert(all.drop_last() =~= before);
    assert(all.last() == e);
    assert(skipped_of(all) == skipped_of(before) + entry_skipped(e));
    assert(others_of(all) == others_of(before) + entry_other(e));
    if entry_skipped(e).len() == 0 {
        assert(skipped_of(all) =~= skipped_of(before));
    }
    if entry_other(e).len() == 0 {
        assert(others_of(all) =~= others_of(before));
    }
    if let Content::Kept(sat, _, Reason::Malformed(fault)) = e.block.content {
        assert(skipped_of(all) =~= skipped_of(before).push(
            Skipped { satellite: sat, message: fault_text(fault), line: e.line },
        ));
    }
}

/// Each departure of a block is listed with the line and satellite of the block, in order; those of
/// Keplerian and of GLONASS records are listed for their own readers.
pub proof fn law_departures_listed(before: Seq<Entry>, e: Entry)
    ensures
        ({
            let all = before.push(e);
            let own = Seq::new(
                e.block.departures.len(),
                |i: int|
                    Diagnostic {
                        line: e.line,
                        satellite: content_satellite(e.block.content),
                        fault: e.block.departures[i],
                    },
            );
            &&& diagnostics_of(Seq::empty()).len() == 0
            &&& diagnostics_of(all) == diagnostics_of(before) + own
            &&& keplerian_diagnostics_of(Seq::empty()).len() == 0
            &&& keplerian_diagnostics_of(all) == (if e.block.content is Ephemeris {
                keplerian_diagnostics_of(before) + own
            } else {
                keplerian_diagnostics_of(before)
            })
            &&& glonass_diagnostics_of(Seq::empty()).len() == 0
            &&& glonass_diagnostics_of(all) == (if e.block.content is Glonass && e.block.kind
                is Ephemeris && e.block.system == Some(GnssSystem::Glonass) {
                glonass_diagnostics_of(before) + own
            } else {
                glonass_diagnostics_of(before)
            })
        }),
{
    let all = before.push(e);
    assert(all.drop_last() =~= before);
    assert(all.last() == e);
    let own = Seq::new(
        e.block.departures.len(),
        |i: int|
            Diagnostic {
                line: e.line,
                satellite: content_satellite(e.block.content),
                fault: e.block.departures[i],
            },
    );
    assert(entry_diagnostics(e) =~= own);
    assert(diagnostics_of(all) == diagnostics_of(before) + entry_diagnostics(e));
    assert(keplerian_diagnostics_of(all) == keplerian_diagnostics_of(before)
        + keplerian_diagnostics(e));
    assert(glonass_diagnostics_of(all) == glonass_diagnostics_of(before) + glonass_diagnostics(e));
    if !(e.block.content is Ephemeris) {
        assert(keplerian_diagnostics_of(all) =~= keplerian_diagnostics_of(before));
    }
    if glonass_diagnostics(e).len() == 0 {
        assert(glonass_diagnostics_of(all) =~= glonass_diagnostics_of(before));
        if e.block.content is Glonass && glonass_entry(e) {
            assert(glonass_diagnostics_of(before) + own =~= glonass_diagnostics_of(before));
        }
    }
}

/// A GLONASS block that cannot be read is listed as a slot that cannot be represented where its
/// number is what is wrong, and else as invalid.
pub proof fn law_glonass_left_out(before: Seq<Entry>, e: Entry)
    ensures
        ({
            let all = before.push(e);
            let of_glonass = e.block.kind is Ephemeris && e.block.system == Some(GnssSystem::Glonass);
            let number = |fault: Fault|
                fault matches Fault::BadField(_, field) && field == utf8("prn"@);
            &&& glonass_slots_of(Seq::empty()).len() == 0 && glonass_invalid_of(Seq::empty()).len()
                == 0 && glonass_records_of(Seq::empty()).len() == 0
            &&& match e.block.content {
                Content::Kept(sat, _, Reason::Malformed(fault)) => {
                    &&& glonass_slots_of(all) == (if of_glonass && number(fault) {
                        glonass_slots_of(before).push(Slot { token: sat, line: e.line })
                    } else {
                        glonass_slots_of(before)
                    })
                    &&& glonass_invalid_of(all) == (if of_glonass && !number(fault) {
                        glonass_invalid_of(before).push(
                            Skipped { satellite: sat, message: fault_text(fault), line: e.line },
                        )
                    } else {
                        glonass_invalid_of(before)
                    })
                },
                _ => glonass_slots_of(all) == glonass_slots_of(before) && glonass_invalid_of(all)
                    == glonass_invalid_of(before),
            }
            &&& glonass_records_of(all) == (if let Content::Glonass(r) = e.block.content {
                if of_glonass {
                    glonass_records_of(before).push(r)
                } else {
                    glonass_records_of(before)
                }
            } else {
                glonass_records_of(before)
            })
        }),
{
    let all = before.push(e);
    assert(all.drop_last() =~= before);
    assert(all.last() == e);
    assert(glonass_slots_of(all) == glonass_slots_of(before) + glonass_slots(e));
    assert(glonass_invalid_of(all) == glonass_invalid_of(before) + glonass_invalid(e));
    assert(glonass_records_of(all) == glonass_records_of(before) + glonass_records_part(e));
    if glonass_slots(e).len() == 0 {
        assert(glonass_slots_of(all) =~= glonass_slots_of(before));
    }
    if glonass_invalid(e).len() == 0 {
        assert(glonass_invalid_of(all) =~= glonass_invalid_of(before));
    }
    if glonass_records_part(e).len() == 0 {
        assert(glonass_records_of(all) =~= glonass_records_of(before));
    }
}

/// A store read from a file holds every record of the file but those of Galileo F/NAV, in order, with
/// the header's ionosphere coefficients; it prefers the legacy messages and leaves unusable records
/// out.
pub proof fn law_store_holds(file: File, before: Seq<BroadcastRecord>, record: BroadcastRecord)
    ensures
        ({
            let store = store_of(file);
            &&& store.records == default_records(keplerian_of(file.entries))
            &&& store.glonass == glonass_of(file.entries)
            &&& store.sbas == sbas_of(file.entries)
            &&& store.iono == file.header.iono
            &&& store.preference is PreferLegacy
            &&& store.exclude
            &&& default_records(Seq::empty()).len() == 0
            &&& default_records(before.push(record)) == (if record.message is GalileoFnav {
                default_records(before)
            } else {
                default_records(before).push(record)
            })
        }),
{
    assert(before.push(record).drop_last() =~= before);
}

/// The first problem that reading strictly reports is of the first block that has one: a block of the
/// scope that cannot be read or departs from the format, or text that belongs to no block.
pub proof fn law_first_problem(entries: Seq<Entry>, scope: StrictScope, k: int)
    requires
        0 <= k < entries.len(),
        forall|i: int| 0 <= i < k ==> entry_fault(#[trigger] entries[i], scope) is None,
        entry_fault(entries[k], scope) is Some,
    ensures
        first_fault(entries, scope) == entry_fault(entries[k], scope),
    decreases k,
{
    if k > 0 {
        let rest = entries.drop_first();
        assert(entry_fault(entries[0], scope) is None);
        assert forall|i: int| 0 <= i < k - 1 implies entry_fault(#[trigger] rest[i], scope) is None by {
            assert(rest[i] == entries[i + 1]);
        }
        assert(rest[k - 1] == entries[k]);
        law_first_problem(rest, scope, k - 1);
    }
}

/// What counts as a problem of a block: for a navigation record of a system in the scope, that it
/// could not be read, which a GLONASS number out of range is excused from, or else its first
/// departure.
pub proof fn law_block_problem(e: Entry, scope: StrictScope)
    requires
        e.block.kind is Ephemeris,
    ensures
        ({
            let glonass = e.block.system == Some(GnssSystem::Glonass);
            let sbas = e.block.system == Some(GnssSystem::Sbas);
            let counted = match scope {
                StrictScope::Keplerian => !glonass && !sbas,
                StrictScope::Glonass => glonass,
                StrictScope::Sbas => sbas,
            };
            match e.block.content {
                Content::Kept(_, _, Reason::Malformed(fault)) => entry_fault(e, scope) == (if counted
                    && !(scope is Glonass && (fault matches Fault::BadField(_, field) && field == utf8(
                    "prn"@,
                ))) {
                    Some(fault)
                } else {
                    None
                }),
                _ => entry_fault(e, scope) == (if counted && e.block.departures.len() > 0 {
                    Some(e.block.departures[0])
                } else {
                    None
                }),
            }
        }),
{
}

/// The frequency channel of a GLONASS slot is that of its last record.
pub proof fn law_slot_channel(records: Seq<GlonassRecord>, k: int)
    requires
        0 <= k < records.len(),
        -128 <= records[k].freq_channel <= 127,
        forall|j: int|
            k < j < records.len() ==> (#[trigger] records[j]).satellite_id.prn
                != records[k].satellite_id.prn || !(-128 <= records[j].freq_channel <= 127),
    ensures
        channels(records).dom().contains(records[k].satellite_id.prn),
        channels(records)[records[k].satellite_id.prn] == records[k].freq_channel,
    decreases records.len(),
{
    if k < records.len() - 1 {
        let head = records.drop_last();
        assert(records[records.len() - 1] == records.last());
        assert forall|j: int| k < j < head.len() implies (#[trigger] head[j]).satellite_id.prn
            != head[k].satellite_id.prn || !(-128 <= head[j].freq_channel <= 127) by {
            assert(head[j] == records[j]);
        }
        law_slot_channel(head, k);
    }
}

/// A slot without a record has no channel.
pub proof fn law_slot_without_channel(records: Seq<GlonassRecord>, prn: u8)
    requires
        forall|j: int| 0 <= j < records.len() ==> (#[trigger] records[j]).satellite_id.prn != prn,
    ensures
        !channels(records).dom().contains(prn),
    decreases records.len(),
{
    if records.len() > 0 {
        let head = records.drop_last();
        assert(records[records.len() - 1].satellite_id.prn != prn);
        assert forall|j: int| 0 <= j < head.len() implies (#[trigger] head[j]).satellite_id.prn != prn by {
            assert(head[j] == records[j]);
        }
        law_slot_without_channel(head, prn);
    }
}

/// Keeping some of the records keeps those and no others, in order.
pub proof fn law_records_kept(records: Seq<BroadcastRecord>, keep: Seq<bool>)
    requires
        keep.len() == records.len(),
        records.len() > 0,
    ensures
        ({
            let n = records.len() - 1;
            let kept = kept_records(records, keep);
            let before = kept_records(records.subrange(0, n), keep.subrange(0, n));
            kept == (if keep[n] {
                before.push(records[n])
            } else {
                before
            })
        }),
{
    let n = records.len() - 1;
    assert(records.drop_last() =~= records.subrange(0, n));
    lemma_kept(records.subrange(0, n), keep, keep.subrange(0, n));
}

/// What is kept depends on the choices of the records alone.
proof fn lemma_kept(records: Seq<BroadcastRecord>, a: Seq<bool>, b: Seq<bool>)
    requires
        records.len() <= a.len(),
        records.len() <= b.len(),
        forall|i: int| 0 <= i < records.len() ==> a[i] == b[i],
    ensures
        kept_records(records, a) == kept_records(records, b),
    decreases records.len(),
{
    if records.len() > 0 {
        lemma_kept(records.drop_last(), a, b);
    }
}

/// Which records a store refuses: a fit interval that is not positive, CNAV parameters where the
/// message is not of the CNAV family or none where it is, and indices that their fields cannot hold.
pub proof fn law_record_refused(record: BroadcastRecord)
    ensures
        manual_fault(record) is None <==> {
            &&& record.fit_interval_h matches Some(fit) ==> !fit.negative && fit.digits > 0
            &&& record.cnav is Some == modern(record.message)
            &&& record.cnav matches Some(c) ==> -16 <= c.ura_ed_index <= 15 && -16
                <= c.ura_ned0_index <= 15 && 0 <= c.ura_ned1_index <= 7 && 0 <= c.ura_ned2_index <= 7
        },
{
}

/// Of records as near to a time, one of CNAV stands before one of CNAV-2, and else the later in the
/// order of selection: the one returned, at place `r` of the order, is the last such.
pub proof fn law_selected_tie(
    store: Store,
    sat: GnssSatelliteId,
    t: int,
    family: bool,
    k: int,
) -> (r: int)
    requires
        0 <= k < keplerian_order(store.records).len(),
        ({
            let record = store.records[keplerian_order(store.records)[k]];
            candidate(record, sat, t, store.preference, family)
        }),
    ensures
        ({
            let order = keplerian_order(store.records);
            let other = store.records[order[k]];
            let found = nearest(store.records, order, sat, t, store.preference, family);
            &&& 0 <= r < order.len()
            &&& found == Some(order[r])
            &&& toe_distance(store.records[order[r]], t) == toe_distance(other, t) ==> {
                let chosen = store.records[order[r]].message;
                let second = |m: NavMessage| m is GpsCnav2 || m is QzssCnav2;
                &&& second(chosen) ==> second(other.message)
                &&& second(chosen) == second(other.message) ==> k <= r
            }
        }),
{
    law_nearest(
        store.records,
        keplerian_order(store.records),
        sat,
        t,
        store.preference,
        family,
    )
}

/// The variance of a selected record: 25 m^2 for GLONASS, and else the square of its deviation, that
/// of an absent accuracy being of zero.
pub proof fn law_variance_selected(store: Store, sat: GnssSatelliteId, t: int)
    ensures
        sat.system is Glonass ==> (variance_at(store, sat, t) is Some == selected_glonass(
            store,
            sat,
            t,
        ) is Some) && (variance_at(store, sat, t) matches Some(v) ==> v.integer() == Some(25int)),
        sat.system is Sbas ==> variance_at(store, sat, t) == (match selected_sbas(store, sat, None, t) {
            Some(record) => Some(
                variance(
                    ura_deviation(
                        match record.ura_m {
                            Some(a) => a,
                            None => zero(),
                        },
                    ),
                ),
            ),
            None => None,
        }),
        !(sat.system is Glonass) && !(sat.system is Sbas) ==> variance_at(store, sat, t) == (
        match selected(store, sat, t) {
            Some(record) => {
                let a = match record.sv_accuracy_m {
                    Some(a) => a,
                    None => zero(),
                };
                Some(
                    variance(
                        if sat.system is Galileo {
                            sisa_deviation(a)
                        } else {
                            ura_deviation(a)
                        },
                    ),
                )
            },
            None => None,
        }),
{
    law_selected_age(store, sat, t);
    law_variance(500);
    lemma_pow10_values();
    let v = variance(500);
    assert(v.digits * pow10((v.exponent + 4) as nat) == 250000);
    reveal_with_fuel(strip_zeros, 8);
    assert(strip_zeros(250000, 0) == (25nat, 4int));
    assert(25 * pow10(0) == 25) by (nonlinear_arith)
        requires
            pow10(0) == 1,
    ;
}

/// The delay of a selected record is that of its message, none stated counting as zero; for GLONASS
/// that between its bands, unless the field holds the mark of an unknown delay, 999999999.999.
pub proof fn law_delay_selected(store: Store, sat: GnssSatelliteId, t: int)
    ensures
        sat.system is Glonass ==> delay_at(store, sat, t) == (match selected_glonass(store, sat, t) {
            Some(record) => match record.l1_l2_group_delay_field_s {
                Some(d) => if !d.negative && d.digits == 999999999999 && d.exponent == -3 {
                    None
                } else {
                    Some(GroupDelay::GlonassG1(d))
                },
                None => None,
            },
            None => None,
        }),
        !(sat.system is Glonass) ==> (delay_at(store, sat, t) is Some == selected(
            store,
            sat,
            t,
        ) is Some),
        !(sat.system is Glonass) ==> (selected(store, sat, t) matches Some(record) ==> delay_at(
            store,
            sat,
            t,
        ) == Some(
            match record.group_delays.message_delay(sat.system, record.message) {
                Some(delay) => delay,
                None => GroupDelay::Zero,
            },
        )),
{
    law_selected_age(store, sat, t);
}

/// A fast health change, bit 2 of the GLONASS flags, counts against a record unless the status flags
/// say otherwise in bits 7 and 8.
pub proof fn law_glonass_status(record: GlonassRecord, n: int, m: int)
    requires
        record.sv_health.digits == 0,
        record.health_flags matches Some(d) && d.integer() == Some(n) && 0 <= n < 4294967296,
        record.status_flags matches Some(s) && s.integer() == Some(m) && 0 <= m < 4294967296,
        n / 2 % 2 == 0,
        n / 4 % 2 == 1,
    ensures
        glonass_healthy(record) == (m / 128 % 4 != 1),
{
    let d = record.health_flags->0;
    let s = record.status_flags->0;
    lemma_integer_word(d, n);
    lemma_integer_word(s, m);
    assert(pow10(0) == 1);
    assert(999999999999 * pow10(0) == 999999999999);
    let w = n as u32;
    let u = m as u32;
    assert((w & 2 != 0) == (w / 2 % 2 == 1)) by (bit_vector);
    assert((w & 4 != 0) == (w / 4 % 2 == 1)) by (bit_vector);
    assert((u >> 7) & 3 == u / 128 % 4) by (bit_vector);
}

} // verus!

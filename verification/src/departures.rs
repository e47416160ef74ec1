//! What counts as a departure from the format of a record that is read all the same.

use vstd::prelude::*;

use crate::cnav::{cnav_lines, cnav_record};
use crate::error::Fault;
use crate::fields::{
    extra_departures, given, missing, more_text, raw_at, record_epoch, scale_of, stated_departures,
    stated_value, value_at, CivilSecondPolicy, Layout,
};
use crate::geo::{sbas_departures, sbas_record, sbas_required};
use crate::glonass::{glonass_departures, glonass_record, glonass_required};
use crate::id::{GnssSatelliteId, GnssSystem};
use crate::keplerian::{
    clock_time, gps_fit, issue_value, keplerian_delays, keplerian_departures, keplerian_message,
    keplerian_record, keplerian_required, keplerian_times,
};
use crate::positions::{
    clock_field, lemma_nothing_stated, lemma_orbit_fields, lemma_value_columns, margin, orbit,
};
use crate::record::{BroadcastRecord, GlonassRecord, NavMessage, NavVersion, SbasRecord};
use crate::text::{blank, columns, trim_of};
use crate::time::{seconds_of, GnssWeekTow};

verus! {

/// Whether field `k` of line `n` holds text that is no number of its format.
pub open spec fn unreadable(lines: Seq<Seq<u8>>, layout: Layout, n: int, k: int) -> bool {
    n < lines.len() && ({
        let from = margin(layout) + 19 * (k - 1);
        !blank(columns(lines[n], from, from + 19)) && orbit(lines, layout, n, k) is None
    })
}

/// Whether field 3 of the first line holds text that is no number of its format.
pub open spec fn unreadable_third(lines: Seq<Seq<u8>>, layout: Layout) -> bool {
    let from = margin(layout) + 57;
    lines.len() > 0 && !blank(columns(lines[0], from, from + 19)) && clock_field(lines, layout, 3)
        is None
}

/// Whether a line from the `n`th on, counted from zero, holds any text.
pub open spec fn text_beyond(lines: Seq<Seq<u8>>, n: int) -> bool {
    exists|i: int| n <= i < lines.len() && !blank(#[trigger] lines[i])
}

/// A field is a departure where it holds text that is no number.
proof fn lemma_unreadable(lines: Seq<Seq<u8>>, layout: Layout, index: int)
    requires
        2 <= index,
    ensures
        (!blank(raw_at(lines, layout, index)) && value_at(lines, layout, index) is None) == (if index
            == 2 {
            unreadable_third(lines, layout)
        } else {
            unreadable(lines, layout, 1 + (index - 3) / 4, 1 + (index - 3) % 4)
        }),
{
    reveal(raw_at);
    lemma_value_columns(lines, layout, index);
    assert(blank(Seq::<u8>::empty())) by {
        assert(trim_of(Seq::<u8>::empty()) =~= Seq::empty());
    }
}

/// A Keplerian record departs from its format exactly where text follows its eight lines, its
/// accuracy, in BROADCAST ORBIT-6, is not stated, a field beside the model's is not blank and does not
/// read, a GPS fit interval is below zero, or the data sources of a Galileo record that name its
/// message have a pattern that is forbidden; text that follows is the first departure.
pub proof fn law_keplerian_departures(
    lines: Seq<Seq<u8>>,
    satellite_id: GnssSatelliteId,
    sat: Seq<u8>,
    named: Option<NavMessage>,
    version: NavVersion,
    layout: Layout,
)
    requires
        keplerian_record(lines, satellite_id, sat, named, version, layout) is Ok,
    ensures
        ({
            let departures = keplerian_record(
                lines,
                satellite_id,
                sat,
                named,
                version,
                layout,
            )->Ok_0.1;
            let system = satellite_id.system;
            let sixth = system is Gps || system is Qzss || system is Navic;
            let negative = system is Gps && (orbit(lines, layout, 7, 2) matches Some(d)
                && d.below_zero());
            let forbidden = named is None && system is Galileo && (orbit(lines, layout, 5, 2) matches Some(
                d,
            ) && (d.nearest_word() matches Some(w) && (w % 8 == 7 || w / 256 % 4 == 3)));
            &&& departures.len() == 0 <==> {
                &&& !text_beyond(lines, 8)
                &&& orbit(lines, layout, 6, 1) is Some
                &&& !unreadable(lines, layout, 5, 2) && !unreadable(lines, layout, 5, 4)
                &&& !unreadable(lines, layout, 7, 1) && !unreadable(lines, layout, 7, 2)
                &&& !unreadable(lines, layout, 7, 3) && !unreadable(lines, layout, 7, 4)
                &&& sixth ==> !unreadable(lines, layout, 6, 4)
                &&& !negative && !forbidden
            }
            &&& text_beyond(lines, 8) ==> departures.len() > 0 && departures[0]
                == Fault::ExtraRecordLines(sat)
        }),
{
    lemma_unreadable(lines, layout, 20);
    lemma_unreadable(lines, layout, 22);
    lemma_unreadable(lines, layout, 26);
    lemma_unreadable(lines, layout, 27);
    lemma_unreadable(lines, layout, 28);
    lemma_unreadable(lines, layout, 29);
    lemma_unreadable(lines, layout, 30);
    lemma_value_columns(lines, layout, 20);
    lemma_value_columns(lines, layout, 23);
    lemma_value_columns(lines, layout, 28);
    let departures = keplerian_record(lines, satellite_id, sat, named, version, layout)->Ok_0.1;
    let message = keplerian_message(satellite_id, named, value_at(lines, layout, 20));
    let forbidden = match message {
        Some((_, forbidden)) => forbidden,
        None => false,
    };
    assert(message is Some && departures == keplerian_departures(
        lines,
        layout,
        satellite_id.system,
        version,
        sat,
        forbidden,
    )) by {
        reveal(keplerian_record);
    }
    lemma_keplerian_parts(lines, layout, satellite_id.system, version, sat, forbidden);
    if let Some(d) = value_at(lines, layout, 20) {
        if let Some(w) = d.nearest_word() {
            assert((w & 7 == 7) == (w % 8 == 7)) by (bit_vector);
            assert((w & 256 != 0 && w & 512 != 0) == (w / 256 % 4 == 3)) by (bit_vector);
        }
    }
}

/// Whether a field holds text and states no number.
spec fn bad(lines: Seq<Seq<u8>>, layout: Layout, index: int) -> bool {
    !blank(raw_at(lines, layout, index)) && value_at(lines, layout, index) is None
}

/// The departures of a Keplerian record, part by part.
#[verifier::spinoff_prover]
#[verifier::rlimit(40)]
proof fn lemma_keplerian_parts(
    lines: Seq<Seq<u8>>,
    layout: Layout,
    system: GnssSystem,
    version: NavVersion,
    sat: Seq<u8>,
    forbidden: bool,
)
    ensures
        ({
            let d = keplerian_departures(lines, layout, system, version, sat, forbidden);
            &&& (d.len() == 0) == (!text_beyond(lines, 8) && !bad(lines, layout, 20) && !bad(
                lines,
                layout,
                22,
            ) && !bad(lines, layout, 27) && !bad(lines, layout, 29) && !bad(lines, layout, 30)
                && !forbidden && value_at(lines, layout, 23) is Some && ((system is Gps
                || system is Qzss || system is Navic) ==> !bad(lines, layout, 26)) && !bad(
                lines,
                layout,
                28,
            ) && !(system is Gps && (value_at(lines, layout, 28) matches Some(v) && v.below_zero())))
            &&& text_beyond(lines, 8) ==> d.len() > 0 && d[0] == Fault::ExtraRecordLines(sat)
        }),
{
    lemma_nothing_stated();
    assert(more_text(lines, 8) == text_beyond(lines, 8));
    let raw = raw_at(lines, layout, 28);
    assert(gps_fit(raw, version) is Err == (bad(lines, layout, 28) || (stated_value(raw) matches Some(v)
        && v.below_zero())));
    let a = extra_departures(lines, 8, sat);
    let b = stated_departures(raw_at(lines, layout, 20), sat, "orbit-5 field 2");
    assert((a.len() == 0) == !text_beyond(lines, 8));
    assert((b.len() == 0) == !bad(lines, layout, 20));
}

/// A GLONASS record departs from its format where a line of its layout, five from RINEX 3.05 on and
/// else four, is missing, text follows them, or a field beside the model's is not blank and does not
/// read.
pub proof fn law_glonass_departures(
    lines: Seq<Seq<u8>>,
    satellite_id: GnssSatelliteId,
    sat: Seq<u8>,
    version: NavVersion,
    layout: Layout,
)
    requires
        glonass_record(lines, satellite_id, sat, version, layout) is Ok,
    ensures
        ({
            let departures = glonass_record(lines, satellite_id, sat, version, layout)->Ok_0.1;
            let five = version.major > 3 || version.major == 3 && version.minor >= 5;
            let count: int = if five {
                5
            } else {
                4
            };
            &&& departures.len() == 0 <==> {
                &&& lines.len() >= count
                &&& !text_beyond(lines, count)
                &&& !unreadable_third(lines, layout)
                &&& !unreadable(lines, layout, 3, 4)
                &&& five ==> !unreadable(lines, layout, 4, 1) && !unreadable(lines, layout, 4, 2) && !unreadable(
                    lines,
                    layout,
                    4,
                    3,
                ) && !unreadable(lines, layout, 4, 4)
            }
            &&& lines.len() < count ==> departures.len() > 0 && departures[0]
                == Fault::TruncatedRecord(sat)
        }),
{
    lemma_unreadable(lines, layout, 2);
    lemma_unreadable(lines, layout, 14);
    lemma_unreadable(lines, layout, 15);
    lemma_unreadable(lines, layout, 16);
    lemma_unreadable(lines, layout, 17);
    lemma_unreadable(lines, layout, 18);
    let departures = glonass_record(lines, satellite_id, sat, version, layout)->Ok_0.1;
    assert(departures == glonass_departures(lines, layout, version, sat)) by {
        reveal(glonass_record);
    }
    lemma_glonass_parts(lines, layout, version, sat);
}

/// The departures of a GLONASS record, part by part.
#[verifier::spinoff_prover]
#[verifier::rlimit(40)]
proof fn lemma_glonass_parts(
    lines: Seq<Seq<u8>>,
    layout: Layout,
    version: NavVersion,
    sat: Seq<u8>,
)
    ensures
        ({
            let d = glonass_departures(lines, layout, version, sat);
            let five = version.major > 3 || version.major == 3 && version.minor >= 5;
            let count: int = if five {
                5
            } else {
                4
            };
            &&& (d.len() == 0) == (lines.len() >= count && !text_beyond(lines, count) && !bad(
                lines,
                layout,
                2,
            ) && !bad(lines, layout, 14) && (five ==> !bad(lines, layout, 15) && !bad(
                lines,
                layout,
                16,
            ) && !bad(lines, layout, 17) && !bad(lines, layout, 18)))
            &&& lines.len() < count ==> d.len() > 0 && d[0] == Fault::TruncatedRecord(sat)
        }),
{
    assert(more_text(lines, 4) == text_beyond(lines, 4));
    assert(more_text(lines, 5) == text_beyond(lines, 5));
}

/// An SBAS record departs from its format where text follows its four lines, or its transmission
/// time, accuracy or issue is not blank and does not read; a CNAV record where text follows its nine
/// lines, ten for CNAV-2.
pub proof fn law_other_departures(
    lines: Seq<Seq<u8>>,
    satellite_id: GnssSatelliteId,
    sat: Seq<u8>,
    message: NavMessage,
    layout: Layout,
)
    ensures
        sbas_record(lines, satellite_id, sat, layout) matches Ok((_, departures)) ==> (
        departures.len() == 0 <==> !text_beyond(lines, 4) && !unreadable_third(lines, layout) && !unreadable(
            lines,
            layout,
            2,
            4,
        ) && !unreadable(lines, layout, 3, 4)),
        cnav_record(lines, satellite_id, sat, message) matches Ok((_, departures)) ==> ({
            let count: int = if message is GpsCnav2 || message is QzssCnav2 {
                10
            } else {
                9
            };
            if text_beyond(lines, count) {
                departures == seq![Fault::ExtraRecordLines(sat)]
            } else {
                departures.len() == 0
            }
        }),
{
    lemma_unreadable(lines, layout, 2);
    lemma_unreadable(lines, layout, 10);
    lemma_unreadable(lines, layout, 14);
    assert(sbas_record(lines, satellite_id, sat, layout) matches Ok((_, departures)) ==> departures
        == sbas_departures(lines, layout, sat)) by {
        reveal(sbas_record);
    }
    assert(cnav_record(lines, satellite_id, sat, message) matches Ok((_, departures)) ==> departures
        == extra_departures(lines, cnav_lines(message.cnav2()), sat)) by {
        reveal(cnav_record);
    }
    assert(more_text(lines, 4) == text_beyond(lines, 4));
    assert(more_text(lines, 9) == text_beyond(lines, 9));
    assert(more_text(lines, 10) == text_beyond(lines, 10));
}

/// A record is cut short exactly where it has fewer lines than its format: eight for a Keplerian
/// record, nine for CNAV and ten for CNAV-2, and four for GLONASS and SBAS.
pub proof fn law_cut_short(
    lines: Seq<Seq<u8>>,
    id: GnssSatelliteId,
    sat: Seq<u8>,
    named: Option<NavMessage>,
    message: NavMessage,
    version: NavVersion,
    layout: Layout,
)
    ensures
        keplerian_record(lines, id, sat, named, version, layout) == Err::<
            (BroadcastRecord, Seq<Fault>),
            Fault,
        >(Fault::TruncatedRecord(sat)) <==> lines.len() < 8,
        cnav_record(lines, id, sat, message) == Err::<(BroadcastRecord, Seq<Fault>), Fault>(
            Fault::TruncatedRecord(sat),
        ) <==> lines.len() < (if message is GpsCnav2 || message is QzssCnav2 {
            10int
        } else {
            9
        }),
        glonass_record(lines, id, sat, version, layout) == Err::<(GlonassRecord, Seq<Fault>), Fault>(
            Fault::TruncatedRecord(sat),
        ) <==> lines.len() < 4,
        sbas_record(lines, id, sat, layout) == Err::<(SbasRecord, Seq<Fault>), Fault>(
            Fault::TruncatedRecord(sat),
        ) <==> lines.len() < 4,
{
    assert(keplerian_record(lines, id, sat, named, version, layout) == Err::<
        (BroadcastRecord, Seq<Fault>),
        Fault,
    >(Fault::TruncatedRecord(sat)) <==> lines.len() < 8) by {
        reveal(keplerian_record);
    }
    assert(cnav_record(lines, id, sat, message) == Err::<(BroadcastRecord, Seq<Fault>), Fault>(
        Fault::TruncatedRecord(sat),
    ) <==> lines.len() < cnav_lines(message.cnav2())) by {
        reveal(cnav_record);
    }
    assert(glonass_record(lines, id, sat, version, layout) == Err::<
        (GlonassRecord, Seq<Fault>),
        Fault,
    >(Fault::TruncatedRecord(sat)) <==> lines.len() < 4) by {
        reveal(glonass_record);
    }
    assert(sbas_record(lines, id, sat, layout) == Err::<(SbasRecord, Seq<Fault>), Fault>(
        Fault::TruncatedRecord(sat),
    ) <==> lines.len() < 4) by {
        reveal(sbas_record);
    }
}

/// Where each required field states a number none is missing.
proof fn lemma_none_missing(
    lines: Seq<Seq<u8>>,
    layout: Layout,
    required: Seq<(usize, &'static str)>,
)
    requires
        forall|k: int|
            0 <= k < required.len() ==> value_at(lines, layout, (#[trigger] required[k]).0 as int)
                is Some,
    ensures
        missing(lines, layout, required) is None,
    decreases required.len(),
{
    if required.len() > 0 {
        let rest = required.drop_first();
        assert(value_at(lines, layout, required[0].0 as int) is Some);
        assert forall|k: int| 0 <= k < rest.len() implies value_at(
            lines,
            layout,
            (#[trigger] rest[k]).0 as int,
        ) is Some by {
            assert(rest[k] == required[k + 1]);
        }
        lemma_none_missing(lines, layout, rest);
    }
}

/// Eight lines are a Keplerian record where the epoch is of a week that counts, the clock and orbit,
/// `toe`, the week, the issue and the health are stated, week and issue being integers of 32 bits and
/// `toe` a time of the week, the group delays are blank or stated and, for a Galileo record whose
/// message no marker names, the data sources are a word.
pub proof fn law_keplerian_accepted(
    lines: Seq<Seq<u8>>,
    id: GnssSatelliteId,
    sat: Seq<u8>,
    named: Option<NavMessage>,
    version: NavVersion,
    layout: Layout,
    week: int,
    issue: int,
)
    requires
        lines.len() >= 8,
        clock_time(lines[0], layout, scale_of(id.system)) matches Some((w, tow)) && w < 4000000000
            && 0 <= tow.whole <= 1000000,
        forall|k: int| 1 <= k <= 3 ==> (#[trigger] clock_field(lines, layout, k)) is Some,
        forall|n: int, k: int|
            1 <= n <= 4 && 1 <= k <= 4 ==> (#[trigger] orbit(lines, layout, n, k)) is Some,
        orbit(lines, layout, 5, 1) is Some,
        orbit(lines, layout, 5, 3) matches Some(d) && d.integer() == Some(week) && 0 <= week
            < 4000000000,
        orbit(lines, layout, 1, 1) matches Some(d) && d.integer() == Some(issue) && 0 <= issue
            < 4294967296,
        orbit(lines, layout, 3, 1) matches Some(d) && 0 <= seconds_of(d).whole <= 604800,
        orbit(lines, layout, 6, 2) is Some,
        !unreadable(lines, layout, 6, 3) && !unreadable(lines, layout, 6, 4),
        named is None && id.system is Galileo ==> (orbit(lines, layout, 5, 2) matches Some(d)
            && d.nearest_word() is Some),
    ensures
        keplerian_record(lines, id, sat, named, version, layout) is Ok,
{
    lemma_orbit_fields(lines, layout);
    lemma_unreadable(lines, layout, 25);
    lemma_unreadable(lines, layout, 26);
    let r = keplerian_required();
    assert forall|k: int| 0 <= k < r.len() implies value_at(lines, layout, (#[trigger] r[k]).0 as int)
        is Some by {
        let i = r[k].0 as int;
        lemma_value_columns(lines, layout, i);
        if i < 3 {
            assert(clock_field(lines, layout, i + 1) is Some);
        } else {
            let n = 1 + (i - 3) / 4;
            let f = 1 + (i - 3) % 4;
            assert(orbit(lines, layout, n, f) is Some);
        }
    }
    lemma_none_missing(lines, layout, r);
    lemma_value_columns(lines, layout, 3);
    lemma_value_columns(lines, layout, 11);
    lemma_value_columns(lines, layout, 20);
    lemma_value_columns(lines, layout, 21);
    lemma_value_columns(lines, layout, 24);
    let scale = scale_of(id.system);
    let (w, tow) = clock_time(lines[0], layout, scale)->0;
    let toc = (GnssWeekTow { system: scale, week: w, tow_s: tow }).carried();
    assert(toc is Some);
    let toe = (GnssWeekTow {
        system: scale,
        week: week as u32,
        tow_s: seconds_of(given(lines, layout, 11)),
    }).carried();
    assert(toe is Some);
    assert(keplerian_times(lines, layout, scale, w, tow, sat) is Ok);
    assert(issue_value(value_at(lines, layout, 3)) is Some);
    assert(keplerian_delays(
        id.system,
        raw_at(lines, layout, 25),
        raw_at(lines, layout, 26),
    ) is Ok);
    assert(keplerian_message(id, named, value_at(lines, layout, 20)) is Some);
    reveal(keplerian_record);
}

/// Four lines are a GLONASS record, or an SBAS record, where the epoch reads and the clock, position,
/// velocity, acceleration and health are stated, and for GLONASS the frequency channel is an integer.
pub proof fn law_states_accepted(
    lines: Seq<Seq<u8>>,
    id: GnssSatelliteId,
    sat: Seq<u8>,
    version: NavVersion,
    layout: Layout,
)
    requires
        lines.len() >= 4,
        clock_field(lines, layout, 1) is Some && clock_field(lines, layout, 2) is Some,
        forall|n: int, k: int|
            1 <= n <= 3 && 1 <= k <= 3 ==> (#[trigger] orbit(lines, layout, n, k)) is Some,
        orbit(lines, layout, 1, 4) is Some,
    ensures
        record_epoch(lines[0], layout, CivilSecondPolicy::UtcLike) is Some && (orbit(
            lines,
            layout,
            2,
            4,
        ) matches Some(d) && (d.integer() matches Some(n) && -2147483648 <= n <= 2147483647))
            ==> glonass_record(lines, id, sat, version, layout) is Ok,
        record_epoch(lines[0], layout, CivilSecondPolicy::Continuous) is Some ==> sbas_record(
            lines,
            id,
            sat,
            layout,
        ) is Ok,
{
    lemma_orbit_fields(lines, layout);
    let g = glonass_required();
    let s = sbas_required();
    assert forall|i: int|
        i == 0 || i == 1 || i == 6 || 3 <= i <= 5 || 7 <= i <= 9 || 11 <= i
            <= 13 implies #[trigger] value_at(lines, layout, i) is Some by {
        lemma_value_columns(lines, layout, i);
        if i < 3 {
            assert(clock_field(lines, layout, i + 1) is Some);
        } else {
            assert(orbit(lines, layout, 1 + (i - 3) / 4, 1 + (i - 3) % 4) is Some);
        }
    }
    lemma_value_columns(lines, layout, 10);
    if orbit(lines, layout, 2, 4) is Some {
        assert forall|k: int| 0 <= k < g.len() implies value_at(
            lines,
            layout,
            (#[trigger] g[k]).0 as int,
        ) is Some by {
            assert(g[k].0 == 10 || g[k].0 != 10);
        }
        lemma_none_missing(lines, layout, g);
    }
    assert forall|k: int| 0 <= k < s.len() implies value_at(lines, layout, (#[trigger] s[k]).0 as int)
        is Some by {}
    lemma_none_missing(lines, layout, s);
    reveal(glonass_record);
    reveal(sbas_record);
}

} // verus!

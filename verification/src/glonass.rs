//! GLONASS FDMA records.

use vstd::prelude::*;

use crate::decimal::{zero, Decimal};
use crate::error::{bad_field, faults, Fault, NavParseError};
use crate::fields::{
    check_extra_lines, extra_departures, first_missing, given, given_field, missing,
    parse_record_epoch, raw_at, raw_record_field, record_epoch, stated_departures, stated_field,
    value_at, CivilSecondPolicy, Layout,
};
use crate::id::GnssSatelliteId;
use crate::keplerian::{outcome, Decoded};
use crate::record::{GlonassRecord, NavVersion};
use crate::text::{texts, utf8};
use crate::time::{floor_div, Seconds};

verus! {

/// A number of kilometers in meters.
pub open spec fn thousandfold(d: Decimal) -> Decimal {
    if d.digits == 0 {
        zero()
    } else {
        Decimal { exponent: (d.exponent + 3) as i32, ..d }
    }
}

/// A number of kilometers in meters.
pub fn km_to_m(d: Decimal) -> (r: Decimal)
    requires
        d.wf(),
    ensures
        r == thousandfold(d),
{
    if d.digits == 0 {
        Decimal { negative: false, digits: 0, exponent: 0 }
    } else {
        Decimal { negative: d.negative, digits: d.digits, exponent: d.exponent + 3 }
    }
}

/// The fields a GLONASS record has to state, in the order they are asked for.
pub open spec fn glonass_required() -> Seq<(usize, &'static str)> {
    seq![
        (0, "clock bias"),
        (1, "gamma_n"),
        (3, "x"),
        (7, "y"),
        (11, "z"),
        (4, "vx"),
        (8, "vy"),
        (12, "vz"),
        (5, "ax"),
        (9, "ay"),
        (13, "az"),
        (6, "health"),
        (10, "frequency channel"),
    ]
}

/// The state vector, in meters, that the fields from `first` on each orbit line state.
#[verifier::opaque]
pub open spec fn vector_at(lines: Seq<Seq<u8>>, layout: Layout, first: int) -> [Decimal; 3] {
    [
        thousandfold(given(lines, layout, first)),
        thousandfold(given(lines, layout, first + 4)),
        thousandfold(given(lines, layout, first + 8)),
    ]
}

/// A time in whole seconds on the 15-minute grid: the nearest grid time, halves up.
pub open spec fn quarter_hour(whole: int) -> int {
    (whole + 450) / 900 * 900
}

/// The nearest time on the 15-minute grid, halves up (see [`quarter_hour`]).
fn grid_time(whole: i64) -> (r: i64)
    requires
        -80000000000000000 <= whole <= 80000000000000000,
    ensures
        r == quarter_hour(whole as int),
{
    floor_div(whole + 450, 900) * 900
}

/// A stated GLONASS channel: above 128, less 256.
pub open spec fn folded_channel(channel: int) -> int {
    if channel > 128 {
        channel - 256
    } else {
        channel
    }
}

/// A stated GLONASS channel: above 128, less 256.
pub fn fold_glonass_channel(channel: i32) -> (r: i32)
    ensures
        r == folded_channel(channel as int),
{
    if channel > 128 {
        channel - 256
    } else {
        channel
    }
}

/// Whether a GLONASS frequency channel lies in the `-7..=6` FDMA allocation, the channels a
/// carrier frequency is resolved for. The readers keep a stated channel outside it; this is the
/// check their consumers apply.
pub fn valid_glonass_frequency_channel(channel: i32) -> (r: bool)
    ensures
        r == (-7 <= channel <= 6),
{
    -7 <= channel && channel <= 6
}

/// The number of lines of a GLONASS record in a version.
pub open spec fn glonass_lines(version: NavVersion) -> int {
    if version.fourth_glonass_line() {
        5
    } else {
        4
    }
}

/// A field of the fourth broadcast-orbit line, which not every version has.
pub open spec fn fourth_line_value(
    lines: Seq<Seq<u8>>,
    layout: Layout,
    version: NavVersion,
    index: int,
) -> Option<Decimal> {
    if version.fourth_glonass_line() && lines.len() >= 5 {
        value_at(lines, layout, index)
    } else {
        None
    }
}

/// The departures of a GLONASS record, in the order they are met.
pub open spec fn glonass_departures(
    lines: Seq<Seq<u8>>,
    layout: Layout,
    version: NavVersion,
    sat: Seq<u8>,
) -> Seq<Fault> {
    let raw = |index: int| raw_at(lines, layout, index);
    (if lines.len() < glonass_lines(version) {
        seq![Fault::TruncatedRecord(sat)]
    } else {
        Seq::empty()
    }) + extra_departures(lines, glonass_lines(version), sat) + stated_departures(
        raw(2),
        sat,
        "message frame time",
    ) + stated_departures(raw(14), sat, "age of operation") + fourth_line_departures(
        lines,
        layout,
        version,
        sat,
    )
}

/// The departures of the fourth broadcast-orbit line.
pub open spec fn fourth_line_departures(
    lines: Seq<Seq<u8>>,
    layout: Layout,
    version: NavVersion,
    sat: Seq<u8>,
) -> Seq<Fault> {
    let raw = |index: int| raw_at(lines, layout, index);
    if version.fourth_glonass_line() && lines.len() >= 5 {
        stated_departures(raw(15), sat, "status flags") + stated_departures(
            raw(16),
            sat,
            "l1/l2 group delay",
        ) + stated_departures(raw(17), sat, "urai") + stated_departures(
            raw(18),
            sat,
            "health flags",
        )
    } else {
        Seq::empty()
    }
}

/// The GLONASS record that lines state for a satellite, with the departures read through; the
/// first problem that keeps them from being one.
pub open spec fn glonass_record(
    lines: Seq<Seq<u8>>,
    satellite_id: GnssSatelliteId,
    sat: Seq<u8>,
    version: NavVersion,
    layout: Layout,
) -> Result<(GlonassRecord, Seq<Fault>), Fault> {
    if lines.len() < 4 {
        Err(Fault::TruncatedRecord(sat))
    } else {
        match record_epoch(lines[0], layout, CivilSecondPolicy::UtcLike) {
            None => Err(bad_field(sat, "epoch")),
            Some(epoch) => match missing(lines, layout, glonass_required()) {
                Some(field) => Err(bad_field(sat, field)),
                None => match given(lines, layout, 10).integer_within(
                    i32::MIN as int,
                    i32::MAX as int,
                ) {
                    None => Err(bad_field(sat, "frequency channel")),
                    Some(channel) => Ok(
                        (
                            GlonassRecord {
                                satellite_id,
                                toe_utc_j2000_s: quarter_hour(epoch.j2000().whole as int) as i64,
                                epoch_utc_j2000_s: epoch.j2000(),
                                pos_m: vector_at(lines, layout, 3),
                                vel_m_s: vector_at(lines, layout, 4),
                                acc_m_s2: vector_at(lines, layout, 5),
                                clk_bias: given(lines, layout, 0),
                                gamma_n: given(lines, layout, 1),
                                sv_health: given(lines, layout, 6),
                                freq_channel: folded_channel(channel) as i32,
                                stated_freq_channel: channel as i32,
                                message_frame_time_s: value_at(lines, layout, 2),
                                age_days: value_at(lines, layout, 14),
                                status_flags: fourth_line_value(lines, layout, version, 15),
                                l1_l2_group_delay_field_s: fourth_line_value(
                                    lines,
                                    layout,
                                    version,
                                    16,
                                ),
                                urai: fourth_line_value(lines, layout, version, 17),
                                health_flags: fourth_line_value(lines, layout, version, 18),
                            },
                            glonass_departures(lines, layout, version, sat),
                        ),
                    ),
                },
            },
        }
    }
}

/// The state vector, in meters, that the fields from `first` on each orbit line state.
pub fn vector_of(lines: &[&str], layout: Layout, first: usize) -> (r: [Decimal; 3])
    requires
        first <= usize::MAX - 8,
        value_at(texts(lines@), layout, first as int) is Some,
        value_at(texts(lines@), layout, first + 4) is Some,
        value_at(texts(lines@), layout, first + 8) is Some,
    ensures
        r == vector_at(texts(lines@), layout, first as int),
{
    proof {
        reveal(vector_at);
    }
    [
        km_to_m(given_field(lines, layout, first)),
        km_to_m(given_field(lines, layout, first + 4)),
        km_to_m(given_field(lines, layout, first + 8)),
    ]
}

/// The required fields by index.
proof fn lemma_required_given(lines: Seq<Seq<u8>>, layout: Layout)
    requires
        forall|k: int|
            0 <= k < 13 ==> value_at(
                lines,
                layout,
                (#[trigger] glonass_required()[k]).0 as int,
            ) is Some,
    ensures
        value_at(lines, layout, 0) is Some,
        value_at(lines, layout, 1) is Some,
        forall|i: int| 3 <= i <= 13 ==> (#[trigger] value_at(lines, layout, i)) is Some,
{
    let r = glonass_required();
    assert(r[0].0 == 0 && r[1].0 == 1);
    assert forall|i: int| 3 <= i <= 13 implies (#[trigger] value_at(lines, layout, i)) is Some by {
        assert(r[2].0 == 3 && r[3].0 == 7 && r[4].0 == 11 && r[5].0 == 4 && r[6].0 == 8 && r[7].0
            == 12 && r[8].0 == 5 && r[9].0 == 9 && r[10].0 == 13 && r[11].0 == 6 && r[12].0 == 10);
    }
}

/// The fields of the fourth broadcast-orbit line, which not every version has.
fn fourth_line(
    lines: &[&str],
    layout: Layout,
    version: NavVersion,
    sat: &str,
    departures: &mut Vec<NavParseError>,
) -> (r: (Option<Decimal>, Option<Decimal>, Option<Decimal>, Option<Decimal>))
    ensures
        r.0 == fourth_line_value(texts(lines@), layout, version, 15),
        r.1 == fourth_line_value(texts(lines@), layout, version, 16),
        r.2 == fourth_line_value(texts(lines@), layout, version, 17),
        r.3 == fourth_line_value(texts(lines@), layout, version, 18),
        faults(final(departures)@) == faults(old(departures)@) + fourth_line_departures(
            texts(lines@),
            layout,
            version,
            utf8(sat@),
        ),
{
    let ghost before = faults(departures@);
    let mut status_flags: Option<Decimal> = None;
    let mut l1_l2_group_delay_field_s: Option<Decimal> = None;
    let mut urai: Option<Decimal> = None;
    let mut health_flags: Option<Decimal> = None;
    if version.glonass_has_fourth_orbit_line() && lines.len() >= 5 {
        status_flags =
        stated_field(
            raw_record_field(lines, layout, 15),
            "status flags",
            sat,
            departures,
        );
        l1_l2_group_delay_field_s =
        stated_field(
            raw_record_field(lines, layout, 16),
            "l1/l2 group delay",
            sat,
            departures,
        );
        urai = stated_field(raw_record_field(lines, layout, 17), "urai", sat, departures);
        health_flags =
        stated_field(
            raw_record_field(lines, layout, 18),
            "health flags",
            sat,
            departures,
        );
    }
    assert(faults(departures@) =~= before + fourth_line_departures(
        texts(lines@),
        layout,
        version,
        utf8(sat@),
    ));
    (status_flags, l1_l2_group_delay_field_s, urai, health_flags)
}

/// Decode a GLONASS FDMA record: four lines, or five from RINEX 3.05 on (see
/// [`glonass_record`]).
pub fn parse_glonass_block(
    lines: &[&str],
    satellite_id: GnssSatelliteId,
    sat: &str,
    version: NavVersion,
    layout: Layout,
) -> (r: Result<Decoded<GlonassRecord>, NavParseError>)
    ensures
        outcome(r, glonass_record(texts(lines@), satellite_id, utf8(sat@), version, layout)),
{
    let ghost all = texts(lines@);
    if lines.len() < 4 {
        return Err(NavParseError::truncated(sat));
    }
    let mut departures: Vec<NavParseError> = Vec::new();
    let expected: usize = if version.glonass_has_fourth_orbit_line() {
        5
    } else {
        4
    };
    if lines.len() < expected {
        // A RINEX 3.05+ record without its fourth orbit line: the state vector and clock are all
        // there; the 3.05 fields read as absent.
        departures.push(NavParseError::truncated(sat));
    }
    assert(faults(departures@) =~= (if all.len() < glonass_lines(version) {
        seq![Fault::TruncatedRecord(utf8(sat@))]
    } else {
        Seq::empty()
    }));
    check_extra_lines(lines, expected, sat, &mut departures);
    let epoch = match parse_record_epoch(
        lines[0],
        layout,
        sat,
        "epoch",
        CivilSecondPolicy::UtcLike,
    ) {
        Ok(epoch) => epoch,
        Err(e) => {
            return Err(e);
        },
    };
    let epoch_utc_j2000_s: Seconds = epoch.j2000_s();
    let toe_utc_j2000_s: i64 = grid_time(epoch_utc_j2000_s.whole);
    let required: [(usize, &'static str); 13] = [
        (0, "clock bias"),
        (1, "gamma_n"),
        (3, "x"),
        (7, "y"),
        (11, "z"),
        (4, "vx"),
        (8, "vy"),
        (12, "vz"),
        (5, "ax"),
        (9, "ay"),
        (13, "az"),
        (6, "health"),
        (10, "frequency channel"),
    ];
    assert(required@ =~= glonass_required());
    if let Some(field) = first_missing(lines, layout, &required) {
        return Err(NavParseError::bad(sat, field));
    }
    proof {
        assert forall|k: int| 0 <= k < 13 implies value_at(
            all,
            layout,
            (#[trigger] glonass_required()[k]).0 as int,
        ) is Some by {
            assert(required@[k] == glonass_required()[k]);
        }
        lemma_required_given(all, layout);
    }
    let message_frame_time_s = stated_field(
        raw_record_field(lines, layout, 2),
        "message frame time",
        sat,
        &mut departures,
    );
    let stated_freq_channel: i32 = match given_field(lines, layout, 10).to_integer(
        -2147483648,
        2147483647,
    ) {
        Some(channel) => channel as i32,
        None => {
            return Err(NavParseError::bad(sat, "frequency channel"));
        },
    };
    let age_days = stated_field(
        raw_record_field(lines, layout, 14),
        "age of operation",
        sat,
        &mut departures,
    );
    let (status_flags, l1_l2_group_delay_field_s, urai, health_flags) = fourth_line(
        lines,
        layout,
        version,
        sat,
        &mut departures,
    );
    assert(faults(departures@) =~= glonass_departures(all, layout, version, utf8(sat@)));
    Ok(
        Decoded {
            value: GlonassRecord {
                satellite_id,
                toe_utc_j2000_s,
                epoch_utc_j2000_s,
                pos_m: vector_of(lines, layout, 3),
                vel_m_s: vector_of(lines, layout, 4),
                acc_m_s2: vector_of(lines, layout, 5),
                clk_bias: given_field(lines, layout, 0),
                gamma_n: given_field(lines, layout, 1),
                sv_health: given_field(lines, layout, 6),
                freq_channel: fold_glonass_channel(stated_freq_channel),
                stated_freq_channel,
                message_frame_time_s,
                age_days,
                status_flags,
                l1_l2_group_delay_field_s,
                urai,
                health_flags,
            },
            departures,
        },
    )
}

} // verus!

//! SBAS (geostationary) records.

use vstd::prelude::*;

use crate::error::{bad_field, faults, Fault, NavParseError};
use crate::fields::{
    check_extra_lines, extra_departures, first_missing, given, given_field, missing,
    parse_record_epoch, raw_at, raw_record_field, record_epoch, stated_departures, stated_field,
    value_at, CivilSecondPolicy, Layout,
};
use crate::glonass::{vector_at, vector_of};
use crate::id::GnssSatelliteId;
use crate::keplerian::{outcome, Decoded};
use crate::record::SbasRecord;
use crate::text::{texts, utf8};

verus! {

/// The fields an SBAS record has to state, in the order they are asked for.
pub open spec fn sbas_required() -> Seq<(usize, &'static str)> {
    seq![
        (0, "af0"),
        (1, "af1"),
        (3, "x"),
        (7, "y"),
        (11, "z"),
        (4, "vx"),
        (8, "vy"),
        (12, "vz"),
        (5, "ax"),
        (9, "ay"),
        (13, "az"),
        (6, "health"),
    ]
}

/// The departures of an SBAS record, in the order they are met.
pub open spec fn sbas_departures(lines: Seq<Seq<u8>>, layout: Layout, sat: Seq<u8>) -> Seq<Fault> {
    extra_departures(lines, 4, sat) + stated_departures(
        raw_at(lines, layout, 2),
        sat,
        "transmission time",
    ) + stated_departures(raw_at(lines, layout, 10), sat, "accuracy code") + stated_departures(
        raw_at(lines, layout, 14),
        sat,
        "iodn",
    )
}

/// The SBAS record that lines state for a satellite, with the departures read through; the first
/// problem that keeps them from being one.
pub open spec fn sbas_record(
    lines: Seq<Seq<u8>>,
    satellite_id: GnssSatelliteId,
    sat: Seq<u8>,
    layout: Layout,
) -> Result<(SbasRecord, Seq<Fault>), Fault> {
    if lines.len() < 4 {
        Err(Fault::TruncatedRecord(sat))
    } else {
        match record_epoch(lines[0], layout, CivilSecondPolicy::Continuous) {
            None => Err(bad_field(sat, "epoch")),
            Some(epoch) => match missing(lines, layout, sbas_required()) {
                Some(field) => Err(bad_field(sat, field)),
                None => Ok(
                    (
                        SbasRecord {
                            satellite_id,
                            epoch,
                            af0_s: given(lines, layout, 0),
                            af1_s_s: given(lines, layout, 1),
                            message_frame_time_s: value_at(lines, layout, 2),
                            pos_m: vector_at(lines, layout, 3),
                            vel_m_s: vector_at(lines, layout, 4),
                            acc_m_s2: vector_at(lines, layout, 5),
                            health: given(lines, layout, 6),
                            ura_m: value_at(lines, layout, 10),
                            iodn: value_at(lines, layout, 14),
                        },
                        sbas_departures(lines, layout, sat),
                    ),
                ),
            },
        }
    }
}

/// The required fields by index.
proof fn lemma_required_given(lines: Seq<Seq<u8>>, layout: Layout)
    requires
        forall|k: int|
            0 <= k < 12 ==> value_at(
                lines,
                layout,
                (#[trigger] sbas_required()[k]).0 as int,
            ) is Some,
    ensures
        value_at(lines, layout, 0) is Some,
        value_at(lines, layout, 1) is Some,
        forall|i: int|
            3 <= i <= 13 && i != 10 ==> (#[trigger] value_at(lines, layout, i)) is Some,
{
    let r = sbas_required();
    assert(r[0].0 == 0 && r[1].0 == 1);
    assert forall|i: int| 3 <= i <= 13 && i != 10 implies (#[trigger] value_at(
        lines,
        layout,
        i,
    )) is Some by {
        assert(r[2].0 == 3 && r[3].0 == 7 && r[4].0 == 11 && r[5].0 == 4 && r[6].0 == 8 && r[7].0
            == 12 && r[8].0 == 5 && r[9].0 == 9 && r[10].0 == 13 && r[11].0 == 6);
    }
}

/// Decode an SBAS record from its four lines: the epoch, `aGf0`, `aGf1` and the transmission
/// time; then x, y and z each with its rate and acceleration (km, km/s, km/s^2) and health,
/// accuracy code and IODN (see [`sbas_record`]).
pub fn parse_sbas_block(
    lines: &[&str],
    satellite_id: GnssSatelliteId,
    sat: &str,
    layout: Layout,
) -> (r: Result<Decoded<SbasRecord>, NavParseError>)
    ensures
        outcome(r, sbas_record(texts(lines@), satellite_id, utf8(sat@), layout)),
{
    let ghost all = texts(lines@);
    if lines.len() < 4 {
        return Err(NavParseError::truncated(sat));
    }
    let mut departures: Vec<NavParseError> = Vec::new();
    assert(faults(departures@) =~= Seq::empty());
    check_extra_lines(lines, 4, sat, &mut departures);
    let epoch = match parse_record_epoch(
        lines[0],
        layout,
        sat,
        "epoch",
        CivilSecondPolicy::Continuous,
    ) {
        Ok(epoch) => epoch,
        Err(e) => {
            return Err(e);
        },
    };
    let required: [(usize, &'static str); 12] = [
        (0, "af0"),
        (1, "af1"),
        (3, "x"),
        (7, "y"),
        (11, "z"),
        (4, "vx"),
        (8, "vy"),
        (12, "vz"),
        (5, "ax"),
        (9, "ay"),
        (13, "az"),
        (6, "health"),
    ];
    assert(required@ =~= sbas_required());
    if let Some(field) = first_missing(lines, layout, &required) {
        return Err(NavParseError::bad(sat, field));
    }
    proof {
        assert forall|k: int| 0 <= k < 12 implies value_at(
            all,
            layout,
            (#[trigger] sbas_required()[k]).0 as int,
        ) is Some by {
            assert(required@[k] == sbas_required()[k]);
        }
        lemma_required_given(all, layout);
    }
    let message_frame_time_s = stated_field(
        raw_record_field(lines, layout, 2),
        "transmission time",
        sat,
        &mut departures,
    );
    let ura_m = stated_field(
        raw_record_field(lines, layout, 10),
        "accuracy code",
        sat,
        &mut departures,
    );
    let iodn = stated_field(raw_record_field(lines, layout, 14), "iodn", sat, &mut departures);
    assert(faults(departures@) =~= sbas_departures(all, layout, utf8(sat@)));
    Ok(
        Decoded {
            value: SbasRecord {
                satellite_id,
                epoch,
                af0_s: given_field(lines, layout, 0),
                af1_s_s: given_field(lines, layout, 1),
                message_frame_time_s,
                pos_m: vector_of(lines, layout, 3),
                vel_m_s: vector_of(lines, layout, 4),
                acc_m_s2: vector_of(lines, layout, 5),
                health: given_field(lines, layout, 6),
                ura_m,
                iodn,
            },
            departures,
        },
    )
}

} // verus!

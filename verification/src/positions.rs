//! Where a record states its values: the columns of its lines that each value is read from.

use vstd::prelude::*;

use crate::cnav::{cnav_record, cnav_tail, int_at, unavailable};
use crate::decimal::{
    decimal_of, digit_count, lemma_digit_count, lemma_pow10_monotone, lemma_pow10_values, pow10,
    Decimal,
};
use crate::epoch::native_total;
use crate::error::Fault;
use crate::fields::{
    adjusted_week, field_count, given, lemma_missing_none, missing, raw_at, record_epoch, scale_of,
    stated_value, value_at, week_and_tow, CivilSecondPolicy, Layout,
};
use crate::frames::{
    drop_blanks, frame_readable, ion_count, ion_frame, ion_kind, ion_lines, ion_model, ion_value,
    ion_values, offset_frame, orientation_frame, IonFrame, IonKind, IonosphereModel,
};
use crate::geo::{sbas_record, sbas_required};
use crate::glonass::{glonass_record, glonass_required, thousandfold, vector_at};
use crate::id::{GnssSatelliteId, GnssSystem};
use crate::keplerian::{clock_time, keplerian_fit, keplerian_record, keplerian_required};
use crate::record::{positive, KlobucharAlphaBeta, NavMessage, NavVersion};
use crate::text::{blank, columns, text_at, trim_of, utf8};
use crate::time::{
    seconds_of, week_epoch_day, GnssWeekTow, NavEpoch, TimeScale, J2000_DAY, SECONDS_PER_DAY,
};

verus! {

/// The blank columns before the first value of an orbit line: three in RINEX 2, four else.
pub open spec fn margin(layout: Layout) -> int {
    if layout is V2 {
        3
    } else {
        4
    }
}

/// The number in the nineteen columns of a line from `from` on; none where there is no such line.
pub open spec fn number_in(lines: Seq<Seq<u8>>, line: int, from: int) -> Option<Decimal> {
    if line < lines.len() {
        stated_value(columns(lines[line], from, from + 19))
    } else {
        None
    }
}

/// The value of a field is the number in its columns: three fields on the first line after the
/// margin and nineteen columns of epoch, and four on each line after.
pub proof fn lemma_value_columns(lines: Seq<Seq<u8>>, layout: Layout, index: int)
    requires
        0 <= index,
    ensures
        value_at(lines, layout, index) == (if index < 3 {
            number_in(lines, 0, margin(layout) + 19 + 19 * index)
        } else {
            number_in(lines, 1 + (index - 3) / 4, margin(layout) + 19 * ((index - 3) % 4))
        }),
{
    reveal(raw_at);
    reveal(stated_value);
    assert(columns(Seq::<u8>::empty(), 0, 0) =~= Seq::empty());
    lemma_nothing_stated();
}

/// No text states no number.
pub proof fn lemma_nothing_stated()
    ensures
        stated_value(Seq::<u8>::empty()) is None,
        forall|raw: Seq<u8>| #[trigger] blank(raw) ==> stated_value(raw) is None,
{
    reveal(stated_value);
    reveal(crate::decimal::number);
    let none = Seq::<u8>::empty();
    assert(crate::text::trim_of(none) =~= none);
    assert(crate::decimal::number(none) is None);
    assert forall|raw: Seq<u8>| #[trigger] blank(raw) implies stated_value(raw) is None by {
        assert(crate::text::trim_of(raw) =~= none);
    }
}

/// Field `k` of line BROADCAST ORBIT-`n`.
pub open spec fn orbit(lines: Seq<Seq<u8>>, layout: Layout, n: int, k: int) -> Option<Decimal> {
    number_in(lines, n, margin(layout) + 19 * (k - 1))
}

/// Field `k` of the first line, after the epoch.
pub open spec fn clock_field(lines: Seq<Seq<u8>>, layout: Layout, k: int) -> Option<Decimal> {
    number_in(lines, 0, margin(layout) + 19 * k)
}

/// The values of the first eight lines by line and field.
pub proof fn lemma_orbit_fields(lines: Seq<Seq<u8>>, layout: Layout)
    ensures
        forall|k: int|
            1 <= k <= 3 ==> #[trigger] clock_field(lines, layout, k) == value_at(
                lines,
                layout,
                k - 1,
            ),
        forall|n: int, k: int|
            1 <= n && 1 <= k <= 4 ==> #[trigger] orbit(lines, layout, n, k) == value_at(
                lines,
                layout,
                4 * n + k - 2,
            ),
{
    assert forall|k: int| 1 <= k <= 3 implies #[trigger] clock_field(lines, layout, k) == value_at(
        lines,
        layout,
        k - 1,
    ) by {
        lemma_value_columns(lines, layout, k - 1);
    }
    assert forall|n: int, k: int| 1 <= n && 1 <= k <= 4 implies #[trigger] orbit(
        lines,
        layout,
        n,
        k,
    ) == value_at(lines, layout, 4 * n + k - 2) by {
        let index = 4 * n + k - 2;
        lemma_value_columns(lines, layout, index);
        assert((index - 3) / 4 == n - 1 && (index - 3) % 4 == k - 1);
    }
}

/// A Keplerian record's orbit is in the columns of its format: each element of the field of the
/// line that RINEX gives it, `Cuc` the first and `Cus` the third of BROADCAST ORBIT-2.
pub proof fn law_keplerian_elements(
    lines: Seq<Seq<u8>>,
    satellite_id: GnssSatelliteId,
    sat: Seq<u8>,
    named: Option<NavMessage>,
    version: NavVersion,
    layout: Layout,
)
    requires
        keplerian_record(lines, satellite_id, sat, named, version, layout) is Ok,
    ensures
        ({
            let e = keplerian_record(
                lines,
                satellite_id,
                sat,
                named,
                version,
                layout,
            )->Ok_0.0.elements;
            &&& lines.len() >= 8
            &&& orbit(lines, layout, 1, 2) == Some(e.crs)
            &&& orbit(lines, layout, 1, 3) == Some(e.delta_n)
            &&& orbit(lines, layout, 1, 4) == Some(e.m0)
            &&& orbit(lines, layout, 2, 1) == Some(e.cuc)
            &&& orbit(lines, layout, 2, 2) == Some(e.e)
            &&& orbit(lines, layout, 2, 3) == Some(e.cus)
            &&& orbit(lines, layout, 2, 4) == Some(e.sqrt_a)
            &&& orbit(lines, layout, 3, 1) == Some(e.toe_sow)
            &&& orbit(lines, layout, 3, 2) == Some(e.cic)
            &&& orbit(lines, layout, 3, 3) == Some(e.omega0)
            &&& orbit(lines, layout, 3, 4) == Some(e.cis)
            &&& orbit(lines, layout, 4, 1) == Some(e.i0)
            &&& orbit(lines, layout, 4, 2) == Some(e.crc)
            &&& orbit(lines, layout, 4, 3) == Some(e.omega)
            &&& orbit(lines, layout, 4, 4) == Some(e.omega_dot)
            &&& orbit(lines, layout, 5, 1) == Some(e.idot)
        }),
{
    reveal(keplerian_record);
    lemma_orbit_fields(lines, layout);
    lemma_required(lines, layout);
}

/// The fields a Keplerian record has to state are stated.
proof fn lemma_required(lines: Seq<Seq<u8>>, layout: Layout)
    requires
        missing(lines, layout, keplerian_required()) is None,
    ensures
        forall|i: int| 0 <= i <= 2 || 4 <= i <= 19 || i == 21 ==> #[trigger] value_at(
            lines,
            layout,
            i,
        ) is Some,
{
    let r = keplerian_required();
    assert forall|i: int| 0 <= i <= 2 || 4 <= i <= 19 || i == 21 implies #[trigger] value_at(
        lines,
        layout,
        i,
    ) is Some by {
        let k: int = if i <= 2 {
            16 + i
        } else if i == 21 {
            19
        } else {
            i - 4
        };
        assert(r[k].0 == i);
        lemma_missing_none(lines, layout, r, k);
    }
}

/// A Keplerian record's clock, week, issue, accuracy, health and group delays are in the columns of
/// its format, and so is what it states beside.
pub proof fn law_keplerian_status(
    lines: Seq<Seq<u8>>,
    satellite_id: GnssSatelliteId,
    sat: Seq<u8>,
    named: Option<NavMessage>,
    version: NavVersion,
    layout: Layout,
)
    requires
        keplerian_record(lines, satellite_id, sat, named, version, layout) is Ok,
    ensures
        ({
            let r = keplerian_record(lines, satellite_id, sat, named, version, layout)->Ok_0.0;
            let system = satellite_id.system;
            let gd = r.group_delays;
            let third = orbit(lines, layout, 6, 3);
            let fourth = orbit(lines, layout, 6, 4);
            &&& r.satellite_id == satellite_id
            &&& clock_field(lines, layout, 1) == Some(r.clock.af0)
            &&& clock_field(lines, layout, 2) == Some(r.clock.af1)
            &&& clock_field(lines, layout, 3) == Some(r.clock.af2)
            &&& orbit(lines, layout, 1, 1) matches Some(d) && (d.integer() matches Some(n)
                ==> r.issue_of_data matches Some(issue) && issue.issue == n && issue.message
                == r.message)
            &&& orbit(lines, layout, 5, 3) matches Some(d) && (d.integer() matches Some(n)
                ==> r.week == n)
            &&& orbit(lines, layout, 6, 1) == r.sv_accuracy_m
            &&& orbit(lines, layout, 6, 2) == Some(r.sv_health)
            &&& gd.gps_tgd_s == (if system is Gps || system is Qzss || system is Navic {
                third
            } else {
                None
            })
            &&& gd.galileo_bgd_e5a_e1_s == (if system is Galileo {
                third
            } else {
                None
            })
            &&& gd.galileo_bgd_e5b_e1_s == (if system is Galileo {
                fourth
            } else {
                None
            })
            &&& gd.beidou_tgd1_s == (if system is BeiDou {
                third
            } else {
                None
            })
            &&& gd.beidou_tgd2_s == (if system is BeiDou {
                fourth
            } else {
                None
            })
            &&& gd.cnav_isc_l1ca_s is None && gd.cnav_isc_l2c_s is None && gd.cnav_isc_l5i5_s
                is None && gd.cnav_isc_l5q5_s is None && gd.cnav_isc_l1cd_s is None
                && gd.cnav_isc_l1cp_s is None
            &&& r.cnav is None
            &&& r.stated.orbit5_field2 == orbit(lines, layout, 5, 2)
            &&& r.stated.orbit5_field4 == orbit(lines, layout, 5, 4)
            &&& system is Gps || system is Qzss || system is Navic ==> r.stated.orbit6_field4
                == fourth
            &&& r.stated.transmission_time_sow == orbit(lines, layout, 7, 1)
            &&& r.stated.orbit7_field2 == orbit(lines, layout, 7, 2)
            &&& r.stated.orbit7_field3 == orbit(lines, layout, 7, 3)
            &&& r.stated.orbit7_field4 == orbit(lines, layout, 7, 4)
        }),
{
    reveal(keplerian_record);
    lemma_orbit_fields(lines, layout);
    lemma_required(lines, layout);
    lemma_nothing_stated();
}

/// The kilometers that a field states, in meters: the same digits, three places up.
pub open spec fn meters_of(d: Option<Decimal>, m: Decimal) -> bool {
    d matches Some(km) && m.negative == (km.negative && km.digits > 0) && m.digits == km.digits && (
    km.digits > 0 ==> m.exponent == km.exponent + 3)
}

/// A vector over three lines: one field of each, in kilometers.
pub open spec fn vector_in(lines: Seq<Seq<u8>>, layout: Layout, k: int, v: [Decimal; 3]) -> bool {
    &&& meters_of(orbit(lines, layout, 1, k), v[0])
    &&& meters_of(orbit(lines, layout, 2, k), v[1])
    &&& meters_of(orbit(lines, layout, 3, k), v[2])
}

/// The vectors of a record are the fields of its three lines.
proof fn lemma_vector_in(lines: Seq<Seq<u8>>, layout: Layout, k: int)
    requires
        1 <= k <= 3,
        value_at(lines, layout, k + 2) is Some,
        value_at(lines, layout, k + 6) is Some,
        value_at(lines, layout, k + 10) is Some,
    ensures
        vector_in(lines, layout, k, vector_at(lines, layout, k + 2)),
{
    reveal(vector_at);
    lemma_orbit_fields(lines, layout);
    lemma_read_wf(lines, layout, k + 2);
    lemma_read_wf(lines, layout, k + 6);
    lemma_read_wf(lines, layout, k + 10);
    let v = vector_at(lines, layout, k + 2);
    assert(orbit(lines, layout, 1, k) == value_at(lines, layout, k + 2));
    assert(orbit(lines, layout, 2, k) == value_at(lines, layout, k + 6));
    assert(orbit(lines, layout, 3, k) == value_at(lines, layout, k + 10));
    assert(v[0] == thousandfold(given(lines, layout, k + 2)));
    assert(v[1] == thousandfold(given(lines, layout, k + 6)));
    assert(v[2] == thousandfold(given(lines, layout, k + 10)));
}

/// A value read has the one form that numbers have.
proof fn lemma_read_wf(lines: Seq<Seq<u8>>, layout: Layout, index: int)
    requires
        0 <= index,
    ensures
        value_at(lines, layout, index) matches Some(d) ==> d.wf(),
{
    crate::reread::lemma_raw_short(lines, layout, index);
    crate::reread::lemma_stated_wf(raw_at(lines, layout, index));
}

/// A GLONASS record states its clock on the first line, and position, velocity and acceleration, in
/// kilometers, in the first three fields of the three lines after it; health, frequency channel and
/// age are their fourth fields, and the line after them holds the flags and the delay.
pub proof fn law_glonass_columns(
    lines: Seq<Seq<u8>>,
    satellite_id: GnssSatelliteId,
    sat: Seq<u8>,
    version: NavVersion,
    layout: Layout,
)
    requires
        glonass_record(lines, satellite_id, sat, version, layout) is Ok,
    ensures
        ({
            let r = glonass_record(lines, satellite_id, sat, version, layout)->Ok_0.0;
            let fourth = lines.len() >= 5 && (version.major > 3 || version.major == 3
                && version.minor >= 5);
            &&& lines.len() >= 4
            &&& r.satellite_id == satellite_id
            &&& clock_field(lines, layout, 1) == Some(r.clk_bias)
            &&& clock_field(lines, layout, 2) == Some(r.gamma_n)
            &&& clock_field(lines, layout, 3) == r.message_frame_time_s
            &&& vector_in(lines, layout, 1, r.pos_m)
            &&& vector_in(lines, layout, 2, r.vel_m_s)
            &&& vector_in(lines, layout, 3, r.acc_m_s2)
            &&& orbit(lines, layout, 1, 4) == Some(r.sv_health)
            &&& orbit(lines, layout, 2, 4) matches Some(d) && (d.integer() matches Some(n)
                ==> r.stated_freq_channel == n && r.freq_channel == (if n > 128 {
                n - 256
            } else {
                n
            }))
            &&& orbit(lines, layout, 3, 4) == r.age_days
            &&& r.status_flags == (if fourth {
                orbit(lines, layout, 4, 1)
            } else {
                None
            })
            &&& r.l1_l2_group_delay_field_s == (if fourth {
                orbit(lines, layout, 4, 2)
            } else {
                None
            })
            &&& r.urai == (if fourth {
                orbit(lines, layout, 4, 3)
            } else {
                None
            })
            &&& r.health_flags == (if fourth {
                orbit(lines, layout, 4, 4)
            } else {
                None
            })
        }),
{
    reveal(glonass_record);
    lemma_orbit_fields(lines, layout);
    let required = glonass_required();
    assert forall|k: int| 0 <= k < required.len() implies value_at(
        lines,
        layout,
        (#[trigger] required[k]).0 as int,
    ) is Some by {
        lemma_missing_none(lines, layout, required, k);
    }
    assert(required[0].0 == 0 && required[1].0 == 1 && required[2].0 == 3 && required[3].0 == 7
        && required[4].0 == 11 && required[5].0 == 4 && required[6].0 == 8 && required[7].0 == 12
        && required[8].0 == 5 && required[9].0 == 9 && required[10].0 == 13 && required[11].0 == 6
        && required[12].0 == 10);
    lemma_vector_in(lines, layout, 1);
    lemma_vector_in(lines, layout, 2);
    lemma_vector_in(lines, layout, 3);
}

/// A GLONASS record's reference epoch is the quarter of an hour nearest to the epoch it states, the
/// later of two as near.
pub proof fn law_glonass_reference(
    lines: Seq<Seq<u8>>,
    satellite_id: GnssSatelliteId,
    sat: Seq<u8>,
    version: NavVersion,
    layout: Layout,
)
    requires
        glonass_record(lines, satellite_id, sat, version, layout) is Ok,
    ensures
        ({
            let r = glonass_record(lines, satellite_id, sat, version, layout)->Ok_0.0;
            let stated = record_epoch(lines[0], layout, CivilSecondPolicy::UtcLike);
            &&& stated matches Some(epoch) && r.epoch_utc_j2000_s == epoch.j2000()
            &&& -9000000000000000000 < r.epoch_utc_j2000_s.whole < 9000000000000000000 ==> {
                &&& r.toe_utc_j2000_s as int % 900 == 0
                &&& -450 < r.toe_utc_j2000_s - r.epoch_utc_j2000_s.whole <= 450
            }
        }),
{
    reveal(glonass_record);
}

/// An SBAS record states its clock on the first line, and position, velocity and acceleration, in
/// kilometers, in the first three fields of the three lines after it; health, accuracy and issue are
/// their fourth fields.
pub proof fn law_sbas_columns(
    lines: Seq<Seq<u8>>,
    satellite_id: GnssSatelliteId,
    sat: Seq<u8>,
    layout: Layout,
)
    requires
        sbas_record(lines, satellite_id, sat, layout) is Ok,
    ensures
        ({
            let r = sbas_record(lines, satellite_id, sat, layout)->Ok_0.0;
            &&& lines.len() >= 4
            &&& r.satellite_id == satellite_id
            &&& record_epoch(lines[0], layout, CivilSecondPolicy::Continuous) == Some(r.epoch)
            &&& clock_field(lines, layout, 1) == Some(r.af0_s)
            &&& clock_field(lines, layout, 2) == Some(r.af1_s_s)
            &&& clock_field(lines, layout, 3) == r.message_frame_time_s
            &&& vector_in(lines, layout, 1, r.pos_m)
            &&& vector_in(lines, layout, 2, r.vel_m_s)
            &&& vector_in(lines, layout, 3, r.acc_m_s2)
            &&& orbit(lines, layout, 1, 4) == Some(r.health)
            &&& orbit(lines, layout, 2, 4) == r.ura_m
            &&& orbit(lines, layout, 3, 4) == r.iodn
        }),
{
    reveal(sbas_record);
    lemma_orbit_fields(lines, layout);
    let required = sbas_required();
    assert forall|k: int| 0 <= k < required.len() implies value_at(
        lines,
        layout,
        (#[trigger] required[k]).0 as int,
    ) is Some by {
        lemma_missing_none(lines, layout, required, k);
    }
    assert(required[0].0 == 0 && required[1].0 == 1 && required[2].0 == 3 && required[3].0 == 7
        && required[4].0 == 11 && required[5].0 == 4 && required[6].0 == 8 && required[7].0 == 12
        && required[8].0 == 5 && required[9].0 == 9 && required[10].0 == 13 && required[11].0 == 6);
    lemma_vector_in(lines, layout, 1);
    lemma_vector_in(lines, layout, 2);
    lemma_vector_in(lines, layout, 3);
}

/// Value `i` of an ionosphere frame: the first three after the epoch, four on each line after.
pub open spec fn ion_number(body: Seq<Seq<u8>>, i: int) -> Option<Decimal> {
    if i < 3 {
        number_in(body, 0, 23 + 19 * i)
    } else if i < 7 {
        number_in(body, 1, 4 + 19 * (i - 3))
    } else {
        number_in(body, 2, 4 + 19 * (i - 7))
    }
}

/// Whether the four Klobuchar amplitudes and the four periods are the first eight values of a frame.
pub open spec fn klobuchar_in(body: Seq<Seq<u8>>, c: KlobucharAlphaBeta) -> bool {
    forall|i: int|
        0 <= i < 4 ==> ion_number(body, i) == Some(#[trigger] c.alpha[i]) && ion_number(body, i + 4)
            == Some(c.beta[i])
}

/// An ionosphere frame states its coefficients in order, in the columns of its format: the NeQuick-G
/// `ai0`, `ai1` and `ai2` and the disturbance flags, the Klobuchar amplitudes and then the periods,
/// or the nine of BDGIM. Its values are those numbers, up to the last that is stated.
pub proof fn law_ionosphere_columns(
    body: Seq<Seq<u8>>,
    satellite_id: GnssSatelliteId,
    sat: Seq<u8>,
    token: Seq<u8>,
)
    ensures
        ion_frame(body, satellite_id, sat, token) matches Ok(Some((frame, _))) ==> {
            &&& frame.satellite_id == satellite_id
            &&& frame.token == token
            &&& record_epoch(body[0], Layout::V3, CivilSecondPolicy::Continuous) == Some(
                frame.epoch,
            )
            &&& forall|i: int|
                0 <= i < frame.values.len() ==> #[trigger] frame.values[i] == ion_number(body, i)
            &&& match frame.model {
                IonosphereModel::NequickG { coefficients, disturbance_flags } => {
                    &&& satellite_id.system is Galileo
                    &&& ion_number(body, 0) == Some(coefficients.ai0)
                    &&& ion_number(body, 1) == Some(coefficients.ai1)
                    &&& ion_number(body, 2) == Some(coefficients.ai2)
                    &&& ion_number(body, 3) == disturbance_flags
                },
                IonosphereModel::Klobuchar { coefficients, region_code } => {
                    &&& klobuchar_in(body, coefficients)
                    &&& ion_number(body, 8) == region_code
                },
                IonosphereModel::Bdgim(coefficients) => {
                    &&& satellite_id.system is BeiDou
                    &&& forall|i: int|
                        0 <= i < 9 ==> ion_number(body, i) == Some(#[trigger] coefficients[i])
                },
            }
        },
{
    if let Ok(Some((frame, _))) = ion_frame(body, satellite_id, sat, token) {
        lemma_ionosphere_columns(body, satellite_id, sat, token, frame);
    }
}

/// The values of an ionosphere frame by columns.
proof fn lemma_ionosphere_columns(
    body: Seq<Seq<u8>>,
    satellite_id: GnssSatelliteId,
    sat: Seq<u8>,
    token: Seq<u8>,
    frame: IonFrame,
)
    requires
        ion_frame(body, satellite_id, sat, token) matches Ok(Some((read, _))) && read == frame,
    ensures
        forall|i: int|
            0 <= i < frame.values.len() ==> #[trigger] frame.values[i] == ion_number(body, i),
        match frame.model {
            IonosphereModel::NequickG { coefficients, disturbance_flags } => {
                &&& satellite_id.system is Galileo
                &&& ion_number(body, 0) == Some(coefficients.ai0)
                &&& ion_number(body, 1) == Some(coefficients.ai1)
                &&& ion_number(body, 2) == Some(coefficients.ai2)
                &&& ion_number(body, 3) == disturbance_flags
            },
            IonosphereModel::Klobuchar { coefficients, region_code } => {
                &&& klobuchar_in(body, coefficients)
                &&& ion_number(body, 8) == region_code
            },
            IonosphereModel::Bdgim(coefficients) => {
                &&& satellite_id.system is BeiDou
                &&& forall|i: int|
                    0 <= i < 9 ==> ion_number(body, i) == Some(#[trigger] coefficients[i])
            },
        },
{
    let kind = ion_kind(satellite_id.system, token)->0;
    let values = ion_values(body, kind);
    lemma_ion_values(body, kind);
    assert forall|i: int| 0 <= i < values.len() implies #[trigger] values[i] == ion_number(
        body,
        i,
    ) by {
        assert(ion_value(values, i) == values[i]);
    }
    assert(frame.values == values);
    match frame.model {
        IonosphereModel::NequickG { coefficients, disturbance_flags } => {
            assert(ion_value(values, 0) is Some && ion_value(values, 1) is Some && ion_value(
                values,
                2,
            ) is Some);
            assert(ion_value(values, 3) == ion_number(body, 3));
        },
        IonosphereModel::Klobuchar { coefficients, region_code } => {
            assert(ion_value(values, 8) == ion_number(body, 8));
            assert forall|i: int| 0 <= i < 4 implies ion_number(body, i) == Some(
                #[trigger] coefficients.alpha[i],
            ) && ion_number(body, i + 4) == Some(coefficients.beta[i]) by {
                assert(ion_value(values, i) is Some && ion_value(values, i + 4) is Some);
            }
        },
        IonosphereModel::Bdgim(coefficients) => {
            assert forall|i: int| 0 <= i < 9 implies ion_number(body, i) == Some(
                #[trigger] coefficients[i],
            ) by {
                assert(ion_value(values, i) is Some);
            }
        },
    }
}

/// The values of an ionosphere frame are the numbers in their columns.
proof fn lemma_ion_values(body: Seq<Seq<u8>>, kind: IonKind)
    ensures
        ion_values(body, kind).len() <= ion_count(kind) <= 9,
        forall|i: int|
            0 <= i < ion_count(kind) ==> #[trigger] ion_value(ion_values(body, kind), i) == ion_number(
                body,
                i,
            ),
{
    let values = ion_values(body, kind);
    assert forall|i: int| 0 <= i < 9 implies #[trigger] ion_number(body, i) == value_at(
        body,
        Layout::V3,
        i,
    ) by {
        lemma_value_columns(body, Layout::V3, i);
        if i >= 3 {
            assert((i - 3) / 4 == (if i < 7 {
                0int
            } else {
                1
            }));
        }
    }
    let n = field_count(
        if body.len() < ion_lines(kind) {
            body.len() as int
        } else {
            ion_lines(kind)
        },
    );
    let m = if n < ion_count(kind) {
        n
    } else {
        ion_count(kind)
    };
    let all = Seq::new(m as nat, |i: int| value_at(body, Layout::V3, i));
    lemma_drop_blanks(all);
    assert forall|i: int| 0 <= i < ion_count(kind) implies #[trigger] ion_value(values, i)
        == ion_number(body, i) by {
        assert(ion_number(body, i) == value_at(body, Layout::V3, i));
        if i >= values.len() {
            if i < m {
                assert(all[i] is None);
            } else {
                lemma_value_columns(body, Layout::V3, i);
            }
        } else {
            assert(values[i] == all[i]);
        }
    }
}

/// An ionosphere frame of a message that is decoded is read where its epoch reads, no field of its
/// three lines is unreadable and the values of its model are stated: three for Galileo, nine for the
/// BeiDou global model and else eight.
pub proof fn law_ionosphere_accepted(
    body: Seq<Seq<u8>>,
    satellite_id: GnssSatelliteId,
    sat: Seq<u8>,
    token: Seq<u8>,
)
    requires
        ion_frame(body, satellite_id, sat, token) != Ok::<Option<(IonFrame, Seq<Fault>)>, Fault>(
            None,
        ),
        body.len() > 0,
        record_epoch(body[0], Layout::V3, CivilSecondPolicy::Continuous) is Some,
        frame_readable(body, 11),
        forall|i: int|
            0 <= i < (if satellite_id.system is Galileo {
                3int
            } else if satellite_id.system is BeiDou && token == utf8("CNVX"@) {
                9
            } else {
                8
            }) ==> (#[trigger] ion_number(body, i)) is Some,
    ensures
        ion_frame(body, satellite_id, sat, token) matches Ok(Some(_)),
{
    law_ionosphere_messages(body, satellite_id, sat, token);
    let kind = ion_kind(satellite_id.system, token)->0;
    lemma_ion_values(body, kind);
    let values = ion_values(body, kind);
    reveal_strlit("D1D2");
    reveal_strlit("CNVX");
    crate::text::lemma_utf8_ascii("D1D2"@);
    crate::text::lemma_utf8_ascii("CNVX"@);
    assert(utf8("D1D2"@)[0] == 68 && utf8("CNVX"@)[0] == 67);
    assert forall|i: int|
        0 <= i < (if kind is Nequick {
            3int
        } else if kind is Bdgim {
            9
        } else {
            8
        }) implies (#[trigger] ion_value(values, i)) is Some by {
        assert(ion_value(values, i) == ion_number(body, i));
    }
    assert(ion_model(values, kind) is Some);
}

/// Dropping blanks at the end drops nothing that is stated.
proof fn lemma_drop_blanks(values: Seq<Option<Decimal>>)
    ensures
        drop_blanks(values).len() <= values.len(),
        forall|i: int|
            0 <= i < drop_blanks(values).len() ==> #[trigger] drop_blanks(values)[i] == values[i],
        forall|i: int|
            drop_blanks(values).len() <= i < values.len() ==> (#[trigger] values[i]) is None,
    decreases values.len(),
{
    if values.len() > 0 && values.last() is None {
        let head = values.drop_last();
        lemma_drop_blanks(head);
        assert forall|i: int| drop_blanks(values).len() <= i < values.len() implies (
        #[trigger] values[i]) is None by {
            if i < head.len() {
                assert(head[i] == values[i]);
            }
        }
    }
}

/// A system time offset frame states its type in columns 25 to 42 of the first line, the SBAS provider
/// in 44 to 61 and the UTC identifier in 63 to 80, and on the second line the transmission time and
/// `a0`, `a1` and `a2`, nineteen columns each.
pub proof fn law_offset_columns(
    body: Seq<Seq<u8>>,
    satellite_id: GnssSatelliteId,
    sat: Seq<u8>,
    token: Seq<u8>,
)
    ensures
        offset_frame(body, satellite_id, sat, token) matches Ok((frame, _)) ==> {
            &&& body.len() >= 2
            &&& frame.satellite_id == satellite_id
            &&& frame.token == token
            &&& record_epoch(body[0], Layout::V3, CivilSecondPolicy::Continuous) == Some(
                frame.epoch,
            )
            &&& frame.code == trim_of(columns(body[0], 24, 42)) && frame.code.len() > 0
            &&& frame.sbas_id == text_at(body[0], 43, 61)
            &&& frame.utc_id == text_at(body[0], 62, 80)
            &&& number_in(body, 1, 4) == Some(frame.sent)
            &&& number_in(body, 1, 23) == Some(frame.a0)
            &&& number_in(body, 1, 42) == frame.a1
            &&& number_in(body, 1, 61) == frame.a2
        },
{
    lemma_value_columns(body, Layout::V3, 3);
    lemma_value_columns(body, Layout::V3, 4);
    lemma_value_columns(body, Layout::V3, 5);
    lemma_value_columns(body, Layout::V3, 6);
}

/// An Earth orientation frame states pole x and its two rates after the epoch on the first line, pole
/// y and its two rates from the second field of the second line on, and the transmission time, UT1 -
/// UTC and its two rates on the third.
pub proof fn law_orientation_columns(
    body: Seq<Seq<u8>>,
    satellite_id: GnssSatelliteId,
    sat: Seq<u8>,
    token: Seq<u8>,
)
    ensures
        orientation_frame(body, satellite_id, sat, token) matches Ok((frame, _)) ==> {
            &&& body.len() >= 3
            &&& frame.satellite_id == satellite_id
            &&& frame.token == token
            &&& record_epoch(body[0], Layout::V3, CivilSecondPolicy::Continuous) == Some(
                frame.epoch,
            )
            &&& frame.xp == seq![
                number_in(body, 0, 23),
                number_in(body, 0, 42),
                number_in(body, 0, 61),
            ]
            &&& frame.yp == seq![
                number_in(body, 1, 23),
                number_in(body, 1, 42),
                number_in(body, 1, 61),
            ]
            &&& number_in(body, 2, 4) == Some(frame.sent)
            &&& frame.dut1 == seq![
                number_in(body, 2, 23),
                number_in(body, 2, 42),
                number_in(body, 2, 61),
            ]
        },
{
    assert forall|i: int| 0 <= i < 11 implies #[trigger] value_at(body, Layout::V3, i) == (if i < 3 {
        number_in(body, 0, 23 + 19 * i)
    } else if i < 7 {
        number_in(body, 1, 4 + 19 * (i - 3))
    } else {
        number_in(body, 2, 4 + 19 * (i - 7))
    }) by {
        lemma_value_columns(body, Layout::V3, i);
        if i >= 3 {
            assert((i - 3) / 4 == (if i < 7 {
                0int
            } else {
                1
            }));
        }
    }
    if let Ok((frame, _)) = orientation_frame(body, satellite_id, sat, token) {
        assert(frame.xp =~= seq![
            number_in(body, 0, 23),
            number_in(body, 0, 42),
            number_in(body, 0, 61),
        ]);
        assert(frame.yp =~= seq![
            number_in(body, 1, 23),
            number_in(body, 1, 42),
            number_in(body, 1, 61),
        ]);
        assert(frame.dut1 =~= seq![
            number_in(body, 2, 23),
            number_in(body, 2, 42),
            number_in(body, 2, 61),
        ]);
    }
}

/// A Galileo ionosphere frame is decoded of the message `IFNV`, a GPS or QZSS one of `LNAV` and
/// `CNVX`, a BeiDou one of `D1D2` and `CNVX`, and a NavIC one of `LNAV`; no other is.
pub proof fn law_ionosphere_messages(
    body: Seq<Seq<u8>>,
    satellite_id: GnssSatelliteId,
    sat: Seq<u8>,
    token: Seq<u8>,
)
    ensures
        ({
            let read = ion_frame(body, satellite_id, sat, token);
            let lnav = token == utf8("LNAV"@);
            let cnvx = token == utf8("CNVX"@);
            let known = match satellite_id.system {
                GnssSystem::Galileo => token == utf8("IFNV"@),
                GnssSystem::Gps | GnssSystem::Qzss => lnav || cnvx,
                GnssSystem::BeiDou => token == utf8("D1D2"@) || cnvx,
                GnssSystem::Navic => lnav,
                _ => false,
            };
            &&& read == Ok::<Option<(IonFrame, Seq<Fault>)>, Fault>(None) <==> !known
            &&& read matches Ok(Some((frame, _))) ==> match frame.model {
                IonosphereModel::NequickG { .. } => satellite_id.system is Galileo,
                IonosphereModel::Bdgim(_) => satellite_id.system is BeiDou && cnvx,
                IonosphereModel::Klobuchar { .. } => !(satellite_id.system is Galileo) && !(
                satellite_id.system is BeiDou && cnvx),
            }
        }),
{
    reveal_strlit("D1D2");
    reveal_strlit("CNVX");
    crate::text::lemma_utf8_ascii("D1D2"@);
    crate::text::lemma_utf8_ascii("CNVX"@);
    assert(utf8("D1D2"@)[0] == 68 && utf8("CNVX"@)[0] == 67);
}

/// A CNAV record's orbit is in the columns of its format, with the axis rate in the place of the
/// issue; the propagation time is in the place of `toe`, which is that of the epoch.
pub proof fn law_cnav_elements(
    lines: Seq<Seq<u8>>,
    satellite_id: GnssSatelliteId,
    sat: Seq<u8>,
    message: NavMessage,
)
    requires
        cnav_record(lines, satellite_id, sat, message) is Ok,
    ensures
        ({
            let r = cnav_record(lines, satellite_id, sat, message)->Ok_0.0;
            let e = r.elements;
            let v3 = Layout::V3;
            &&& r.satellite_id == satellite_id && r.message == message
            &&& clock_field(lines, v3, 1) == Some(r.clock.af0)
            &&& clock_field(lines, v3, 2) == Some(r.clock.af1)
            &&& clock_field(lines, v3, 3) == Some(r.clock.af2)
            &&& orbit(lines, v3, 1, 2) == Some(e.crs)
            &&& orbit(lines, v3, 1, 3) == Some(e.delta_n)
            &&& orbit(lines, v3, 1, 4) == Some(e.m0)
            &&& orbit(lines, v3, 2, 1) == Some(e.cuc)
            &&& orbit(lines, v3, 2, 2) == Some(e.e)
            &&& orbit(lines, v3, 2, 3) == Some(e.cus)
            &&& orbit(lines, v3, 2, 4) == Some(e.sqrt_a)
            &&& orbit(lines, v3, 3, 2) == Some(e.cic)
            &&& orbit(lines, v3, 3, 3) == Some(e.omega0)
            &&& orbit(lines, v3, 3, 4) == Some(e.cis)
            &&& orbit(lines, v3, 4, 1) == Some(e.i0)
            &&& orbit(lines, v3, 4, 2) == Some(e.crc)
            &&& orbit(lines, v3, 4, 3) == Some(e.omega)
            &&& orbit(lines, v3, 4, 4) == Some(e.omega_dot)
            &&& orbit(lines, v3, 5, 1) == Some(e.idot)
            &&& r.cnav matches Some(c) && orbit(lines, v3, 1, 1) == Some(c.adot_m_s) && orbit(
                lines,
                v3,
                5,
                2,
            ) == Some(c.delta_n0_dot_rad_s2)
            &&& r.toe == r.toc && r.issue_of_data is None
        }),
{
    reveal(cnav_record);
    lemma_orbit_fields(lines, Layout::V3);
}

/// Whether a number is an integer as a field that holds one states it.
pub open spec fn integer_in(d: Option<Decimal>, n: int) -> bool {
    d matches Some(d) && (d.integer() matches Some(m) ==> m == n)
}

/// The delay that stands for none is -4096 times 2^-35 s, which in thirteen digits is
/// -1.192092895508e-7.
pub proof fn law_unavailable_delay(d: Decimal)
    requires
        d.wf(),
        d.digits < 10000000000000,
    ensures
        unavailable(d) <==> d.negative && d.digits == 1192092895508 && d.exponent == -19,
{
    lemma_pow10_values();
    if d.digits > 0 {
        let digits = d.digits as nat;
        let c = digit_count(digits);
        lemma_digit_count(digits);
        if c > 13 {
            lemma_pow10_monotone(13, (c - 1) as nat);
        }
        let k = (13 - c) as nat;
        let m = digits * pow10(k);
        if k > 0 {
            let p = pow10((k - 1) as nat);
            assert(pow10(k) == 10 * p);
            assert(digits * (10 * p) == 10 * (digits * p)) by (nonlinear_arith);
        } else {
            assert(digits * pow10(0) == digits) by (nonlinear_arith)
                requires
                    pow10(0) == 1,
            ;
        }
        if digits == 1192092895508 && c < 13 {
            lemma_pow10_monotone(c, 12);
        }
    }
}

/// The delay in a field: the number, unless it is the one that stands for no delay.
pub open spec fn delay_in(field: Option<Decimal>, delay: Option<Decimal>) -> bool {
    match delay {
        Some(d) => field == Some(d) && !unavailable(d),
        None => field matches Some(d) ==> unavailable(d),
    }
}

/// A CNAV record's accuracy indices, health, delays, propagation time and transmission time are in
/// the columns of its format; CNAV-2 has one more line of delays before the last.
#[verifier::spinoff_prover]
#[verifier::rlimit(60)]
pub proof fn law_cnav_status(
    lines: Seq<Seq<u8>>,
    satellite_id: GnssSatelliteId,
    sat: Seq<u8>,
    message: NavMessage,
)
    requires
        cnav_record(lines, satellite_id, sat, message) is Ok,
    ensures
        ({
            let r = cnav_record(lines, satellite_id, sat, message)->Ok_0.0;
            let c = r.cnav->0;
            let gd = r.group_delays;
            let v3 = Layout::V3;
            let second = message is GpsCnav2 || message is QzssCnav2;
            let last: int = if second {
                9
            } else {
                8
            };
            &&& lines.len() > last
            &&& integer_in(orbit(lines, v3, 5, 3), c.ura_ned0_index as int)
            &&& integer_in(orbit(lines, v3, 5, 4), c.ura_ned1_index as int)
            &&& integer_in(orbit(lines, v3, 6, 1), c.ura_ed_index as int)
            &&& orbit(lines, v3, 6, 2) matches Some(d) && (d.integer() matches Some(n) ==> r.sv_health
                == decimal_of(n))
            &&& delay_in(orbit(lines, v3, 6, 3), gd.gps_tgd_s)
            &&& integer_in(orbit(lines, v3, 6, 4), c.ura_ned2_index as int)
            &&& delay_in(orbit(lines, v3, 7, 1), gd.cnav_isc_l1ca_s)
            &&& delay_in(orbit(lines, v3, 7, 2), gd.cnav_isc_l2c_s)
            &&& delay_in(orbit(lines, v3, 7, 3), gd.cnav_isc_l5i5_s)
            &&& delay_in(orbit(lines, v3, 7, 4), gd.cnav_isc_l5q5_s)
            &&& second ==> delay_in(orbit(lines, v3, 8, 1), gd.cnav_isc_l1cd_s)
            &&& second ==> delay_in(orbit(lines, v3, 8, 2), gd.cnav_isc_l1cp_s)
            &&& !second ==> gd.cnav_isc_l1cd_s is None && gd.cnav_isc_l1cp_s is None
            &&& orbit(lines, v3, last, 1) == Some(c.transmission_time_sow)
            &&& c.flags matches Some(n) ==> (orbit(lines, v3, last, 3) matches Some(d)
                ==> integer_in(Some(d), n as int))
            &&& c.top.system is Gpst
            &&& orbit(lines, v3, 3, 1) matches Some(top) && orbit(lines, v3, last, 2) matches Some(
                d,
            ) && (d.integer() matches Some(week) ==> native_total(c.top) == (week * 604800
                - 630763200) * 1000000000000000000000000000000 + seconds_of(top).total())
            &&& gd.galileo_bgd_e5a_e1_s is None && gd.galileo_bgd_e5b_e1_s is None
                && gd.beidou_tgd1_s is None && gd.beidou_tgd2_s is None
        }),
{
    reveal(cnav_record);
    reveal(stated_value);
    reveal(raw_at);
    lemma_orbit_fields(lines, Layout::V3);
    lemma_nothing_stated();
    let cnav2 = message.cnav2();
    let week = int_at(lines, cnav_tail(cnav2) + 1, 0, u32::MAX as int)->0;
    lemma_carried(
        GnssWeekTow {
            system: TimeScale::Gpst,
            week: week as u32,
            tow_s: seconds_of(value_at(lines, Layout::V3, 11)->0),
        },
    );
}

/// A time carried into the week it falls in is the same instant.
pub proof fn lemma_carried(w: GnssWeekTow)
    ensures
        w.carried() matches Some(c) ==> native_total(c) == native_total(w) && c.system == w.system
            && 0 <= c.tow_s.whole < 604800,
{
    if let Some(c) = w.carried() {
        let k = w.tow_s.whole as int / 604800;
        let q: int = 1000000000000000000000000000000;
        vstd::arithmetic::div_mod::lemma_fundamental_div_mod(w.tow_s.whole as int, 604800);
        assert(c.week == w.week + k && w.tow_s.whole == 604800 * k + c.tow_s.whole);
        let base = (week_epoch_day(w.system) - J2000_DAY) * SECONDS_PER_DAY - 43200;
        assert((c.week * 604800 + base) * q + c.tow_s.whole * q == (w.week * 604800 + base) * q
            + w.tow_s.whole * q);
    }
}

/// Without a message named by a frame marker, the system names it: LNAV for GPS, QZSS and NavIC, D2
/// for the BeiDou satellites 1 to 5 and 59 to 63 and D1 for the others, and for Galileo the data
/// sources in field 2 of BROADCAST ORBIT-5: I/NAV with bit 0 or 2 and F/NAV with bit 1, and where
/// they name both or none, I/NAV with bit 9 and F/NAV with bit 8.
pub proof fn law_keplerian_message(
    lines: Seq<Seq<u8>>,
    satellite_id: GnssSatelliteId,
    sat: Seq<u8>,
    named: Option<NavMessage>,
    version: NavVersion,
    layout: Layout,
)
    requires
        keplerian_record(lines, satellite_id, sat, named, version, layout) is Ok,
    ensures
        ({
            let r = keplerian_record(lines, satellite_id, sat, named, version, layout)->Ok_0.0;
            let prn = satellite_id.prn;
            match named {
                Some(message) => r.message == message,
                None => match satellite_id.system {
                    GnssSystem::Gps => r.message is GpsLnav,
                    GnssSystem::Qzss => r.message is QzssLnav,
                    GnssSystem::Navic => r.message is NavicLnav,
                    GnssSystem::BeiDou => if 1 <= prn <= 5 || 59 <= prn <= 63 {
                        r.message is BeidouD2
                    } else {
                        r.message is BeidouD1
                    },
                    GnssSystem::Galileo => orbit(lines, layout, 5, 2) matches Some(d) && (
                    d.integer() matches Some(n) ==> 0 <= n < 4294967296 && {
                        let inav = n % 2 == 1 || n / 4 % 2 == 1;
                        let fnav = n / 2 % 2 == 1;
                        let e5a = n / 256 % 2 == 1;
                        let e5b = n / 512 % 2 == 1;
                        &&& inav && !fnav ==> r.message is GalileoInav
                        &&& fnav && !inav ==> r.message is GalileoFnav
                        &&& inav == fnav && e5b && !e5a ==> r.message is GalileoInav
                        &&& inav == fnav && e5a && !e5b ==> r.message is GalileoFnav
                        &&& inav == fnav && e5a == e5b ==> r.message is GalileoUnclassified
                    }),
                    _ => true,
                },
            }
        }),
{
    reveal(keplerian_record);
    lemma_orbit_fields(lines, layout);
    if named is None && satellite_id.system is Galileo {
        let d = value_at(lines, layout, 20)->0;
        if let Some(n) = d.integer() {
            lemma_integer_word(d, n);
            let w = d.nearest_word()->0;
            assert(w == n);
            assert((w & 2 != 0) == (w / 2 % 2 == 1)) by (bit_vector);
            assert((w & 5 != 0) == (w % 2 == 1 || w / 4 % 2 == 1)) by (bit_vector);
            assert((w & 256 != 0) == (w / 256 % 2 == 1)) by (bit_vector);
            assert((w & 512 != 0) == (w / 512 % 2 == 1)) by (bit_vector);
        }
    }
}

/// A number that is an integer is the nearest one.
pub proof fn lemma_integer_word(d: Decimal, n: int)
    requires
        d.integer() == Some(n),
    ensures
        d.nearest_word() matches Some(w) ==> w == n,
        0 <= n < 4294967296 ==> d.nearest_word() is Some,
{
    let p = pow10((if d.exponent >= 0 {
        d.exponent as int
    } else {
        -d.exponent
    }) as nat);
    lemma_pow10_monotone(0, (if d.exponent >= 0 {
        d.exponent as int
    } else {
        -d.exponent
    }) as nat);
    if d.exponent >= 0 {
        assert(d.digits * p >= 0) by (nonlinear_arith)
            requires
                p >= 1,
        ;
        if d.negative {
            assert(-(d.digits as int) * p == -(d.digits * p)) by (nonlinear_arith);
        }
    } else {
        let m = d.digits as nat / p;
        vstd::arithmetic::div_mod::lemma_fundamental_div_mod(d.digits as int, p as int);
        assert(d.digits == p * m);
        assert(2 * d.digits + p == m * (2 * p) + p && p < 2 * p) by (nonlinear_arith)
            requires
                d.digits == p * m,
                p >= 1,
        ;
        vstd::arithmetic::div_mod::lemma_fundamental_div_mod_converse(
            2 * d.digits + p,
            2 * p as int,
            m as int,
            p as int,
        );
        assert(d.nearest_magnitude() == m);
        assert(4 * d.digits + p == (2 * m) * (2 * p) + p) by (nonlinear_arith)
            requires
                d.digits == p * m,
        ;
        vstd::arithmetic::div_mod::lemma_fundamental_div_mod_converse(
            4 * d.digits + p,
            2 * p as int,
            2 * m as int,
            p as int,
        );
        assert(d.rounded_magnitude() == m);
    }
}

/// The fit interval of a GPS record is the hours its field states, none where it states zero; before
/// RINEX 3.03 the field is a flag, 0 for four hours and 1 for six. A QZSS field is a flag, 0 for two
/// hours and four else. The records of other systems state none.
pub proof fn law_keplerian_fit(
    lines: Seq<Seq<u8>>,
    satellite_id: GnssSatelliteId,
    sat: Seq<u8>,
    named: Option<NavMessage>,
    version: NavVersion,
    layout: Layout,
)
    requires
        keplerian_record(lines, satellite_id, sat, named, version, layout) is Ok,
    ensures
        ({
            let r = keplerian_record(lines, satellite_id, sat, named, version, layout)->Ok_0.0;
            let field = orbit(lines, layout, 7, 2);
            let flag = version.major == 3 && version.minor <= 2;
            &&& satellite_id.system is Gps ==> match field {
                None => r.fit_interval_h is None,
                Some(d) => if d.below_zero() {
                    r.fit_interval_h is None
                } else if flag && d.digits == 0 {
                    r.fit_interval_h matches Some(h) && h.integer() == Some(4int)
                } else if flag && d.integer() == Some(1int) {
                    r.fit_interval_h matches Some(h) && h.integer() == Some(6int)
                } else if d.digits == 0 {
                    r.fit_interval_h is None
                } else {
                    r.fit_interval_h == Some(d)
                },
            }
            &&& satellite_id.system is Qzss ==> match field {
                None => r.fit_interval_h is None,
                Some(d) => r.fit_interval_h matches Some(h) && h.integer() == Some(
                    if d.digits == 0 {
                        2int
                    } else {
                        4
                    },
                ),
            }
            &&& !(satellite_id.system is Gps) && !(satellite_id.system is Qzss)
                ==> r.fit_interval_h is None
        }),
{
    let r = keplerian_record(lines, satellite_id, sat, named, version, layout)->Ok_0.0;
    assert(r.fit_interval_h == keplerian_fit(lines, layout, satellite_id.system, version)) by {
        reveal(keplerian_record);
    }
    assert(orbit(lines, layout, 7, 2) == value_at(lines, layout, 28)) by {
        lemma_orbit_fields(lines, layout);
    }
    lemma_fit_stated(lines, layout, satellite_id.system, version);
}

/// The fit interval a record states.
#[verifier::spinoff_prover]
proof fn lemma_fit_stated(
    lines: Seq<Seq<u8>>,
    layout: Layout,
    system: GnssSystem,
    version: NavVersion,
)
    ensures
        ({
            let fit = keplerian_fit(lines, layout, system, version);
            let field = value_at(lines, layout, 28);
            let flag = version.major == 3 && version.minor <= 2;
            &&& system is Gps ==> match field {
                None => fit is None,
                Some(d) => if d.below_zero() {
                    fit is None
                } else if flag && d.digits == 0 {
                    fit matches Some(h) && h.integer() == Some(4int)
                } else if flag && d.integer() == Some(1int) {
                    fit matches Some(h) && h.integer() == Some(6int)
                } else if d.digits == 0 {
                    fit is None
                } else {
                    fit == Some(d)
                },
            }
            &&& system is Qzss ==> match field {
                None => fit is None,
                Some(d) => fit matches Some(h) && h.integer() == Some(
                    if d.digits == 0 {
                        2int
                    } else {
                        4
                    },
                ),
            }
            &&& !(system is Gps) && !(system is Qzss) ==> fit is None
        }),
{
    lemma_nothing_stated();
    lemma_read_wf(lines, layout, 28);
    assert(pow10(0) == 1);
    assert(4 * pow10(0) == 4 && 6 * pow10(0) == 6 && 2 * pow10(0) == 2);
    if let Some(d) = value_at(lines, layout, 28) {
        if d.integer() == Some(1int) {
            lemma_one(d);
        }
    }
    assert(positive(1, 0).integer() == Some(1int));
}

/// One has one form.
proof fn lemma_one(d: Decimal)
    requires
        d.wf(),
        d.integer() == Some(1int),
    ensures
        d == crate::record::positive(1, 0),
{
    assert(pow10(0) == 1);
    if d.exponent == 0 {
        assert(d.signed_digits() * 1 == d.signed_digits());
    } else if d.exponent > 0 {
        let p = pow10((d.exponent - 1) as nat);
        assert(pow10(d.exponent as nat) == 10 * p);
        assert(d.signed_digits() * (10 * p) == 10 * (d.signed_digits() * p)) by (nonlinear_arith);
    } else if d.exponent < 0 {
        let p = pow10((-d.exponent - 1) as nat);
        assert(pow10((-d.exponent) as nat) == 10 * p);
        lemma_pow10_monotone(0, (-d.exponent - 1) as nat);
        vstd::arithmetic::div_mod::lemma_fundamental_div_mod(d.digits as int, 10 * p as int);
        let m = d.digits as int / (10 * p as int);
        assert((10 * p as int) * m == 10 * (p * m)) by (nonlinear_arith);
        assert(d.digits == 10 * (p * m));
    }
}

/// A Keplerian record's `toc` is the time its epoch states on the clock of its system. Its `toe` is
/// the stated week and time of week, or a week more or less where that is nearer to `toc`.
pub proof fn law_keplerian_times(
    lines: Seq<Seq<u8>>,
    satellite_id: GnssSatelliteId,
    sat: Seq<u8>,
    named: Option<NavMessage>,
    version: NavVersion,
    layout: Layout,
)
    requires
        keplerian_record(lines, satellite_id, sat, named, version, layout) is Ok,
    ensures
        ({
            let r = keplerian_record(lines, satellite_id, sat, named, version, layout)->Ok_0.0;
            let epoch = record_epoch(lines[0], layout, CivilSecondPolicy::Continuous);
            let q: int = 1000000000000000000000000000000;
            let week = 604800 * q;
            let start: int = if satellite_id.system is BeiDou {
                189345600
            } else {
                -630763200
            };
            let stated = (r.week * 604800 + start) * q + seconds_of(r.elements.toe_sow).total();
            let toe = native_total(r.toe);
            let toc = native_total(r.toc);
            &&& r.toe.system == r.toc.system
            &&& r.toe.system is Bdt <==> satellite_id.system is BeiDou
            &&& r.toe.system is Gst <==> satellite_id.system is Galileo
            &&& epoch matches Some(e) && toc == e.j2000().total()
            &&& toe == stated || toe == stated + week || toe == stated - week
            &&& toe == stated + week ==> toc - stated > 302400 * q
            &&& toe == stated - week ==> stated - toc > 302400 * q
            &&& 0 < r.toe.week < 4294967295 && toe == stated ==> -302400 * q <= toc - stated <= 302400
                * q
        }),
{
    reveal(keplerian_record);
    lemma_required(lines, layout);
    let scale = scale_of(satellite_id.system);
    let (toc_week, toc_sow) = clock_time(lines[0], layout, scale)->0;
    let epoch = record_epoch(lines[0], layout, CivilSecondPolicy::Continuous)->0;
    let r = keplerian_record(lines, satellite_id, sat, named, version, layout)->Ok_0.0;
    let toc0 = GnssWeekTow { system: scale, week: toc_week, tow_s: toc_sow };
    lemma_carried(toc0);
    lemma_week_of_epoch(epoch, scale);
    let toe0 = GnssWeekTow {
        system: scale,
        week: r.week,
        tow_s: seconds_of(given(lines, layout, 11)),
    };
    lemma_carried(toe0);
    let toe1 = toe0.carried()->0;
    lemma_adjusted(toe1, r.toc);
}

/// A week and time of week read from an epoch are the epoch.
pub proof fn lemma_week_of_epoch(epoch: NavEpoch, scale: TimeScale)
    ensures
        week_and_tow(epoch, scale) matches Some((week, tow)) ==> native_total(
            GnssWeekTow { system: scale, week, tow_s: tow },
        ) == epoch.j2000().total(),
{
    reveal(week_and_tow);
    reveal(NavEpoch::j2000);
}

/// The week of `toe` moved towards `toc`.
proof fn lemma_adjusted(toe: GnssWeekTow, toc: GnssWeekTow)
    requires
        toe.system == toc.system,
    ensures
        ({
            let w = GnssWeekTow { week: adjusted_week(toe.week, toe.tow_s, toc), ..toe };
            let q: int = 1000000000000000000000000000000;
            let d = native_total(toe) - native_total(toc);
            &&& native_total(w) == native_total(toe) + (w.week - toe.week) * 604800 * q
            &&& w.week == toe.week + 1 ==> d < -302400 * q
            &&& w.week == toe.week - 1 ==> d > 302400 * q
            &&& -1 <= w.week - toe.week <= 1
            &&& w.week == toe.week ==> (-302400 * q <= d <= 302400 * q) || toe.week == 0 || toe.week
                == u32::MAX
        }),
{
    let q: int = 1000000000000000000000000000000;
    let base = (week_epoch_day(toe.system) - J2000_DAY) * SECONDS_PER_DAY - 43200;
    let w = adjusted_week(toe.week, toe.tow_s, toc) as int;
    assert((toe.week * 604800 + base) * q - (toc.week * 604800 + base) * q == (toe.week - toc.week)
        * 604800 * q);
    assert((w * 604800 + base) * q - (toe.week * 604800 + base) * q == (w - toe.week) * 604800 * q);
}

} // verus!

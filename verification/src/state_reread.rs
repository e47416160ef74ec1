//! State-vector records, GLONASS and SBAS, that are written read back.

use vstd::arithmetic::div_mod::lemma_fundamental_div_mod_converse;
use vstd::prelude::*;

use crate::decimal::{
    decimal_of, lemma_formatted, lemma_pow10_values, lemma_short_integer, pow10, Decimal,
};
use crate::error::Fault;
use crate::fields::{
    civil_epoch, given, lemma_missing_none, raw_at, record_epoch, value_at, CivilSecondPolicy,
    Layout,
};
use crate::geo::{sbas_departures, sbas_record, sbas_required};
use crate::glonass::{
    folded_channel, fourth_line_value, glonass_departures, glonass_record, glonass_required,
    thousandfold, vector_at,
};
use crate::id::GnssSatelliteId;
use crate::instant::{date_of_day, j2000_civil, CivilTime};
use crate::lines::{
    axis_text, channel_written, civil_of, field_text, first_text, glonass_lines_of, orbit_text,
    sbas_lines_of, RecordColumns,
};
use crate::record::{GlonassRecord, NavVersion, SbasRecord};
use crate::reread::{
    field_ok, lemma_field_text, lemma_first_text, lemma_integer_seconds, lemma_integer_unique,
    lemma_missing_same, lemma_orbit_text, lemma_quecto_seconds, lemma_raw_short, lemma_stated_wf,
    plain_civil, printable, record_shape, thirteen_digits,
};
use crate::text::blank;
use crate::time::{
    day_number, lemma_date_unique, lemma_in_year, lemma_next_date, seconds_of, valid_date, NavEpoch,
    Seconds, J2000_DAY, QUECTOS_PER_SECOND,
};

verus! {

/// A number of kilometers, read in meters, is written as it was read.
proof fn lemma_kilometers_text(p: Decimal)
    requires
        p.wf(),
        p.digits < pow10(13),
    ensures
        thousandfold(p).kilometers_d19_12() == p.d19_12(),
{
    if p.digits > 0 {
        lemma_formatted(p.digits as nat, p.exponent as int, 13, true);
        lemma_formatted(p.digits as nat, p.exponent as int, 13, false);
    }
}

/// A coordinate in kilometers, read in meters, is written as it was read.
proof fn lemma_axis_text(p: Decimal, v: Decimal, a: Decimal, d: Option<Decimal>)
    requires
        thirteen_digits(p),
        thirteen_digits(v),
        thirteen_digits(a),
    ensures
        axis_text(4, thousandfold(p), thousandfold(v), thousandfold(a), d) == orbit_text(
            4,
            Some(p),
            Some(v),
            Some(a),
            d,
        ),
{
    reveal(axis_text);
    reveal(orbit_text);
    lemma_kilometers_text(p);
    lemma_kilometers_text(v);
    lemma_kilometers_text(a);
}

/// The lines of values: a first line with three of them, and lines of four.
pub open spec fn value_lines(
    lines: Seq<Seq<u8>>,
    sat: GnssSatelliteId,
    c: CivilTime,
    v: Seq<Option<Decimal>>,
) -> bool {
    &&& lines.len() >= 1
    &&& v.len() == 4 * lines.len() - 1
    &&& v[0] is Some
    &&& v[1] is Some
    &&& lines[0] == first_text(RecordColumns::V3, sat, c, v[0]->0, v[1]->0, v[2])
    &&& forall|k: int|
        1 <= k < lines.len() ==> #[trigger] lines[k] == orbit_text(
            4,
            v[4 * k - 1],
            v[4 * k],
            v[4 * k + 1],
            v[4 * k + 2],
        )
}

/// Lines of values of at most thirteen digits state those values.
#[verifier::spinoff_prover]
#[verifier::rlimit(40)]
proof fn lemma_value_lines(
    lines: Seq<Seq<u8>>,
    sat: GnssSatelliteId,
    c: CivilTime,
    second: nat,
    v: Seq<Option<Decimal>>,
)
    requires
        value_lines(lines, sat, c, v),
        sat.wf(),
        plain_civil(c, second),
        forall|i: int| 0 <= i < v.len() ==> field_ok(#[trigger] v[i]),
    ensures
        record_shape(lines, sat),
        forall|i: int|
            0 <= i < v.len() ==> #[trigger] value_at(lines, Layout::V3, i) == v[i] && blank(
                raw_at(lines, Layout::V3, i),
            ) == (v[i] is None),
{
    assert(field_ok(v[0]) && field_ok(v[1]) && field_ok(v[2]));
    lemma_first_text(sat, c, second, v[0]->0, v[1]->0, v[2]);
    assert forall|k: int| 1 <= k < lines.len() implies printable(#[trigger] lines[k])
        && lines[k].len() == 80 && lines[k][0] == 32 by {
        lemma_orbit_text(v[4 * k - 1], v[4 * k], v[4 * k + 1], v[4 * k + 2]);
        assert(lines[k][0] == 32);
    }
    assert forall|i: int| 0 <= i < v.len() implies #[trigger] value_at(lines, Layout::V3, i)
        == v[i] && blank(raw_at(lines, Layout::V3, i)) == (v[i] is None) by {
        lemma_field_text(v[i]);
        assert(raw_at(lines, Layout::V3, i) == field_text(v[i])) by {
            reveal(raw_at);
            if i >= 3 {
                let k = 1 + (i - 3) / 4;
                lemma_orbit_text(v[4 * k - 1], v[4 * k], v[4 * k + 1], v[4 * k + 2]);
                assert(lines[k] == orbit_text(4, v[4 * k - 1], v[4 * k], v[4 * k + 1], v[4 * k + 2]));
            }
        }
    }
}

/// The first `n` values that lines state.
pub open spec fn values_of(lines: Seq<Seq<u8>>, layout: Layout, n: nat) -> Seq<Option<Decimal>> {
    Seq::new(n, |i: int| value_at(lines, layout, i))
}

/// Values read have at most thirteen digits where their digits do.
pub proof fn lemma_values_ok(lines: Seq<Seq<u8>>, layout: Layout, n: nat)
    requires
        short_values(lines, layout, n as int),
    ensures
        forall|i: int| 0 <= i < n ==> field_ok(#[trigger] values_of(lines, layout, n)[i]),
        forall|i: int|
            0 <= i < n ==> (#[trigger] value_at(lines, layout, i) matches Some(d)
                ==> thirteen_digits(d)),
{
    assert forall|i: int| 0 <= i < n implies field_ok(#[trigger] values_of(lines, layout, n)[i]) by {
        lemma_raw_short(lines, layout, i);
        lemma_stated_wf(raw_at(lines, layout, i));
        assert(value_at(lines, layout, i) matches Some(d) ==> d.digits < pow10(13));
    }
    assert forall|i: int| 0 <= i < n implies (#[trigger] value_at(lines, layout, i) matches Some(d)
        ==> thirteen_digits(d)) by {
        assert(field_ok(values_of(lines, layout, n)[i]));
    }
}

/// Whether the first `n` values of lines have at most thirteen digits.
pub open spec fn short_values(lines: Seq<Seq<u8>>, layout: Layout, n: int) -> bool {
    forall|i: int|
        0 <= i < n ==> (#[trigger] value_at(lines, layout, i) matches Some(d) ==> d.digits
            < pow10(13))
}

/// Whether an SBAS record read from lines reads back from what is written of it: it was read
/// without a departure, its values have at most thirteen digits, and its epoch is a whole second of
/// a year of four digits.
pub open spec fn restatable_sbas(
    lines: Seq<Seq<u8>>,
    layout: Layout,
    sat: GnssSatelliteId,
    token: Seq<u8>,
    record: SbasRecord,
) -> bool {
    &&& sbas_record(lines, sat, token, layout) == Ok::<(SbasRecord, Seq<Fault>), Fault>(
        (record, Seq::empty()),
    )
    &&& sat.wf()
    &&& short_values(lines, layout, 15)
    &&& 0 <= record.epoch.year <= 9999
    &&& record.epoch.second == decimal_of(seconds_of(record.epoch.second).whole as int)
}

/// An SBAS record that was read is written as lines that read back as the same record, without a
/// departure.
#[verifier::spinoff_prover]
#[verifier::rlimit(40)]
pub proof fn law_sbas_reads_back(
    lines: Seq<Seq<u8>>,
    layout: Layout,
    sat: GnssSatelliteId,
    token: Seq<u8>,
    record: SbasRecord,
    other: Seq<u8>,
)
    requires
        restatable_sbas(lines, layout, sat, token, record),
    ensures
        sbas_record(sbas_lines_of(record, RecordColumns::V3), sat, other, Layout::V3) == Ok::<
            (SbasRecord, Seq<Fault>),
            Fault,
        >((record, Seq::empty())),
        record_shape(sbas_lines_of(record, RecordColumns::V3), sat),
{
    let written = sbas_lines_of(record, RecordColumns::V3);
    let v = values_of(lines, layout, 15);
    let c = civil_of(record.epoch);
    let required = sbas_required();
    assert forall|k: int| 0 <= k < required.len() implies value_at(
        lines,
        layout,
        (#[trigger] required[k]).0 as int,
    ) is Some by {
        lemma_missing_none(lines, layout, required, k);
    }
    lemma_sbas_given(lines, layout);
    lemma_values_ok(lines, layout, 15);
    lemma_vectors(lines, layout);
    lemma_axis_text(given(lines, layout, 3), given(lines, layout, 4), given(lines, layout, 5), v[6]);
    lemma_axis_text(given(lines, layout, 7), given(lines, layout, 8), given(lines, layout, 9), v[10]);
    lemma_axis_text(
        given(lines, layout, 11),
        given(lines, layout, 12),
        given(lines, layout, 13),
        v[14],
    );
    let second = seconds_of(record.epoch.second).whole as nat;
    let e = record.epoch;
    assert(valid_date(e.year as int, e.month as int, e.day as int) && e.hour <= 23 && e.minute <= 59
        && 0 <= seconds_of(e.second).whole < 60) by {
        reveal(record_epoch);
    }
    assert(value_lines(written, sat, c, v));
    lemma_value_lines(written, sat, c, second, v);
    lemma_first_text(sat, c, second, v[0]->0, v[1]->0, v[2]);
    assert(record_epoch(written[0], Layout::V3, CivilSecondPolicy::Continuous) == Some(e)) by {
        reveal(record_epoch);
    }
    assert forall|i: int| 0 <= i < 15 implies #[trigger] value_at(written, Layout::V3, i)
        == value_at(lines, layout, i) by {
        assert(value_at(written, Layout::V3, i) == v[i]);
    }
    assert forall|k: int| 0 <= k < required.len() implies value_at(
        written,
        Layout::V3,
        (#[trigger] required[k]).0 as int,
    ) == value_at(lines, layout, required[k].0 as int) by {
        assert(0 <= required[k].0 < 15);
    }
    lemma_missing_same(written, Layout::V3, lines, layout, required);
    lemma_vectors_same(written, Layout::V3, lines, layout);
    assert(sbas_departures(written, Layout::V3, other) =~= Seq::empty()) by {
        assert(value_at(written, Layout::V3, 2) == v[2]);
        assert(value_at(written, Layout::V3, 10) == v[10]);
        assert(value_at(written, Layout::V3, 14) == v[14]);
    }
}

/// The fields an SBAS record has to state, by index.
proof fn lemma_sbas_given(lines: Seq<Seq<u8>>, layout: Layout)
    requires
        forall|k: int|
            0 <= k < sbas_required().len() ==> value_at(
                lines,
                layout,
                (#[trigger] sbas_required()[k]).0 as int,
            ) is Some,
    ensures
        value_at(lines, layout, 0) is Some,
        value_at(lines, layout, 1) is Some,
        forall|i: int|
            3 <= i <= 13 && i != 10 ==> (#[trigger] value_at(lines, layout, i)) is Some,
{
    let r = sbas_required();
    assert(r[0].0 == 0 && r[1].0 == 1);
    assert forall|i: int| 3 <= i <= 13 && i != 10 implies (#[trigger] value_at(
        lines,
        layout,
        i,
    )) is Some by {
        assert(r[2].0 == 3 && r[3].0 == 7 && r[4].0 == 11 && r[5].0 == 4 && r[6].0 == 8 && r[7].0
            == 12 && r[8].0 == 5 && r[9].0 == 9 && r[10].0 == 13 && r[11].0 == 6);
    }
}

/// The coordinates of vectors read.
proof fn lemma_vectors(lines: Seq<Seq<u8>>, layout: Layout)
    ensures
        forall|first: int| #![trigger vector_at(lines, layout, first)]
            vector_at(lines, layout, first)@[0] == thousandfold(given(lines, layout, first))
                && vector_at(lines, layout, first)@[1] == thousandfold(
                given(lines, layout, first + 4),
            ) && vector_at(lines, layout, first)@[2] == thousandfold(
                given(lines, layout, first + 8),
            ),
{
    reveal(vector_at);
}

/// Vectors read from the same values are the same.
proof fn lemma_vectors_same(a: Seq<Seq<u8>>, la: Layout, b: Seq<Seq<u8>>, lb: Layout)
    requires
        forall|i: int| 0 <= i < 15 ==> #[trigger] value_at(a, la, i) == value_at(b, lb, i),
    ensures
        vector_at(a, la, 3) == vector_at(b, lb, 3),
        vector_at(a, la, 4) == vector_at(b, lb, 4),
        vector_at(a, la, 5) == vector_at(b, lb, 5),
{
    reveal(vector_at);
    assert forall|i: int| 0 <= i < 15 implies #[trigger] given(a, la, i) == given(b, lb, i) by {
        assert(value_at(a, la, i) == value_at(b, lb, i));
    }
    assert(given(a, la, 3) == given(b, lb, 3) && given(a, la, 7) == given(b, lb, 7) && given(
        a,
        la,
        11,
    ) == given(b, lb, 11));
    assert(given(a, la, 4) == given(b, lb, 4) && given(a, la, 8) == given(b, lb, 8) && given(
        a,
        la,
        12,
    ) == given(b, lb, 12));
    assert(given(a, la, 5) == given(b, lb, 5) && given(a, la, 9) == given(b, lb, 9) && given(
        a,
        la,
        13,
    ) == given(b, lb, 13));
}

/// The civil time of an epoch in UTC, a leap second's label or not, is a date and a time of day that
/// reads as the same instant.
#[verifier::spinoff_prover]
#[verifier::rlimit(40)]
proof fn lemma_utc_reads_back(e: NavEpoch) -> (second: nat)
    requires
        valid_date(e.year as int, e.month as int, e.day as int),
        e.hour <= 23,
        e.minute <= 59,
        0 <= seconds_of(e.second).whole <= 60,
        e.j2000().quectos == 0,
        0 <= j2000_civil(e.j2000()).year <= 9999,
    ensures
        plain_civil(j2000_civil(e.j2000()), second),
        ({
            let c = j2000_civil(e.j2000());
            civil_epoch(
                c.year as int,
                c.month as int,
                c.day as int,
                c.hour as int,
                c.minute as int,
                decimal_of(second as int),
                CivilSecondPolicy::UtcLike,
            ) matches Some(again) && again.j2000() == e.j2000()
        }),
{
    let (date, of_day) = lemma_utc_civil(e);
    let s = e.j2000();
    let c = j2000_civil(s);
    let second = of_day % 60;
    lemma_integer_seconds(second);
    assert(date.1 <= 12 && date.2 <= 31);
    let again = NavEpoch {
        year: c.year as i32,
        month: c.month,
        day: c.day,
        hour: c.hour,
        minute: c.minute,
        second: decimal_of(second),
    };
    assert(of_day / 3600 * 3600 + of_day % 3600 / 60 * 60 + of_day % 60 == of_day);
    assert(again.j2000() == s) by {
        reveal(NavEpoch::j2000);
    }
    second as nat
}

/// The date and the second of day that the civil time of an epoch in UTC holds.
#[verifier::spinoff_prover]
proof fn lemma_utc_civil(e: NavEpoch) -> (r: ((int, int, int), int))
    requires
        valid_date(e.year as int, e.month as int, e.day as int),
        e.hour <= 23,
        e.minute <= 59,
        0 <= seconds_of(e.second).whole <= 60,
        e.j2000().quectos == 0,
    ensures
        ({
            let (date, of_day) = r;
            let c = j2000_civil(e.j2000());
            &&& valid_date(date.0, date.1, date.2)
            &&& 0 <= of_day < 86400
            &&& e.j2000().whole == (day_number(date.0, date.1, date.2) - J2000_DAY) * 86400 - 43200
                + of_day
            &&& -3000000000 <= date.0 <= 3000000000
            &&& c.year == date.0
            &&& c.month == date.1
            &&& c.day == date.2
            &&& c.hour == of_day / 3600
            &&& c.minute == of_day % 3600 / 60
            &&& seconds_of(c.second) == (Seconds { whole: (of_day % 60) as i64, quectos: 0 })
        }),
{
    let number = day_number(e.year as int, e.month as int, e.day as int);
    let rest = e.hour * 3600 + e.minute * 60 + seconds_of(e.second).whole;
    let s = e.j2000();
    lemma_in_year(e.year as int, e.month as int, e.day as int);
    assert(-800000000000 <= number <= 800000000000);
    let w = s.whole as int;
    assert(w == (number - J2000_DAY) * 86400 - 43200 + rest) by {
        reveal(NavEpoch::j2000);
    }
    let date = if rest < 86400 {
        (e.year as int, e.month as int, e.day as int)
    } else {
        lemma_next_date(e.year as int, e.month as int, e.day as int)
    };
    let day = if rest < 86400 { number } else { number + 1 };
    let of_day = if rest < 86400 { rest } else { 0 };
    lemma_civil_parts(s, date, day, of_day);
    (date, of_day)
}

/// The civil time of a whole number of seconds.
#[verifier::spinoff_prover]
proof fn lemma_civil_parts(s: Seconds, date: (int, int, int), day: int, of_day: int)
    requires
        s.quectos == 0,
        s.whole == (day - J2000_DAY) * 86400 - 43200 + of_day,
        0 <= of_day < 86400,
        valid_date(date.0, date.1, date.2),
        day_number(date.0, date.1, date.2) == day,
        -3000000000 <= date.0 <= 3000000000,
    ensures
        ({
            let c = j2000_civil(s);
            &&& c.year == date.0
            &&& c.month == date.1
            &&& c.day == date.2
            &&& c.hour == of_day / 3600
            &&& c.minute == of_day % 3600 / 60
            &&& seconds_of(c.second) == (Seconds { whole: (of_day % 60) as i64, quectos: 0 })
        }),
{
    let q = QUECTOS_PER_SECOND as int;
    let w = s.whole as int;
    assert(s.total() == w * q);
    lemma_fundamental_div_mod_converse(w * q, q, w, 0);
    assert(w + 43200 == (day - J2000_DAY) * 86400 + of_day);
    lemma_fundamental_div_mod_converse(w + 43200, 86400, day - J2000_DAY, of_day);
    let chosen = date_of_day(day);
    lemma_date_unique(chosen.0, chosen.1, chosen.2, date.0, date.1, date.2);
    assert(chosen == date);
    lemma_quecto_seconds((of_day % 60) as nat);
}

/// A GLONASS record of whichever version: what the writer states in the fourth orbit line.
pub open spec fn fourth_values(record: GlonassRecord) -> Seq<Option<Decimal>> {
    seq![
        record.status_flags,
        record.l1_l2_group_delay_field_s,
        record.urai,
        record.health_flags,
    ]
}

/// Whether a GLONASS record read from lines of one version reads back from what is written of it in
/// another: it was read without a departure, its values have at most thirteen digits, its epoch is a
/// whole second of a year of four digits, and the other version has the fourth orbit line where the
/// first has it.
pub open spec fn restatable_glonass(
    lines: Seq<Seq<u8>>,
    layout: Layout,
    version0: NavVersion,
    version: NavVersion,
    sat: GnssSatelliteId,
    token: Seq<u8>,
    record: GlonassRecord,
) -> bool {
    &&& glonass_record(lines, sat, token, version0, layout) == Ok::<
        (GlonassRecord, Seq<Fault>),
        Fault,
    >((record, Seq::empty()))
    &&& sat.wf()
    &&& short_values(lines, layout, 19)
    &&& record.epoch_utc_j2000_s.quectos == 0
    &&& 0 <= j2000_civil(record.epoch_utc_j2000_s).year <= 9999
    &&& version0.fourth_glonass_line() ==> version.fourth_glonass_line()
}

/// A GLONASS record that was read is written as lines that read back as the same record, without a
/// departure.
#[verifier::spinoff_prover]
#[verifier::rlimit(40)]
pub proof fn law_glonass_reads_back(
    lines: Seq<Seq<u8>>,
    layout: Layout,
    version0: NavVersion,
    version: NavVersion,
    sat: GnssSatelliteId,
    token: Seq<u8>,
    record: GlonassRecord,
    other: Seq<u8>,
)
    requires
        restatable_glonass(lines, layout, version0, version, sat, token, record),
    ensures
        glonass_record(
            glonass_lines_of(record, version, RecordColumns::V3),
            sat,
            other,
            version,
            Layout::V3,
        ) == Ok::<(GlonassRecord, Seq<Fault>), Fault>((record, Seq::empty())),
        record_shape(glonass_lines_of(record, version, RecordColumns::V3), sat),
{
    let written = glonass_lines_of(record, version, RecordColumns::V3);
    let v = glonass_values(lines, layout, version, record);
    let c = j2000_civil(record.epoch_utc_j2000_s);
    let e = record_epoch(lines[0], layout, CivilSecondPolicy::UtcLike)->0;
    assert(valid_date(e.year as int, e.month as int, e.day as int) && e.hour <= 23 && e.minute <= 59
        && 0 <= seconds_of(e.second).whole <= 60) by {
        reveal(record_epoch);
    }
    let second = lemma_utc_reads_back(e);
    lemma_glonass_written(lines, layout, version0, version, sat, token, record);
    lemma_value_lines(written, sat, c, second, v);
    lemma_first_text(sat, c, second, v[0]->0, v[1]->0, v[2]);
    let again = record_epoch(written[0], Layout::V3, CivilSecondPolicy::UtcLike);
    assert(again matches Some(a) && a.j2000() == e.j2000()) by {
        reveal(record_epoch);
    }
    lemma_glonass_again(lines, layout, version0, version, sat, token, record, other, written, v);
}

/// The values written of a GLONASS record.
pub open spec fn glonass_values(
    lines: Seq<Seq<u8>>,
    layout: Layout,
    version: NavVersion,
    record: GlonassRecord,
) -> Seq<Option<Decimal>> {
    if version.fourth_glonass_line() {
        values_of(lines, layout, 15) + fourth_values(record)
    } else {
        values_of(lines, layout, 15)
    }
}

/// A GLONASS record that was read is written in lines of the values that were read.
#[verifier::spinoff_prover]
#[verifier::rlimit(40)]
proof fn lemma_glonass_written(
    lines: Seq<Seq<u8>>,
    layout: Layout,
    version0: NavVersion,
    version: NavVersion,
    sat: GnssSatelliteId,
    token: Seq<u8>,
    record: GlonassRecord,
)
    requires
        restatable_glonass(lines, layout, version0, version, sat, token, record),
    ensures
        ({
            let v = glonass_values(lines, layout, version, record);
            &&& value_lines(
                glonass_lines_of(record, version, RecordColumns::V3),
                sat,
                j2000_civil(record.epoch_utc_j2000_s),
                v,
            )
            &&& forall|i: int| 0 <= i < v.len() ==> field_ok(#[trigger] v[i])
        }),
{
    let head = values_of(lines, layout, 15);
    let v = glonass_values(lines, layout, version, record);
    lemma_values_ok(lines, layout, 15);
    lemma_values_ok(lines, layout, 19);
    lemma_fourth_ok(lines, layout, version0, record);
    assert forall|i: int| 0 <= i < v.len() implies field_ok(#[trigger] v[i]) by {
        if i < 15 {
            assert(v[i] == head[i]);
        } else {
            assert(v[i] == fourth_values(record)[i - 15]);
        }
    }
    lemma_glonass_axes(lines, layout, version0, sat, token, record);
    let w = glonass_lines_of(record, version, RecordColumns::V3);
    assert(w[1] == orbit_text(4, v[3], v[4], v[5], v[6]));
    assert(w[2] == orbit_text(4, v[7], v[8], v[9], v[10]));
    assert(w[3] == orbit_text(4, v[11], v[12], v[13], v[14]));
    if version.fourth_glonass_line() {
        assert(w[4] == orbit_text(4, v[15], v[16], v[17], v[18]));
    }
    assert forall|k: int| 1 <= k < w.len() implies #[trigger] w[k] == orbit_text(
        4,
        v[4 * k - 1],
        v[4 * k],
        v[4 * k + 1],
        v[4 * k + 2],
    ) by {
        if k == 1 {
        } else if k == 2 {
        } else if k == 3 {
        } else {
            assert(k == 4);
        }
    }
}

/// The axes of a GLONASS record that was read are written as they were read.
#[verifier::spinoff_prover]
#[verifier::rlimit(40)]
proof fn lemma_glonass_axes(
    lines: Seq<Seq<u8>>,
    layout: Layout,
    version: NavVersion,
    sat: GnssSatelliteId,
    token: Seq<u8>,
    record: GlonassRecord,
)
    requires
        glonass_record(lines, sat, token, version, layout) == Ok::<
            (GlonassRecord, Seq<Fault>),
            Fault,
        >((record, Seq::empty())),
        short_values(lines, layout, 15),
    ensures
        ({
            let v = values_of(lines, layout, 15);
            let (p, u, a) = (record.pos_m@, record.vel_m_s@, record.acc_m_s2@);
            &&& v[0] == Some(record.clk_bias)
            &&& v[1] == Some(record.gamma_n)
            &&& axis_text(4, p[0], u[0], a[0], Some(record.sv_health)) == orbit_text(
                4,
                v[3],
                v[4],
                v[5],
                v[6],
            )
            &&& axis_text(4, p[1], u[1], a[1], Some(decimal_of(channel_written(record))))
                == orbit_text(4, v[7], v[8], v[9], v[10])
            &&& axis_text(4, p[2], u[2], a[2], record.age_days) == orbit_text(
                4,
                v[11],
                v[12],
                v[13],
                v[14],
            )
        }),
{
    let v = values_of(lines, layout, 15);
    let required = glonass_required();
    assert forall|k: int| 0 <= k < required.len() implies value_at(
        lines,
        layout,
        (#[trigger] required[k]).0 as int,
    ) is Some by {
        lemma_missing_none(lines, layout, required, k);
    }
    lemma_glonass_given(lines, layout);
    lemma_values_ok(lines, layout, 15);
    lemma_vectors(lines, layout);
    lemma_channel(given(lines, layout, 10), record);
    lemma_axis_text(given(lines, layout, 3), given(lines, layout, 4), given(lines, layout, 5), v[6]);
    lemma_axis_text(given(lines, layout, 7), given(lines, layout, 8), given(lines, layout, 9), v[10]);
    lemma_axis_text(
        given(lines, layout, 11),
        given(lines, layout, 12),
        given(lines, layout, 13),
        v[14],
    );
}

/// Lines that state the values of a GLONASS record and its epoch read as the record.
#[verifier::spinoff_prover]
#[verifier::rlimit(40)]
proof fn lemma_glonass_again(
    lines: Seq<Seq<u8>>,
    layout: Layout,
    version0: NavVersion,
    version: NavVersion,
    sat: GnssSatelliteId,
    token: Seq<u8>,
    record: GlonassRecord,
    other: Seq<u8>,
    written: Seq<Seq<u8>>,
    v: Seq<Option<Decimal>>,
)
    requires
        restatable_glonass(lines, layout, version0, version, sat, token, record),
        v == glonass_values(lines, layout, version, record),
        v.len() == 4 * written.len() - 1,
        forall|i: int|
            0 <= i < v.len() ==> #[trigger] value_at(written, Layout::V3, i) == v[i] && blank(
                raw_at(written, Layout::V3, i),
            ) == (v[i] is None),
        record_epoch(written[0], Layout::V3, CivilSecondPolicy::UtcLike) matches Some(e)
            && e.j2000() == record.epoch_utc_j2000_s,
    ensures
        glonass_record(written, sat, other, version, Layout::V3) == Ok::<
            (GlonassRecord, Seq<Fault>),
            Fault,
        >((record, Seq::empty())),
{
    let head = values_of(lines, layout, 15);
    let required = glonass_required();
    assert forall|i: int| 0 <= i < 15 implies #[trigger] value_at(written, Layout::V3, i)
        == value_at(lines, layout, i) by {
        assert(value_at(written, Layout::V3, i) == v[i]);
        assert(v[i] == head[i]);
    }
    assert forall|k: int| 0 <= k < required.len() implies value_at(
        written,
        Layout::V3,
        (#[trigger] required[k]).0 as int,
    ) == value_at(lines, layout, required[k].0 as int) by {
        assert(0 <= required[k].0 < 15);
    }
    lemma_missing_same(written, Layout::V3, lines, layout, required);
    lemma_vectors_same(written, Layout::V3, lines, layout);
    assert(value_at(written, Layout::V3, 0) == v[0]);
    assert(value_at(written, Layout::V3, 1) == v[1]);
    assert(value_at(written, Layout::V3, 2) == v[2]);
    assert(value_at(written, Layout::V3, 6) == v[6]);
    assert(value_at(written, Layout::V3, 10) == v[10]);
    assert(value_at(written, Layout::V3, 14) == v[14]);
    if version.fourth_glonass_line() {
        assert(value_at(written, Layout::V3, 15) == v[15]);
        assert(value_at(written, Layout::V3, 16) == v[16]);
        assert(value_at(written, Layout::V3, 17) == v[17]);
        assert(value_at(written, Layout::V3, 18) == v[18]);
    }
    assert(glonass_departures(written, Layout::V3, version, other) =~= Seq::empty());
}

/// A channel is written as it was stated.
proof fn lemma_channel(stated: Decimal, record: GlonassRecord)
    requires
        stated.wf(),
        stated.digits < pow10(13),
        stated.integer_within(i32::MIN as int, i32::MAX as int) == Some(
            record.stated_freq_channel as int,
        ),
        record.freq_channel == folded_channel(record.stated_freq_channel as int),
    ensures
        decimal_of(channel_written(record)) == stated,
{
    lemma_pow10_values();
    lemma_short_integer(stated);
    lemma_integer_unique(stated, record.stated_freq_channel as int);
}

/// The values of the fourth orbit line of a record read have at most thirteen digits.
proof fn lemma_fourth_ok(
    lines: Seq<Seq<u8>>,
    layout: Layout,
    version: NavVersion,
    record: GlonassRecord,
)
    requires
        forall|i: int| 0 <= i < 19 ==> field_ok(#[trigger] values_of(lines, layout, 19)[i]),
        record.status_flags == fourth_line_value(lines, layout, version, 15),
        record.l1_l2_group_delay_field_s == fourth_line_value(lines, layout, version, 16),
        record.urai == fourth_line_value(lines, layout, version, 17),
        record.health_flags == fourth_line_value(lines, layout, version, 18),
    ensures
        forall|i: int| 0 <= i < 4 ==> field_ok(#[trigger] fourth_values(record)[i]),
{
    let v = values_of(lines, layout, 19);
    assert(field_ok(v[15]) && field_ok(v[16]) && field_ok(v[17]) && field_ok(v[18]));
}

/// The fields a GLONASS record has to state, by index.
proof fn lemma_glonass_given(lines: Seq<Seq<u8>>, layout: Layout)
    requires
        forall|k: int|
            0 <= k < glonass_required().len() ==> value_at(
                lines,
                layout,
                (#[trigger] glonass_required()[k]).0 as int,
            ) is Some,
    ensures
        value_at(lines, layout, 0) is Some,
        value_at(lines, layout, 1) is Some,
        forall|i: int| 3 <= i <= 13 ==> (#[trigger] value_at(lines, layout, i)) is Some,
{
    let r = glonass_required();
    assert(r[0].0 == 0 && r[1].0 == 1);
    assert forall|i: int| 3 <= i <= 13 implies (#[trigger] value_at(lines, layout, i)) is Some by {
        assert(r[2].0 == 3 && r[3].0 == 7 && r[4].0 == 11 && r[5].0 == 4 && r[6].0 == 8 && r[7].0
            == 12 && r[8].0 == 5 && r[9].0 == 9 && r[10].0 == 13 && r[11].0 == 6 && r[12].0 == 10);
    }
}

} // verus!

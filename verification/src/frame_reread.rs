//! Data frames, of system time offsets, Earth orientation and ionosphere models, that are written
//! read back.

use vstd::prelude::*;

use crate::decimal::{decimal_of, digit, lemma_pow10_values, Decimal};
use crate::error::Fault;
use crate::fields::{
    extra_departures, field_count, int_columns, raw_at, record_epoch, stated_value, value_at,
    CivilSecondPolicy, Layout,
};
use crate::format::{char_count, left};
use crate::frames::{
    drop_blanks, frame_readable, ion_count, ion_frame, ion_kind, ion_lines, ion_model, ion_value,
    ion_values, ion_values_given, offset_frame, offset_values_read, orientation_frame, IonFrame,
    IonKind, OffsetFrame, OrientationFrame,
};
use crate::id::GnssSatelliteId;
use crate::instant::CivilTime;
use crate::lines::{
    civil_of, civil_text, field_text, ion_lines_of, ion_value_lines, offset_lines, orbit_text,
    orientation_lines, text_or_empty, values_text,
};
use crate::reread::{
    field_ok, inked, law_d19_12_reads_back, lemma_ascii_columns, lemma_blank_unstated,
    lemma_civil_text, lemma_field_text, lemma_int_reads, lemma_integer_seconds,
    lemma_nothing_dropped, lemma_orbit_text, lemma_skip_blanks, lemma_spaces_blank, plain_civil,
    printable,
};
use crate::restate::lemma_four_columns;
use crate::state_reread::{lemma_values_ok, short_values, values_of};
use crate::text::{
    blank, columns, drop_space, lemma_skip_space, skip_space, space_at, space_before, spaces,
    text_at, trim_end_of, trim_of,
};
use crate::time::{seconds_of, valid_date, NavEpoch};

verus! {

/// Whether lines are printable and each starts with a blank.
pub open spec fn indented(lines: Seq<Seq<u8>>) -> bool {
    forall|k: int|
        0 <= k < lines.len() ==> printable(#[trigger] lines[k]) && lines[k].len() >= 23
            && lines[k][0] == 32
}

/// A line that starts with an epoch states it.
proof fn lemma_epoch_line(line: Seq<u8>, c: CivilTime, second: nat)
    requires
        line.len() >= 23,
        printable(line),
        plain_civil(c, second),
        line.subrange(4, 23) == civil_text(c),
    ensures
        int_columns(line, 4, 8) == Some(c.year as int),
        int_columns(line, 9, 11) == Some(c.month as int),
        int_columns(line, 12, 14) == Some(c.day as int),
        int_columns(line, 15, 17) == Some(c.hour as int),
        int_columns(line, 18, 20) == Some(c.minute as int),
        int_columns(line, 21, 23) == Some(second as int),
{
    lemma_civil_text(c, second);
    let civil = civil_text(c);
    lemma_ascii_columns(line, 4, 8);
    lemma_ascii_columns(line, 9, 11);
    lemma_ascii_columns(line, 12, 14);
    lemma_ascii_columns(line, 15, 17);
    lemma_ascii_columns(line, 18, 20);
    lemma_ascii_columns(line, 21, 23);
    assert(line.subrange(4, 8) =~= civil.subrange(0, 4));
    assert(line.subrange(9, 11) =~= civil.subrange(5, 7));
    assert(line.subrange(12, 14) =~= civil.subrange(8, 10));
    assert(line.subrange(15, 17) =~= civil.subrange(11, 13));
    assert(line.subrange(18, 20) =~= civil.subrange(14, 16));
    assert(line.subrange(21, 23) =~= civil.subrange(17, 19));
    lemma_pow10_values();
    lemma_int_reads(c.year as nat, 4);
    lemma_int_reads(c.month as nat, 2);
    lemma_int_reads(c.day as nat, 2);
    lemma_int_reads(c.hour as nat, 2);
    lemma_int_reads(c.minute as nat, 2);
    lemma_int_reads(second, 2);
}

/// The epoch of a frame is a whole second of a year of at most four digits.
proof fn lemma_frame_epoch(source: Seq<u8>, e: NavEpoch) -> (second: nat)
    requires
        record_epoch(source, Layout::V3, CivilSecondPolicy::Continuous) == Some(e),
        e.year >= 0,
    ensures
        plain_civil(civil_of(e), second),
        second < 60,
        e.second == decimal_of(second as int),
        valid_date(e.year as int, e.month as int, e.day as int),
        e.hour <= 23,
        e.minute <= 59,
        seconds_of(e.second).whole == second,
{
    reveal(record_epoch);
    lemma_four_columns(source, 4, 8);
    lemma_four_columns(source, 21, 23);
    let n = int_columns(source, 21, 23)->0;
    lemma_integer_seconds(n);
    n as nat
}

/// A line that starts with the epoch of a frame reads as that epoch.
proof fn lemma_frame_epoch_again(source: Seq<u8>, e: NavEpoch, line: Seq<u8>)
    requires
        record_epoch(source, Layout::V3, CivilSecondPolicy::Continuous) == Some(e),
        e.year >= 0,
        line.len() >= 23,
        printable(line),
        line.subrange(4, 23) == civil_text(civil_of(e)),
    ensures
        record_epoch(line, Layout::V3, CivilSecondPolicy::Continuous) == Some(e),
{
    let second = lemma_frame_epoch(source, e);
    lemma_epoch_line(line, civil_of(e), second);
    reveal(record_epoch);
}

/// The first line of a frame: an epoch and three values.
pub open spec fn epoch_text(
    e: NavEpoch,
    a: Option<Decimal>,
    b: Option<Decimal>,
    c: Option<Decimal>,
) -> Seq<u8> {
    spaces(4) + civil_text(civil_of(e)) + field_text(a) + field_text(b) + field_text(c)
}

/// The columns of the first line of a frame.
#[verifier::spinoff_prover]
#[verifier::rlimit(40)]
proof fn lemma_epoch_text(
    e: NavEpoch,
    second: nat,
    a: Option<Decimal>,
    b: Option<Decimal>,
    c: Option<Decimal>,
)
    requires
        plain_civil(civil_of(e), second),
        field_ok(a),
        field_ok(b),
        field_ok(c),
    ensures
        ({
            let line = epoch_text(e, a, b, c);
            &&& line.len() == 80
            &&& printable(line)
            &&& line[0] == 32
            &&& line.subrange(4, 23) == civil_text(civil_of(e))
            &&& columns(line, 23, 42) == field_text(a)
            &&& columns(line, 42, 61) == field_text(b)
            &&& columns(line, 61, 80) == field_text(c)
        }),
{
    let civil = civil_text(civil_of(e));
    lemma_civil_text(civil_of(e), second);
    lemma_field_text(a);
    lemma_field_text(b);
    lemma_field_text(c);
    let line = epoch_text(e, a, b, c);
    assert(line.len() == 80);
    assert forall|i: int| 0 <= i < line.len() implies 32 <= (#[trigger] line[i]) < 0x80 by {
        if 4 <= i < 23 {
            assert(line[i] == civil[i - 4]);
        } else if 23 <= i < 42 {
            assert(line[i] == field_text(a)[i - 23]);
        } else if 42 <= i < 61 {
            assert(line[i] == field_text(b)[i - 42]);
        } else if 61 <= i {
            assert(line[i] == field_text(c)[i - 61]);
        }
    }
    lemma_ascii_columns(line, 23, 42);
    lemma_ascii_columns(line, 42, 61);
    lemma_ascii_columns(line, 61, 80);
    assert(line.subrange(4, 23) =~= civil);
    assert(line.subrange(23, 42) =~= field_text(a));
    assert(line.subrange(42, 61) =~= field_text(b));
    assert(line.subrange(61, 80) =~= field_text(c));
}

/// Whether lines are an epoch and values: three on the first line, four on each other.
pub open spec fn frame_lines(lines: Seq<Seq<u8>>, e: NavEpoch, v: Seq<Option<Decimal>>) -> bool {
    &&& lines.len() >= 1
    &&& v.len() == 4 * lines.len() - 1
    &&& lines[0] == epoch_text(e, v[0], v[1], v[2])
    &&& forall|k: int|
        1 <= k < lines.len() ==> #[trigger] lines[k] == orbit_text(
            4,
            v[4 * k - 1],
            v[4 * k],
            v[4 * k + 1],
            v[4 * k + 2],
        )
}

/// Lines of an epoch and values of at most thirteen digits state them.
#[verifier::spinoff_prover]
#[verifier::rlimit(40)]
proof fn lemma_frame_lines(source: Seq<u8>, lines: Seq<Seq<u8>>, e: NavEpoch, v: Seq<Option<Decimal>>)
    requires
        record_epoch(source, Layout::V3, CivilSecondPolicy::Continuous) == Some(e),
        e.year >= 0,
        frame_lines(lines, e, v),
        forall|i: int| 0 <= i < v.len() ==> field_ok(#[trigger] v[i]),
    ensures
        record_epoch(lines[0], Layout::V3, CivilSecondPolicy::Continuous) == Some(e),
        forall|i: int| 0 <= i < v.len() ==> #[trigger] raw_at(lines, Layout::V3, i) == field_text(v[i]),
        forall|i: int| 0 <= i < v.len() ==> #[trigger] value_at(lines, Layout::V3, i) == v[i],
        forall|i: int|
            0 <= i < v.len() ==> blank(#[trigger] raw_at(lines, Layout::V3, i)) == (v[i] is None),
        forall|k: int|
            0 <= k < lines.len() ==> (#[trigger] lines[k]).len() == 80 && printable(lines[k])
                && lines[k][0] == 32,
{
    assert(field_ok(v[0]) && field_ok(v[1]) && field_ok(v[2]));
    let second = lemma_frame_epoch(source, e);
    lemma_epoch_text(e, second, v[0], v[1], v[2]);
    lemma_frame_epoch_again(source, e, lines[0]);
    assert forall|k: int| 0 <= k < lines.len() implies (#[trigger] lines[k]).len() == 80
        && printable(lines[k]) && lines[k][0] == 32 by {
        if k > 0 {
            lemma_orbit_text(v[4 * k - 1], v[4 * k], v[4 * k + 1], v[4 * k + 2]);
        }
    }
    assert forall|i: int| 0 <= i < v.len() implies #[trigger] raw_at(lines, Layout::V3, i)
        == field_text(v[i]) by {
        lemma_frame_field(lines, e, second, v, i);
    }
    assert forall|i: int| 0 <= i < v.len() implies #[trigger] value_at(lines, Layout::V3, i)
        == v[i] by {
        lemma_frame_field(lines, e, second, v, i);
    }
    assert forall|i: int| 0 <= i < v.len() implies blank(#[trigger] raw_at(lines, Layout::V3, i))
        == (v[i] is None) by {
        lemma_frame_field(lines, e, second, v, i);
    }
}

/// One field of lines of an epoch and values.
proof fn lemma_frame_field(
    lines: Seq<Seq<u8>>,
    e: NavEpoch,
    second: nat,
    v: Seq<Option<Decimal>>,
    i: int,
)
    requires
        plain_civil(civil_of(e), second),
        frame_lines(lines, e, v),
        forall|i: int| 0 <= i < v.len() ==> field_ok(#[trigger] v[i]),
        0 <= i < v.len(),
    ensures
        raw_at(lines, Layout::V3, i) == field_text(v[i]),
        value_at(lines, Layout::V3, i) == v[i],
        blank(raw_at(lines, Layout::V3, i)) == (v[i] is None),
{
    lemma_field_text(v[i]);
    reveal(raw_at);
    if i >= 3 {
        let k = 1 + (i - 3) / 4;
        lemma_orbit_text(v[4 * k - 1], v[4 * k], v[4 * k + 1], v[4 * k + 2]);
        assert(lines[k] == orbit_text(4, v[4 * k - 1], v[4 * k], v[4 * k + 1], v[4 * k + 2]));
    } else {
        assert(field_ok(v[0]) && field_ok(v[1]) && field_ok(v[2]));
        lemma_epoch_text(e, second, v[0], v[1], v[2]);
    }
}

/// The values written of an Earth orientation frame.
pub open spec fn orientation_values(frame: OrientationFrame) -> Seq<Option<Decimal>> {
    frame.xp + seq![None] + frame.yp + seq![Some(frame.sent)] + frame.dut1
}

/// The lines of an Earth orientation frame after its marker are those of its values.
proof fn lemma_orientation_lines(frame: OrientationFrame)
    requires
        frame.xp.len() == 3,
        frame.yp.len() == 3,
        frame.dut1.len() == 3,
    ensures
        frame_lines(orientation_lines(frame).skip(1), frame.epoch, orientation_values(frame)),
{
    let w = orientation_lines(frame).skip(1);
    let v = orientation_values(frame);
    assert(v.len() == 11);
    assert(w.len() == 3);
    assert(w[0] =~= epoch_text(frame.epoch, v[0], v[1], v[2]));
    assert(w[1] =~= orbit_text(4, v[3], v[4], v[5], v[6])) by {
        reveal(orbit_text);
        assert(field_text(None) == spaces(19));
        assert(spaces(23) =~= spaces(4) + spaces(19));
    }
    assert(w[2] =~= orbit_text(4, v[7], v[8], v[9], v[10]));
    assert forall|k: int| 1 <= k < 3 implies #[trigger] w[k] == orbit_text(
        4,
        v[4 * k - 1],
        v[4 * k],
        v[4 * k + 1],
        v[4 * k + 2],
    ) by {
        if k == 1 {
        } else {
            assert(k == 2);
        }
    }
}

/// An Earth orientation frame that was read, with values of at most thirteen digits, is written as
/// lines that read back as the same frame, without a departure.
#[verifier::spinoff_prover]
#[verifier::rlimit(40)]
pub proof fn law_orientation_reads_back(
    body: Seq<Seq<u8>>,
    sat: GnssSatelliteId,
    name: Seq<u8>,
    token: Seq<u8>,
    frame: OrientationFrame,
    other: Seq<u8>,
)
    requires
        orientation_frame(body, sat, name, token) == Ok::<(OrientationFrame, Seq<Fault>), Fault>(
            (frame, Seq::empty()),
        ),
        short_values(body, Layout::V3, 11),
        frame.epoch.year >= 0,
    ensures
        orientation_frame(orientation_lines(frame).skip(1), sat, other, token) == Ok::<
            (OrientationFrame, Seq<Fault>),
            Fault,
        >((frame, Seq::empty())),
        indented(orientation_lines(frame).skip(1)),
{
    let w = orientation_lines(frame).skip(1);
    let v = orientation_values(frame);
    let read = values_of(body, Layout::V3, 11);
    lemma_values_ok(body, Layout::V3, 11);
    assert(v.len() == 11);
    assert forall|i: int| 0 <= i < v.len() implies field_ok(#[trigger] v[i]) by {
        if i != 3 {
            assert(v[i] == read[i]);
        }
    }
    lemma_orientation_lines(frame);
    lemma_frame_lines(body[0], w, frame.epoch, v);
    assert(value_at(w, Layout::V3, 0) == v[0] && value_at(w, Layout::V3, 1) == v[1] && value_at(
        w,
        Layout::V3,
        2,
    ) == v[2]);
    assert(value_at(w, Layout::V3, 4) == v[4] && value_at(w, Layout::V3, 5) == v[5] && value_at(
        w,
        Layout::V3,
        6,
    ) == v[6]);
    assert(value_at(w, Layout::V3, 7) == v[7] && value_at(w, Layout::V3, 8) == v[8] && value_at(
        w,
        Layout::V3,
        9,
    ) == v[9] && value_at(w, Layout::V3, 10) == v[10]);
    assert(frame_readable(w, 11));
    let r = orientation_frame(w, sat, other, token);
    assert(r is Ok);
    assert(r->Ok_0.0.xp =~= frame.xp);
    assert(r->Ok_0.0.yp =~= frame.yp);
    assert(r->Ok_0.0.dut1 =~= frame.dut1);
    assert(r->Ok_0.1 =~= Seq::empty());
}

/// What is left without the blank values at the end.
proof fn lemma_drop_blanks(values: Seq<Option<Decimal>>)
    ensures
        drop_blanks(values).len() <= values.len(),
        drop_blanks(values) == values.subrange(0, drop_blanks(values).len() as int),
        drop_blanks(values).len() > 0 ==> drop_blanks(values).last() is Some,
    decreases values.len(),
{
    if values.len() > 0 && values.last() is None {
        lemma_drop_blanks(values.drop_last());
        assert(drop_blanks(values) =~= values.subrange(0, drop_blanks(values).len() as int));
    } else {
        assert(values =~= values.subrange(0, values.len() as int));
    }
}

/// Blank values after values that end in one that is stated are dropped.
proof fn lemma_drop_added(values: Seq<Option<Decimal>>, padded: Seq<Option<Decimal>>)
    requires
        values.len() > 0,
        values.last() is Some,
        padded.len() >= values.len(),
        forall|i: int|
            0 <= i < padded.len() ==> #[trigger] padded[i] == (if i < values.len() {
                values[i]
            } else {
                None
            }),
    ensures
        drop_blanks(padded) == values,
    decreases padded.len(),
{
    if padded.len() > values.len() {
        lemma_drop_added(values, padded.drop_last());
    } else {
        assert(padded =~= values);
    }
}

/// Whether values are all stated, in at most thirteen digits.
pub open spec fn all_stated(values: Seq<Option<Decimal>>) -> bool {
    forall|i: int| 0 <= i < values.len() ==> (#[trigger] values[i]) is Some && field_ok(values[i])
}

/// Stated values fill nineteen columns each.
proof fn lemma_values_text(values: Seq<Option<Decimal>>, from: int, to: int)
    requires
        0 <= from <= to <= values.len(),
        all_stated(values),
    ensures
        values_text(values, from, to).len() == 19 * (to - from),
        printable(values_text(values, from, to)),
        to > from ==> digit(values_text(values, from, to).last()),
    decreases to - from,
{
    if from < to {
        lemma_values_text(values, from, to - 1);
        let head = values_text(values, from, to - 1);
        let last = values[to - 1];
        lemma_stated_field(last);
        let text = field_text(last);
        let all = values_text(values, from, to);
        assert(all == head + text);
        assert(all.last() == text[18]);
        assert forall|i: int| 0 <= i < all.len() implies 32 <= (#[trigger] all[i]) < 0x80 by {
            if i < head.len() {
                assert(all[i] == head[i]);
            } else {
                assert(all[i] == text[i - head.len()]);
            }
        }
    }
}

/// The field of a stated value.
proof fn lemma_stated_field(d: Option<Decimal>)
    requires
        d is Some,
        field_ok(d),
    ensures
        field_text(d).len() == 19,
        printable(field_text(d)),
        digit(field_text(d)[18]),
{
    law_d19_12_reads_back(d->0);
}

/// The columns of one of several stated values.
proof fn lemma_value_part(values: Seq<Option<Decimal>>, from: int, to: int, k: int)
    requires
        0 <= from <= k < to <= values.len(),
        all_stated(values),
    ensures
        values_text(values, from, to).len() == 19 * (to - from),
        values_text(values, from, to).subrange(19 * (k - from), 19 * (k - from) + 19)
            == field_text(values[k]),
    decreases to - from,
{
    lemma_values_text(values, from, to);
    lemma_values_text(values, from, to - 1);
    let head = values_text(values, from, to - 1);
    let all = values_text(values, from, to);
    let at = 19 * (k - from);
    assert(all == head + field_text(values[to - 1]));
    if k < to - 1 {
        lemma_value_part(values, from, to - 1, k);
        assert(all.subrange(at, at + 19) =~= head.subrange(at, at + 19));
    } else {
        lemma_stated_field(values[to - 1]);
        assert(all.subrange(at, at + 19) =~= field_text(values[to - 1]));
    }
}

/// A line of up to four stated values, without blanks at its end.
pub open spec fn partial_text(values: Seq<Option<Decimal>>, from: int, to: int) -> Seq<u8> {
    trim_end_of(spaces(4) + values_text(values, from, to))
}

/// The columns of a line of up to four stated values.
proof fn lemma_partial_text(values: Seq<Option<Decimal>>, from: int, to: int, j: int)
    requires
        0 <= from < to <= values.len(),
        to <= from + 4,
        all_stated(values),
        0 <= j < 4,
    ensures
        ({
            let line = partial_text(values, from, to);
            &&& line.len() == 4 + 19 * (to - from)
            &&& printable(line)
            &&& line[0] == 32
            &&& columns(line, 4 + 19 * j, 23 + 19 * j) == (if from + j < to {
                field_text(values[from + j])
            } else {
                Seq::empty()
            })
        }),
{
    lemma_values_text(values, from, to);
    let rest = values_text(values, from, to);
    let line = spaces(4) + rest;
    assert forall|i: int| 0 <= i < line.len() implies 32 <= (#[trigger] line[i]) < 0x80 by {
        if i >= 4 {
            assert(line[i] == rest[i - 4]);
        }
    }
    assert(line.last() == rest.last());
    lemma_nothing_dropped(line, 0);
    assert(partial_text(values, from, to) =~= line);
    if from + j < to {
        lemma_ascii_columns(line, 4 + 19 * j, 23 + 19 * j);
        assert(line.subrange(4 + 19 * j, 23 + 19 * j) =~= rest.subrange(19 * j, 19 * j + 19));
        lemma_value_part(values, from, to, from + j);
    } else {
        assert(columns(line, 4 + 19 * j, 23 + 19 * j) =~= Seq::empty());
    }
}

/// The lines of an ionosphere frame after its marker.
pub open spec fn ion_body(frame: IonFrame) -> Seq<Seq<u8>> {
    ion_lines_of(frame).skip(1)
}

/// The first line of an ionosphere frame with all values stated.
proof fn lemma_ion_first(frame: IonFrame, second: nat)
    requires
        plain_civil(civil_of(frame.epoch), second),
        3 <= frame.values.len(),
        all_stated(frame.values),
    ensures
        ion_body(frame).len() == 1 + ion_value_lines(frame.values.len() as int),
        ion_body(frame)[0] == epoch_text(
            frame.epoch,
            frame.values[0],
            frame.values[1],
            frame.values[2],
        ),
{
    let v = frame.values;
    let e = frame.epoch;
    assert(v[0] is Some && field_ok(v[0]) && v[1] is Some && field_ok(v[1]) && v[2] is Some
        && field_ok(v[2]));
    lemma_epoch_text(e, second, v[0], v[1], v[2]);
    let first = epoch_text(e, v[0], v[1], v[2]);
    assert(values_text(v, 0, 3) =~= field_text(v[0]) + field_text(v[1]) + field_text(v[2])) by {
        reveal_with_fuel(values_text, 4);
    }
    assert(spaces(4) + civil_text(civil_of(e)) + values_text(v, 0, 3) =~= first);
    lemma_stated_field(v[2]);
    assert(first.last() == field_text(v[2])[18]);
    lemma_nothing_dropped(first, 0);
    assert(trim_end_of(first) =~= first);
}

/// A line of an ionosphere frame after its first.
proof fn lemma_ion_line(frame: IonFrame, j: int)
    requires
        0 <= j < ion_value_lines(frame.values.len() as int),
    ensures
        ion_body(frame)[1 + j] == partial_text(
            frame.values,
            3 + 4 * j,
            if 7 + 4 * j < frame.values.len() {
                7 + 4 * j
            } else {
                frame.values.len() as int
            },
        ),
{
}

/// One field of the lines of an ionosphere frame with all values stated.
#[verifier::spinoff_prover]
#[verifier::rlimit(40)]
proof fn lemma_ion_field(frame: IonFrame, second: nat, i: int)
    requires
        plain_civil(civil_of(frame.epoch), second),
        3 <= frame.values.len(),
        all_stated(frame.values),
        0 <= i < 3 + 4 * ion_value_lines(frame.values.len() as int),
    ensures
        raw_at(ion_body(frame), Layout::V3, i) == (if i < frame.values.len() {
            field_text(frame.values[i])
        } else {
            Seq::empty()
        }),
{
    let v = frame.values;
    let n = v.len() as int;
    let w = ion_body(frame);
    lemma_ion_first(frame, second);
    if i >= 3 {
        let j = (i - 3) / 4;
        let from = 3 + 4 * j;
        let to = if 7 + 4 * j < n { 7 + 4 * j } else { n };
        let at = (i - 3) % 4;
        lemma_ion_line(frame, j);
        lemma_partial_text(v, from, to, at);
        assert(i == from + at);
        assert(raw_at(w, Layout::V3, i) == columns(w[1 + j], 4 + 19 * at, 23 + 19 * at)) by {
            reveal(raw_at);
        }
    } else {
        assert(field_ok(v[0]) && field_ok(v[1]) && field_ok(v[2]));
        lemma_epoch_text(frame.epoch, second, v[0], v[1], v[2]);
        assert(raw_at(w, Layout::V3, i) == columns(w[0], 23 + 19 * i, 42 + 19 * i)) by {
            reveal(raw_at);
        }
    }
}

/// The lines of an ionosphere frame with all values stated: its epoch, and the fields of all.
#[verifier::spinoff_prover]
#[verifier::rlimit(40)]
proof fn lemma_ion_body(source: Seq<u8>, frame: IonFrame)
    requires
        record_epoch(source, Layout::V3, CivilSecondPolicy::Continuous) == Some(frame.epoch),
        frame.epoch.year >= 0,
        3 <= frame.values.len(),
        all_stated(frame.values),
    ensures
        ({
            let w = ion_body(frame);
            let n = frame.values.len() as int;
            &&& w.len() == 1 + ion_value_lines(n)
            &&& indented(w)
            &&& record_epoch(w[0], Layout::V3, CivilSecondPolicy::Continuous) == Some(frame.epoch)
            &&& forall|i: int|
                0 <= i < 4 * w.len() - 1 ==> #[trigger] raw_at(w, Layout::V3, i) == (if i < n {
                    field_text(frame.values[i])
                } else {
                    Seq::empty()
                })
        }),
{
    let v = frame.values;
    let n = v.len() as int;
    let e = frame.epoch;
    let w = ion_body(frame);
    let second = lemma_frame_epoch(source, e);
    lemma_ion_first(frame, second);
    assert(field_ok(v[0]) && field_ok(v[1]) && field_ok(v[2]));
    lemma_epoch_text(e, second, v[0], v[1], v[2]);
    lemma_frame_epoch_again(source, e, w[0]);
    assert forall|k: int| 0 <= k < w.len() implies printable(#[trigger] w[k]) && w[k].len() >= 23
        && w[k][0] == 32 by {
        if k > 0 {
            let from = 3 + 4 * (k - 1);
            let to = if from + 4 < n { from + 4 } else { n };
            lemma_ion_line(frame, k - 1);
            lemma_partial_text(v, from, to, 0);
        }
    }
    assert forall|i: int| 0 <= i < 4 * w.len() - 1 implies #[trigger] raw_at(w, Layout::V3, i) == (
    if i < n {
        field_text(v[i])
    } else {
        Seq::empty()
    }) by {
        lemma_ion_field(frame, second, i);
    }
}

/// The values of an ionosphere frame that is read are all stated, and as many as its model takes.
proof fn lemma_ion_stated(body: Seq<Seq<u8>>, kind: IonKind)
    requires
        ion_model(ion_values(body, kind), kind) is Some,
        short_values(body, Layout::V3, 9),
    ensures
        all_stated(ion_values(body, kind)),
        ({
            let n = ion_values(body, kind).len();
            if kind == IonKind::Nequick {
                3 <= n <= 4
            } else {
                8 <= n <= 9
            }
        }),
{
    let values = ion_values(body, kind);
    let used = field_count(
        if body.len() < ion_lines(kind) {
            body.len() as int
        } else {
            ion_lines(kind)
        },
    );
    let all = Seq::new(
        (if used < ion_count(kind) {
            used
        } else {
            ion_count(kind)
        }) as nat,
        |i: int| value_at(body, Layout::V3, i),
    );
    assert(values == drop_blanks(all));
    lemma_drop_blanks(all);
    let needed: int = if kind == IonKind::Nequick {
        3
    } else if kind == IonKind::Klobuchar {
        8
    } else {
        9
    };
    assert(ion_values_given(values, needed));
    assert(ion_value(values, needed - 1) is Some);
    assert(values.len() >= needed);
    lemma_values_ok(body, Layout::V3, 9);
    assert forall|i: int| 0 <= i < values.len() implies (#[trigger] values[i]) is Some && field_ok(
        values[i],
    ) by {
        assert(values[i] == all[i]);
        assert(field_ok(values_of(body, Layout::V3, 9)[i]));
        if i < needed {
            assert(ion_value(values, i) is Some);
        } else {
            assert(values[i] == values.last());
        }
    }
}

/// An ionosphere frame that was read, with values of at most thirteen digits, is written as lines
/// that read back as the same frame, without a departure.
#[verifier::spinoff_prover]
#[verifier::rlimit(40)]
pub proof fn law_ionosphere_reads_back(
    body: Seq<Seq<u8>>,
    sat: GnssSatelliteId,
    name: Seq<u8>,
    token: Seq<u8>,
    frame: IonFrame,
    other: Seq<u8>,
)
    requires
        ion_frame(body, sat, name, token) == Ok::<Option<(IonFrame, Seq<Fault>)>, Fault>(
            Some((frame, Seq::empty())),
        ),
        short_values(body, Layout::V3, 9),
        frame.epoch.year >= 0,
    ensures
        ion_frame(ion_body(frame), sat, other, token) == Ok::<
            Option<(IonFrame, Seq<Fault>)>,
            Fault,
        >(Some((frame, Seq::empty()))),
        indented(ion_body(frame)),
{
    let kind = ion_kind(sat.system, token)->0;
    let values = frame.values;
    let n = values.len() as int;
    lemma_ion_stated(body, kind);
    lemma_ion_body(body[0], frame);
    let w = ion_body(frame);
    let lines = w.len() as int;
    assert(lines <= ion_lines(kind));
    assert(n <= 4 * lines - 1);
    assert(field_count(lines) == 4 * lines - 1);
    assert forall|i: int| 0 <= i < 4 * lines - 1 implies #[trigger] value_at(w, Layout::V3, i) == (
    if i < n {
        values[i]
    } else {
        None
    }) by {
        if i < n {
            lemma_field_text(values[i]);
        } else {
            lemma_blank_empty();
        }
        assert(raw_at(w, Layout::V3, i) == (if i < n {
            field_text(values[i])
        } else {
            Seq::empty()
        }));
    }
    assert forall|i: int| 0 <= i < field_count(lines) implies (blank(
        #[trigger] raw_at(w, Layout::V3, i),
    ) || value_at(w, Layout::V3, i) is Some) by {
        if i < n {
            assert(value_at(w, Layout::V3, i) == values[i]);
        } else {
            lemma_blank_empty();
        }
    }
    let padded = Seq::new(
        (if field_count(lines) < ion_count(kind) {
            field_count(lines)
        } else {
            ion_count(kind)
        }) as nat,
        |i: int| value_at(w, Layout::V3, i),
    );
    lemma_drop_added(values, padded);
    assert(ion_values(w, kind) == values);
    let r = ion_frame(w, sat, other, token);
    assert(extra_departures(w, ion_lines(kind), other) =~= Seq::empty());
}

/// A field past the end of a line is blank and states no value.
proof fn lemma_blank_empty()
    ensures
        blank(Seq::<u8>::empty()),
        stated_value(Seq::<u8>::empty()) is None,
{
    assert(trim_of(Seq::<u8>::empty()) =~= Seq::empty());
    lemma_blank_unstated(Seq::empty());
}

/// Blanks at the end of a text are dropped.
pub proof fn lemma_drop_to(b: Seq<u8>, start: int, to: int, end: int)
    requires
        printable(b),
        0 <= start < to <= end <= b.len(),
        inked(b[to - 1]),
        forall|k: int| to <= k < end ==> b[k] == 32,
    ensures
        drop_space(b, start, end) == to,
    decreases end - to,
{
    let t = b.subrange(0, end);
    if to < end {
        assert(t[end - 1] == 32);
        assert(space_at(t, end - 1) == 1);
        lemma_drop_to(b, start, to, end - 1);
    } else {
        assert(t[end - 1] == b[end - 1]);
        assert(space_at(t, end - 1) == 0);
        if end >= 2 {
            assert(t[end - 2] == b[end - 2] && b[end - 2] < 0x80);
        }
        if end >= 3 {
            assert(t[end - 3] == b[end - 3] && b[end - 3] < 0x80);
        }
        assert(space_before(b, end) == 0);
    }
}

/// No white space is left before where dropping it ends.
pub proof fn lemma_dropped(b: Seq<u8>, start: int, end: int)
    requires
        0 <= start <= end <= b.len(),
    ensures
        ({
            let m = drop_space(b, start, end);
            start <= m <= end && (m > start ==> space_at(b.subrange(0, m), m - 1) != 1)
        }),
    decreases end,
{
    if start < end && space_before(b, end) > 0 && end - space_before(b, end) >= start {
        lemma_dropped(b, start, end - space_before(b, end));
    }
}

/// A text without white space at its ends, of one-byte characters, has ink at both.
pub proof fn lemma_trimmed_inked(b: Seq<u8>)
    requires
        printable(trim_of(b)),
        trim_of(b).len() > 0,
    ensures
        inked(trim_of(b)[0]),
        inked(trim_of(b).last()),
        trim_of(b).len() <= b.len(),
{
    let start = skip_space(b, 0);
    lemma_skip_space(b, 0);
    lemma_dropped(b, start, b.len() as int);
    let m = drop_space(b, start, b.len() as int);
    let t = trim_of(b);
    assert(t[0] == b[start] && 32 <= t[0] < 0x80);
    assert(t.last() == b[m - 1] && 32 <= t[t.len() - 1] < 0x80);
    assert(b.subrange(0, m)[m - 1] == b[m - 1]);
}

/// One-byte characters are counted by their bytes.
pub proof fn lemma_char_count(t: Seq<u8>)
    requires
        printable(t),
    ensures
        char_count(t) == t.len(),
    decreases t.len(),
{
    if t.len() > 0 {
        let head = t.drop_last();
        assert forall|i: int| 0 <= i < head.len() implies 32 <= (#[trigger] head[i]) < 0x80 by {
            assert(head[i] == t[i]);
        }
        lemma_char_count(head);
        assert(32 <= t[t.len() - 1] < 0x80);
    }
}

/// Whether a label read from eighteen columns is of one-byte characters.
pub open spec fn plain_label(t: Option<Seq<u8>>) -> bool {
    t matches Some(t) ==> printable(t)
}

/// A label as eighteen columns.
pub open spec fn label_columns(t: Option<Seq<u8>>) -> Seq<u8> {
    left(text_or_empty(t), 18)
}

/// A label that was read fills eighteen columns.
proof fn lemma_label_columns(source: Seq<u8>, start: int, t: Option<Seq<u8>>)
    requires
        text_at(source, start, start + 18) == t,
        plain_label(t),
    ensures
        label_columns(t).len() == 18,
        printable(label_columns(t)),
        (if trim_of(label_columns(t)).len() == 0 {
            None
        } else {
            Some(trim_of(label_columns(t)))
        }) == t,
{
    let b = label_columns(t);
    match t {
        Some(t) => {
            let c = columns(source, start, start + 18);
            lemma_trimmed_inked(c);
            assert(c.len() <= 18);
            lemma_char_count(t);
            assert(b =~= t + spaces((18 - t.len()) as nat));
            assert forall|i: int| 0 <= i < b.len() implies 32 <= (#[trigger] b[i]) < 0x80 by {
                if i < t.len() {
                    assert(b[i] == t[i]);
                }
            }
            assert(b[0] == t[0]);
            assert(b[t.len() - 1] == t.last());
            lemma_skip_blanks(b, 0, 0);
            lemma_drop_to(b, 0, t.len() as int, 18);
            assert(trim_of(b) =~= t);
        },
        None => {
            assert(b =~= spaces(18));
            lemma_spaces_blank(18);
        },
    }
}

/// The first line of a system time offset frame.
pub open spec fn offset_text(frame: OffsetFrame) -> Seq<u8> {
    spaces(4) + civil_text(civil_of(frame.epoch)) + spaces(1) + label_columns(Some(frame.code))
        + spaces(1) + label_columns(frame.sbas_id) + spaces(1) + label_columns(frame.utc_id)
}

/// The columns of the first line of a system time offset frame.
#[verifier::spinoff_prover]
#[verifier::rlimit(40)]
proof fn lemma_offset_text(source: Seq<u8>, frame: OffsetFrame, second: nat)
    requires
        plain_civil(civil_of(frame.epoch), second),
        text_at(source, 24, 42) == Some(frame.code),
        text_at(source, 43, 61) == frame.sbas_id,
        text_at(source, 62, 80) == frame.utc_id,
        printable(frame.code),
        plain_label(frame.sbas_id),
        plain_label(frame.utc_id),
    ensures
        ({
            let line = offset_text(frame);
            &&& line.len() == 80
            &&& printable(line)
            &&& line[0] == 32
            &&& line.subrange(4, 23) == civil_text(civil_of(frame.epoch))
            &&& text_at(line, 24, 42) == Some(frame.code)
            &&& text_at(line, 43, 61) == frame.sbas_id
            &&& text_at(line, 62, 80) == frame.utc_id
        }),
{
    let civil = civil_text(civil_of(frame.epoch));
    lemma_civil_text(civil_of(frame.epoch), second);
    let (a, b, c) = (
        label_columns(Some(frame.code)),
        label_columns(frame.sbas_id),
        label_columns(frame.utc_id),
    );
    lemma_label_columns(source, 24, Some(frame.code));
    lemma_label_columns(source, 43, frame.sbas_id);
    lemma_label_columns(source, 62, frame.utc_id);
    let line = offset_text(frame);
    assert(line.len() == 80);
    assert forall|i: int| 0 <= i < line.len() implies 32 <= (#[trigger] line[i]) < 0x80 by {
        if 4 <= i < 23 {
            assert(line[i] == civil[i - 4]);
        } else if 24 <= i < 42 {
            assert(line[i] == a[i - 24]);
        } else if 43 <= i < 61 {
            assert(line[i] == b[i - 43]);
        } else if 62 <= i {
            assert(line[i] == c[i - 62]);
        }
    }
    lemma_ascii_columns(line, 24, 42);
    lemma_ascii_columns(line, 43, 61);
    lemma_ascii_columns(line, 62, 80);
    assert(line.subrange(4, 23) =~= civil);
    assert(line.subrange(24, 42) =~= a);
    assert(line.subrange(43, 61) =~= b);
    assert(line.subrange(62, 80) =~= c);
}

/// A system time offset frame that was read, with values of at most thirteen digits and labels of
/// one-byte characters, is written as lines that read back as the same frame, without a departure.
#[verifier::spinoff_prover]
#[verifier::rlimit(40)]
pub proof fn law_offset_reads_back(
    body: Seq<Seq<u8>>,
    sat: GnssSatelliteId,
    name: Seq<u8>,
    token: Seq<u8>,
    frame: OffsetFrame,
    other: Seq<u8>,
)
    requires
        offset_frame(body, sat, name, token) == Ok::<(OffsetFrame, Seq<Fault>), Fault>(
            (frame, Seq::empty()),
        ),
        short_values(body, Layout::V3, 7),
        frame.epoch.year >= 0,
        printable(frame.code),
        plain_label(frame.sbas_id),
        plain_label(frame.utc_id),
    ensures
        offset_frame(offset_lines(frame).skip(1), sat, other, token) == Ok::<
            (OffsetFrame, Seq<Fault>),
            Fault,
        >((frame, Seq::empty())),
        indented(offset_lines(frame).skip(1)),
{
    lemma_offset_body(body, sat, name, token, frame);
    let w = offset_lines(frame).skip(1);
    assert(offset_values_read(w));
    assert(extra_departures(w, 2, other) =~= Seq::empty());
}

/// The lines of a system time offset frame after its marker state what it holds.
#[verifier::spinoff_prover]
#[verifier::rlimit(40)]
proof fn lemma_offset_body(
    body: Seq<Seq<u8>>,
    sat: GnssSatelliteId,
    name: Seq<u8>,
    token: Seq<u8>,
    frame: OffsetFrame,
)
    requires
        offset_frame(body, sat, name, token) == Ok::<(OffsetFrame, Seq<Fault>), Fault>(
            (frame, Seq::empty()),
        ),
        short_values(body, Layout::V3, 7),
        frame.epoch.year >= 0,
        printable(frame.code),
        plain_label(frame.sbas_id),
        plain_label(frame.utc_id),
    ensures
        ({
            let w = offset_lines(frame).skip(1);
            &&& w.len() == 2
            &&& indented(w)
            &&& record_epoch(w[0], Layout::V3, CivilSecondPolicy::Continuous) == Some(frame.epoch)
            &&& text_at(w[0], 24, 42) == Some(frame.code)
            &&& text_at(w[0], 43, 61) == frame.sbas_id
            &&& text_at(w[0], 62, 80) == frame.utc_id
            &&& value_at(w, Layout::V3, 3) == Some(frame.sent)
            &&& value_at(w, Layout::V3, 4) == Some(frame.a0)
            &&& value_at(w, Layout::V3, 5) == frame.a1
            &&& value_at(w, Layout::V3, 6) == frame.a2
            &&& frame.a1 is None ==> blank(raw_at(w, Layout::V3, 5))
            &&& frame.a2 is None ==> blank(raw_at(w, Layout::V3, 6))
        }),
{
    let w = offset_lines(frame).skip(1);
    let read = values_of(body, Layout::V3, 7);
    lemma_values_ok(body, Layout::V3, 7);
    let (a, b, c, d) = (Some(frame.sent), Some(frame.a0), frame.a1, frame.a2);
    assert(a == read[3] && b == read[4] && c == read[5] && d == read[6]);
    assert(field_ok(a) && field_ok(b) && field_ok(c) && field_ok(d));
    let second = lemma_frame_epoch(body[0], frame.epoch);
    lemma_offset_text(body[0], frame, second);
    assert(w.len() == 2);
    assert(w[0] =~= offset_text(frame));
    lemma_frame_epoch_again(body[0], frame.epoch, w[0]);
    lemma_orbit_text(a, b, c, d);
    assert(w[1] == orbit_text(4, a, b, c, d));
    lemma_offset_values(w, a, b, c, d);
    assert(indented(w)) by {
        assert(w[0].len() == 80 && w[1].len() == 80);
    }
}

/// The values of the second line of a frame.
proof fn lemma_offset_values(
    w: Seq<Seq<u8>>,
    a: Option<Decimal>,
    b: Option<Decimal>,
    c: Option<Decimal>,
    d: Option<Decimal>,
)
    requires
        w.len() == 2,
        w[1] == orbit_text(4, a, b, c, d),
        field_ok(a),
        field_ok(b),
        field_ok(c),
        field_ok(d),
    ensures
        value_at(w, Layout::V3, 3) == a,
        value_at(w, Layout::V3, 4) == b,
        value_at(w, Layout::V3, 5) == c,
        value_at(w, Layout::V3, 6) == d,
        c is None ==> blank(raw_at(w, Layout::V3, 5)),
        d is None ==> blank(raw_at(w, Layout::V3, 6)),
{
    lemma_orbit_text(a, b, c, d);
    lemma_field_text(a);
    lemma_field_text(b);
    lemma_field_text(c);
    lemma_field_text(d);
    reveal(raw_at);
    assert(raw_at(w, Layout::V3, 3) == field_text(a));
    assert(raw_at(w, Layout::V3, 4) == field_text(b));
    assert(raw_at(w, Layout::V3, 5) == field_text(c));
    assert(raw_at(w, Layout::V3, 6) == field_text(d));
}

} // verus!

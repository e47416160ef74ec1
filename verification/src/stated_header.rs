//! What header records and ionosphere frames state: the columns of each value, and the coefficients
//! that they put in effect.

use vstd::prelude::*;

use crate::decimal::{digit, field_number, number, pow10, Decimal};
use crate::file::{leap_seconds_of, plain_lines};
use crate::frame_reread::lemma_drop_to;
use crate::frames::{
    counts_at, effect_of, ion_model, ion_value, law_latest_frame_in_effect, ordered, IonFrame,
    IonKind, IonSet, IonosphereModel,
};
use crate::header::{
    column_char, empty_scan, header_of, iono_of, klobuchar_pair, klobuchar_row, label_of, last_row,
    leap_record, point_at, row_given, scan_lines, scanned, supported_type, v2_correction,
    v3_correction, version_line, version_of, Leap, ReadRow, Scan,
};
use crate::header_reread::lemma_header_labels;
use crate::id::GnssSystem;
use crate::numerals::{digits_only, law_integer, lemma_place_value, place_value};
use crate::positions::integer_in;
use crate::record::{IonoCorrections, KlobucharAlphaBeta, NavVersion};
use crate::reread::{lemma_ascii_columns, lemma_digit_run_to, printable};
use crate::text::{blank, columns, lemma_utf8_ascii, space_at, text_at, trim_end_of, trim_of, utf8};
use crate::time::Seconds;

verus! {

/// The label of a header line: its columns 61 to 80.
pub open spec fn labelled_as(line: Seq<u8>, label: Seq<u8>) -> bool {
    trim_end_of(columns(line, 60, 80)) == label
}

/// The number in some columns of a header line; none where they are blank.
pub open spec fn header_field(line: Seq<u8>, from: int, to: int) -> Option<Decimal> {
    field_number(columns(line, from, to))
}

/// Blank columns hold no number.
proof fn lemma_blank_field()
    ensures
        forall|raw: Seq<u8>| #[trigger] blank(raw) ==> field_number(raw) is None,
{
    reveal(number);
    let none = Seq::<u8>::empty();
    assert(number(none) is None);
    assert forall|raw: Seq<u8>| #[trigger] blank(raw) implies field_number(raw) is None by {
        assert(trim_of(raw) =~= none);
    }
}

/// An ionosphere record is one row: its four coefficients are in columns 6 to 53, twelve each, with
/// its label in columns 1 to 4.
pub proof fn law_ionosphere_row(scan: Scan, line: Seq<u8>, number: int, require: bool)
    ensures
        labelled_as(line, utf8("IONOSPHERIC CORR"@)) ==> match scanned(scan, line, number, require) {
            Ok(next) => {
                let row = next.rows.last().row;
                &&& next.rows.len() == scan.rows.len() + 1
                &&& next.rows.drop_last() == scan.rows
                &&& row.label == trim_of(columns(line, 0, 4))
                &&& row.values == seq![
                    header_field(line, 5, 17),
                    header_field(line, 17, 29),
                    header_field(line, 29, 41),
                    header_field(line, 41, 53),
                ]
                &&& row.mark == (match text_at(line, 54, 55) {
                    Some(t) => Some(t[0] as char),
                    None => None,
                })
                &&& row.satellite == text_at(line, 56, 59)
            },
            Err(_) => false,
        },
{
    reveal(scanned);
    lemma_header_labels();
    if let Ok(next) = scanned(scan, line, number, require) {
        if labelled_as(line, utf8("IONOSPHERIC CORR"@)) {
            assert(next.rows.drop_last() =~= scan.rows);
            assert(next.rows.last().row.values =~= seq![
                header_field(line, 5, 17),
                header_field(line, 17, 29),
                header_field(line, 29, 41),
                header_field(line, 41, 53),
            ]);
        }
    }
}

/// A RINEX 2 ionosphere record is one row too, with its coefficients in columns 3 to 50: the row of
/// GPS alpha or of GPS beta.
pub proof fn law_ionosphere_pair(scan: Scan, line: Seq<u8>, number: int, require: bool)
    ensures
        labelled_as(line, utf8("ION ALPHA"@)) || labelled_as(line, utf8("ION BETA"@)) ==> match scanned(
            scan,
            line,
            number,
            require,
        ) {
            Ok(next) => {
                let row = next.rows.last().row;
                &&& next.rows.len() == scan.rows.len() + 1
                &&& next.rows.drop_last() == scan.rows
                &&& row.label == (if labelled_as(line, utf8("ION ALPHA"@)) {
                    utf8("GPSA"@)
                } else {
                    utf8("GPSB"@)
                })
                &&& row.values == seq![
                    header_field(line, 2, 14),
                    header_field(line, 14, 26),
                    header_field(line, 26, 38),
                    header_field(line, 38, 50),
                ]
            },
            Err(_) => false,
        },
{
    reveal(scanned);
    lemma_header_labels();
    if labelled_as(line, utf8("ION ALPHA"@)) || labelled_as(line, utf8("ION BETA"@)) {
        let next = scanned(scan, line, number, require)->Ok_0;
        assert(next.rows.drop_last() =~= scan.rows);
        assert(next.rows.last().row.values =~= seq![
            header_field(line, 2, 14),
            header_field(line, 14, 26),
            header_field(line, 26, 38),
            header_field(line, 38, 50),
        ]);
    }
}

/// A version record states the version in columns 1 to 9, the file type in column 21 and the
/// satellite system in column 41.
pub proof fn law_version_record(scan: Scan, line: Seq<u8>, number: int)
    requires
        labelled_as(line, utf8("RINEX VERSION / TYPE"@)),
        line.len() > 60,
        printable(line),
    ensures
        match scanned(scan, line, number, true) {
            Ok(next) => next.version matches Some((version, file_type, system)) && version_of(
                trim_of(line.subrange(0, 9)),
            ) == Some(version) && file_type == line[20] as char && (if line[40] == 32 {
                system is None
            } else {
                system == Some(line[40] as char)
            }),
            Err(fault) => fault is UnsupportedHeader,
        },
{
    reveal(scanned);
    lemma_ascii_columns(line, 0, 9);
    lemma_ascii_columns(line, 20, 21);
    lemma_ascii_columns(line, 40, 41);
    let t = line.subrange(40, 41);
    assert(t[0] == line[40]);
}

/// A version is a major number, a point and the digits of the minor number.
pub proof fn law_version_text(major: Seq<u8>, minor: Seq<u8>)
    requires
        digits_only(major),
        major.len() == 1,
        digits_only(minor),
        1 <= minor.len() <= 3,
        50 <= major[0] <= 52,
        place_value(minor) <= 255,
    ensures
        version_of(major + seq![46u8] + minor) == Some(
            NavVersion { major: (major[0] - 48) as u8, minor: place_value(minor) as u8 },
        ),
{
    let b = major + seq![46u8] + minor;
    assert(b[1] == 46);
    assert(b[0] == major[0]);
    reveal_with_fuel(point_at, 3);
    assert(point_at(b, 0) == 1);
    assert(b.subrange(0, 1) =~= major);
    assert forall|k: int| 2 <= k < b.len() implies digit(#[trigger] b[k]) by {
        assert(minor[k - 2] == b[k]);
    }
    lemma_digit_run_to(b, 2, b.len() as int);
    assert(b.subrange(2, b.len() as int) =~= minor);
    lemma_place_value(minor);
    assert(trim_of(major) == major) by {
        assert(space_at(major, 0) == 0);
        lemma_drop_to(major, 0, 1, 1);
        assert(major.subrange(0, 1) =~= major);
    }
    law_integer(Seq::empty(), major);
    assert(Seq::<u8>::empty() + major =~= major);
    assert(Seq::<u8>::empty() != seq![45u8]) by {
        assert(seq![45u8].len() == 1);
    }
    assert(major.drop_first() =~= Seq::empty());
    assert(pow10(0) == 1);
    assert(place_value(Seq::<u8>::empty()) == 0);
    let d = (major[0] - 48) as nat;
    assert(d * pow10(0) == d) by (nonlinear_arith)
        requires
            pow10(0) == 1,
    ;
    assert(place_value(major) == d);
}

/// A time system correction states its type in columns 1 to 4, `a0` in columns 6 to 22, `a1` in 23 to
/// 38, the reference time in 39 to 45 and the week in 46 to 50, the source in 52 to 56 and the UTC
/// identifier in 58 and 59.
pub proof fn law_correction_record(scan: Scan, line: Seq<u8>, number: int, require: bool)
    requires
        labelled_as(line, utf8("TIME SYSTEM CORR"@)),
    ensures
        scanned(scan, line, number, require) matches Ok(next) && (next.corrections == scan.corrections
            || {
            let c = next.corrections.last();
            &&& next.corrections == scan.corrections.push(c)
            &&& c.code == trim_of(columns(line, 0, 4))
            &&& Some(c.a0) == header_field(line, 5, 22)
            &&& c.a1 == header_field(line, 22, 38)
            &&& c.time == header_field(line, 38, 45)
            &&& c.week == header_field(line, 45, 50)
            &&& c.source == text_at(line, 51, 56)
            &&& c.utc_id == text_at(line, 57, 59)
        }),
{
    lemma_header_labels();
    lemma_correction_labels();
    assert(label_of(line) is TimeSystem);
    lemma_correction_columns(line);
    let next = scanned(scan, line, number, require)->Ok_0;
    assert(scanned(scan, line, number, require) is Ok && next.corrections == (match v3_correction(
        line,
    ) {
        Some(c) => scan.corrections.push(c),
        None => scan.corrections,
    })) by {
        reveal(scanned);
    }
    if let Some(c) = v3_correction(line) {
        assert(scan.corrections.push(c).last() == c);
    }
}

/// A RINEX 2 correction is GPS to UTC, with `a0` in columns 4 to 22, `a1` in 23 to 41, the time in 42
/// to 50 and the week in 51 to 59.
pub proof fn law_utc_record(scan: Scan, line: Seq<u8>, number: int, require: bool)
    requires
        labelled_as(line, utf8("DELTA-UTC: A0,A1,T,W"@)),
    ensures
        scanned(scan, line, number, require) matches Ok(next) && (next.corrections == scan.corrections
            || {
            let c = next.corrections.last();
            &&& next.corrections == scan.corrections.push(c)
            &&& c.code == utf8("GPUT"@)
            &&& Some(c.a0) == header_field(line, 3, 22)
            &&& c.a1 == header_field(line, 22, 41)
            &&& c.time == header_field(line, 41, 50)
            &&& c.week == header_field(line, 50, 59)
        }),
{
    lemma_header_labels();
    lemma_correction_labels();
    assert(label_of(line) is DeltaUtc);
    lemma_correction_columns(line);
    let next = scanned(scan, line, number, require)->Ok_0;
    assert(scanned(scan, line, number, require) is Ok && next.corrections == (match v2_correction(
        line,
    ) {
        Some(c) => scan.corrections.push(c),
        None => scan.corrections,
    })) by {
        reveal(scanned);
    }
    if let Some(c) = v2_correction(line) {
        assert(scan.corrections.push(c).last() == c);
    }
}

/// The labels of the two corrections are no others.
proof fn lemma_correction_labels()
    ensures
        utf8("DELTA-UTC: A0,A1,T,W"@).len() == 20,
        utf8("DELTA-UTC: A0,A1,T,W"@)[0] == 68,
        utf8("RINEX VERSION / TYPE"@)[0] == 82,
{
    reveal_strlit("DELTA-UTC: A0,A1,T,W");
    reveal_strlit("RINEX VERSION / TYPE");
    lemma_utf8_ascii("DELTA-UTC: A0,A1,T,W"@);
    lemma_utf8_ascii("RINEX VERSION / TYPE"@);
}

/// The values of a correction by columns.
proof fn lemma_correction_columns(line: Seq<u8>)
    ensures
        v3_correction(line) matches Some(c) ==> c.code == trim_of(columns(line, 0, 4)) && Some(c.a0)
            == header_field(line, 5, 22) && c.a1 == header_field(line, 22, 38) && c.time
            == header_field(line, 38, 45) && c.week == header_field(line, 45, 50) && c.source
            == text_at(line, 51, 56) && c.utc_id == text_at(line, 57, 59),
        v2_correction(line) matches Some(c) ==> c.code == utf8("GPUT"@) && Some(c.a0) == header_field(
            line,
            3,
            22,
        ) && c.a1 == header_field(line, 22, 41) && c.time == header_field(line, 41, 50) && c.week
            == header_field(line, 50, 59),
{
    lemma_blank_field();
}

/// A leap second record states the leap seconds in columns 1 to 6, those to come in 7 to 12, the week
/// in 13 to 18 and the day in 19 to 24, and the time system in 25 to 27.
pub proof fn law_leap_record(scan: Scan, line: Seq<u8>, number: int, require: bool)
    ensures
        labelled_as(line, utf8("LEAP SECONDS"@)) ==> match scanned(scan, line, number, require) {
            Ok(next) => next.leap == scan.leap || (next.leap matches Some(l) && {
                &&& integer_in(header_field(line, 0, 6), l.current)
                &&& l.future matches Some(n) ==> integer_in(header_field(line, 6, 12), n)
                &&& l.week matches Some(n) ==> integer_in(header_field(line, 12, 18), n)
                &&& l.day matches Some(n) ==> integer_in(header_field(line, 18, 24), n)
                &&& l.system == text_at(line, 24, 27)
            }),
            Err(_) => false,
        },
        labelled_as(line, utf8("LEAP SECONDS"@)) && blank(columns(line, 6, 24)) && (header_field(
            line,
            0,
            6,
        ) matches Some(d) && (d.integer() matches Some(n) && -1000000 <= n <= 1000000)) && blank(
            columns(line, 6, 12),
        ) && blank(columns(line, 12, 18)) && blank(columns(line, 18, 24)) ==> (scanned(
            scan,
            line,
            number,
            require,
        ) matches Ok(next) && next.leap is Some),
{
    reveal(scanned);
    lemma_header_labels();
    lemma_blank_field();
}

/// A program record states the program in columns 1 to 20, who ran it in 21 to 40 and the date in 41
/// to 60, and a comment is the first sixty columns of its line.
pub proof fn law_program_record(scan: Scan, line: Seq<u8>, number: int, require: bool)
    ensures
        labelled_as(line, utf8("PGM / RUN BY / DATE"@)) ==> (scanned(scan, line, number, require)
            matches Ok(next) && (next.program matches Some(p) && p.program == trim_of(
            columns(line, 0, 20),
        ) && p.run_by == trim_of(columns(line, 20, 40)) && p.date == trim_of(columns(line, 40, 60)))),
        labelled_as(line, utf8("COMMENT"@)) ==> (scanned(scan, line, number, require) matches Ok(next)
            && next.comments == scan.comments.push(trim_end_of(columns(line, 0, 60)))),
{
    reveal(scanned);
    lemma_header_labels();
}

/// Whether a line states leap seconds.
pub open spec fn states_leap(line: Seq<u8>, leap: Leap) -> bool {
    &&& labelled_as(line, utf8("LEAP SECONDS"@))
    &&& integer_in(header_field(line, 0, 6), leap.current)
    &&& leap.future matches Some(n) ==> integer_in(header_field(line, 6, 12), n)
    &&& leap.week matches Some(n) ==> integer_in(header_field(line, 12, 18), n)
    &&& leap.day matches Some(n) ==> integer_in(header_field(line, 18, 24), n)
}

/// Whether a line states a version and file type.
pub open spec fn states_version(line: Seq<u8>, version: NavVersion, file_type: char) -> bool {
    &&& labelled_as(line, utf8("RINEX VERSION / TYPE"@))
    &&& version_of(trim_of(columns(line, 0, 9))) == Some(version)
    &&& column_char(line, 20) == Some(file_type)
}

/// The values of a leap second record by columns.
proof fn lemma_leap_columns(line: Seq<u8>)
    ensures
        leap_record(line) matches Some(l) ==> integer_in(header_field(line, 0, 6), l.current) && (
        l.future matches Some(n) ==> integer_in(header_field(line, 6, 12), n)) && (
        l.week matches Some(n) ==> integer_in(header_field(line, 12, 18), n)) && (
        l.day matches Some(n) ==> integer_in(header_field(line, 18, 24), n)),
{
    lemma_blank_field();
}

/// One line changes the leap seconds and the version only where it states them.
proof fn lemma_line_states(scan: Scan, line: Seq<u8>, number: int, require: bool)
    ensures
        scanned(scan, line, number, require) matches Ok(next) ==> {
            &&& next.leap == scan.leap || (next.leap matches Some(l) && states_leap(line, l))
            &&& next.version == scan.version || (next.version matches Some((v, t, _))
                && states_version(line, v, t))
        },
{
    if let Ok(next) = scanned(scan, line, number, require) {
        assert(next.leap == scan.leap || (label_of(line) is Leap && next.leap == leap_record(line)
            && next.leap is Some)) by {
            reveal(scanned);
        }
        assert(next.version == scan.version || (label_of(line) is Version && next.version
            == version_line(line) && next.version is Some)) by {
            reveal(scanned);
        }
        lemma_leap_columns(line);
    }
}

/// What the lines before the end of a header state.
proof fn lemma_lines_state(lines: Seq<Seq<u8>>, from: int, scan: Scan, require: bool)
    requires
        0 <= from,
    ensures
        scan_lines(lines, from, scan, require) matches Ok((s, _, _)) ==> {
            &&& s.leap == scan.leap || (s.leap matches Some(l) && exists|k: int|
                from <= k < lines.len() && states_leap(#[trigger] lines[k], l))
            &&& s.version == scan.version || (s.version matches Some((v, t, _)) && exists|k: int|
                from <= k < lines.len() && states_version(#[trigger] lines[k], v, t))
        },
    decreases lines.len() - from,
{
    if 0 <= from < lines.len() && !(label_of(lines[from]) is End) {
        lemma_line_states(scan, lines[from], from + 1, require);
        if let Ok(next) = scanned(scan, lines[from], from + 1, require) {
            lemma_lines_state(lines, from + 1, next, require);
        }
    }
}

/// Every version holds files of the type `N`, and RINEX 2 also those of `G`, `H`, `J` and `L`.
pub proof fn law_file_types(version: NavVersion, file_type: char)
    ensures
        supported_type(version, 'N'),
        supported_type(version, file_type) <==> file_type == 'N' || version.major == 2 && (file_type
            == 'G' || file_type == 'H' || file_type == 'J' || file_type == 'L'),
{
}

/// The version and file type of a header are those of one of its version records, and its leap
/// seconds those of one of its leap second records.
pub proof fn law_header_records(lines: Seq<Seq<u8>>)
    ensures
        header_of(lines, true) matches Ok((header, _, _)) ==> {
            &&& exists|k: int|
                0 <= k < lines.len() && states_version(
                    #[trigger] lines[k],
                    header.version,
                    header.file_type,
                )
            &&& header.leap matches Some(l) ==> exists|k: int|
                0 <= k < lines.len() && states_leap(#[trigger] lines[k], l)
        },
{
    lemma_lines_state(lines, 0, empty_scan(), true);
}

/// The leap seconds read from a text are the number in columns 1 to 6 of one of its leap second
/// records.
pub proof fn law_leap_seconds_read(b: Seq<u8>)
    ensures
        leap_seconds_of(b) matches Ok(Some(n)) ==> exists|k: int|
            0 <= k < plain_lines(b).len() && labelled_as(
                #[trigger] plain_lines(b)[k],
                utf8("LEAP SECONDS"@),
            ) && integer_in(header_field(plain_lines(b)[k], 0, 6), n),
{
    let lines = plain_lines(b);
    lemma_lines_state(lines, 0, empty_scan(), false);
    if let Ok(Some(n)) = leap_seconds_of(b) {
        let scan = scan_lines(lines, 0, empty_scan(), false)->Ok_0.0;
        let l = scan.leap->0;
        let k = choose|k: int| 0 <= k < lines.len() && states_leap(#[trigger] lines[k], l);
        assert(labelled_as(lines[k], utf8("LEAP SECONDS"@)));
    }
}

/// The rows a header keeps are those of its records, and a later row of a label replaces an earlier
/// one: the coefficients of a system are those of the last rows of its two labels, alpha and beta, and
/// for Galileo of the last row `GAL`, in order.
pub proof fn law_header_sets(rows: Seq<ReadRow>)
    ensures
        ({
            let c = iono_of(rows);
            &&& klobuchar_of(c.gps, last_row(rows, utf8("GPSA"@)), last_row(rows, utf8("GPSB"@)))
            &&& klobuchar_of(c.qzss, last_row(rows, utf8("QZSA"@)), last_row(rows, utf8("QZSB"@)))
            &&& klobuchar_of(c.beidou, last_row(rows, utf8("BDSA"@)), last_row(rows, utf8("BDSB"@)))
            &&& klobuchar_of(c.navic, last_row(rows, utf8("IRNA"@)), last_row(rows, utf8("IRNB"@)))
            &&& c.beidou_bdgim is None
            &&& match (c.galileo, last_row(rows, utf8("GAL"@))) {
                (Some(g), Some(r)) => {
                    &&& r.row.values[0] == Some(g.ai0)
                    &&& r.row.values[1] == Some(g.ai1)
                    &&& r.row.values[2] == Some(g.ai2)
                    &&& c.galileo_disturbance_flags == r.row.values[3]
                },
                (Some(_), None) => false,
                (None, Some(r)) => r.row.values[0] is None || r.row.values[1] is None
                    || r.row.values[2] is None || r.fourth_unread,
                (None, None) => true,
            }
        }),
{
    if let Some(r) = last_row(rows, utf8("GAL"@)) {
        if row_given(r.row, 3) {
            assert(r.row.values[0] is Some && r.row.values[1] is Some && r.row.values[2] is Some);
        } else {
            let k = choose|k: int| 0 <= k < 3 && !((#[trigger] r.row.values[k]) is Some);
            assert(k == 0 || k == 1 || k == 2);
        }
    }
    lemma_pair(rows, utf8("GPSA"@), utf8("GPSB"@));
    lemma_pair(rows, utf8("QZSA"@), utf8("QZSB"@));
    lemma_pair(rows, utf8("BDSA"@), utf8("BDSB"@));
    lemma_pair(rows, utf8("IRNA"@), utf8("IRNB"@));
}

/// Whether a Klobuchar set is that of two rows: the amplitudes of one and the periods of the other,
/// in order, where both are there and complete.
pub open spec fn klobuchar_of(
    set: Option<KlobucharAlphaBeta>,
    alpha: Option<ReadRow>,
    beta: Option<ReadRow>,
) -> bool {
    match set {
        Some(c) => alpha matches Some(a) && beta matches Some(b) && forall|k: int|
            0 <= k < 4 ==> a.row.values[k] == Some(#[trigger] c.alpha[k]) && b.row.values[k] == Some(
                c.beta[k],
            ),
        None => alpha is None || beta is None || exists|k: int|
            0 <= k < 4 && ((#[trigger] alpha->0.row.values[k]) is None || beta->0.row.values[k] is None),
    }
}

/// A pair of rows as a set.
proof fn lemma_pair(rows: Seq<ReadRow>, a: Seq<u8>, b: Seq<u8>)
    ensures
        klobuchar_of(
            klobuchar_pair(klobuchar_row(rows, a), klobuchar_row(rows, b)),
            last_row(rows, a),
            last_row(rows, b),
        ),
{
    if let (Some(x), Some(y)) = (last_row(rows, a), last_row(rows, b)) {
        if row_given(x.row, 4) && row_given(y.row, 4) {
            let c = klobuchar_pair(klobuchar_row(rows, a), klobuchar_row(rows, b))->0;
            assert forall|k: int| 0 <= k < 4 implies x.row.values[k] == Some(
                #[trigger] c.alpha[k],
            ) && y.row.values[k] == Some(c.beta[k]) by {
                assert(x.row.values[k] is Some && y.row.values[k] is Some);
            }
        } else if !row_given(x.row, 4) {
            let k = choose|k: int| 0 <= k < 4 && !((#[trigger] x.row.values[k]) is Some);
            assert(x.row.values[k] is None);
        } else {
            let k = choose|k: int| 0 <= k < 4 && !((#[trigger] y.row.values[k]) is Some);
            assert(x.row.values[k] is Some || x.row.values[k] is None);
        }
    }
}

/// The last row of a label is the one after which none has it.
pub proof fn law_last_row(rows: Seq<ReadRow>, label: Seq<u8>, k: int)
    requires
        0 <= k < rows.len(),
        rows[k].row.label == label,
        forall|j: int| k < j < rows.len() ==> (#[trigger] rows[j]).row.label != label,
    ensures
        last_row(rows, label) == Some(rows[k]),
    decreases rows.len(),
{
    if k < rows.len() - 1 {
        assert(rows[rows.len() - 1].row.label != label);
        let head = rows.drop_last();
        assert forall|j: int| k < j < head.len() implies (#[trigger] head[j]).row.label != label by {
            assert(rows[j] == head[j]);
        }
        law_last_row(head, label, k);
    }
}

/// The instant of GPS time at which a frame was transmitted: BeiDou epochs are of BeiDou time, 14 s
/// behind.
pub open spec fn frame_instant(frame: IonFrame) -> int {
    frame.epoch.j2000().total() + (if frame.satellite_id.system is BeiDou {
        14int
    } else {
        0
    }) * 1000000000000000000000000000000
}

/// A frame puts its coefficients in effect as the set of its system and model, and leaves the other
/// sets as they are.
pub proof fn law_frame_applied(frame: IonFrame, iono: IonoCorrections)
    ensures
        ({
            let after = frame.applied(iono);
            let system = frame.satellite_id.system;
            match frame.model {
                IonosphereModel::Klobuchar { coefficients, .. } => {
                    &&& after.gps == (if system is Gps {
                        Some(coefficients)
                    } else {
                        iono.gps
                    })
                    &&& after.qzss == (if system is Qzss {
                        Some(coefficients)
                    } else {
                        iono.qzss
                    })
                    &&& after.beidou == (if system is BeiDou {
                        Some(coefficients)
                    } else {
                        iono.beidou
                    })
                    &&& after.navic == (if system is Navic {
                        Some(coefficients)
                    } else {
                        iono.navic
                    })
                    &&& after.galileo == iono.galileo && after.galileo_disturbance_flags
                        == iono.galileo_disturbance_flags && after.beidou_bdgim == iono.beidou_bdgim
                },
                IonosphereModel::NequickG { coefficients, disturbance_flags } => {
                    &&& after.galileo == Some(coefficients)
                    &&& after.galileo_disturbance_flags == disturbance_flags
                    &&& after.gps == iono.gps && after.qzss == iono.qzss && after.beidou
                        == iono.beidou && after.navic == iono.navic && after.beidou_bdgim
                        == iono.beidou_bdgim
                },
                IonosphereModel::Bdgim(coefficients) => {
                    &&& after.beidou_bdgim == Some(coefficients)
                    &&& after.gps == iono.gps && after.qzss == iono.qzss && after.beidou
                        == iono.beidou && after.navic == iono.navic && after.galileo
                        == iono.galileo && after.galileo_disturbance_flags
                        == iono.galileo_disturbance_flags
                },
            }
        }),
{
}

/// Whether two frames are of one system and model.
pub open spec fn same_source(a: IonFrame, b: IonFrame) -> bool {
    match (a.model, b.model) {
        (IonosphereModel::Klobuchar { .. }, IonosphereModel::Klobuchar { .. }) => a.satellite_id.system
            == b.satellite_id.system,
        (IonosphereModel::NequickG { .. }, IonosphereModel::NequickG { .. }) => true,
        (IonosphereModel::Bdgim(_), IonosphereModel::Bdgim(_)) => true,
        _ => false,
    }
}

/// Of frames in the order of transmission, the one in effect at a time is the last of its system and
/// model that was transmitted up to then: its coefficients are the ones given.
pub proof fn law_frame_in_effect(
    iono: IonoCorrections,
    frames: Seq<IonFrame>,
    t: Option<Seconds>,
    k: int,
)
    requires
        0 <= k < frames.len(),
        forall|i: int, j: int|
            0 <= i <= j < frames.len() ==> frame_instant(#[trigger] frames[i]) <= frame_instant(
                #[trigger] frames[j],
            ),
        forall|i: int| 0 <= i < frames.len() ==> in_seconds(#[trigger] frames[i]),
        t matches Some(s) ==> frame_instant(frames[k]) <= s.total(),
        forall|j: int|
            k < j < frames.len() && (t matches Some(s) ==> frame_instant(#[trigger] frames[j])
                <= s.total()) ==> !same_source(frames[j], frames[k]),
    ensures
        ({
            let c = effect_of(iono, frames, t);
            match frames[k].model {
                IonosphereModel::Klobuchar { coefficients, .. } => match frames[k].satellite_id.system {
                    GnssSystem::Gps => c.gps == Some(coefficients),
                    GnssSystem::Qzss => c.qzss == Some(coefficients),
                    GnssSystem::BeiDou => c.beidou == Some(coefficients),
                    GnssSystem::Navic => c.navic == Some(coefficients),
                    _ => true,
                },
                IonosphereModel::NequickG { coefficients, disturbance_flags } => c.galileo == Some(
                    coefficients,
                ) && c.galileo_disturbance_flags == disturbance_flags,
                IonosphereModel::Bdgim(coefficients) => c.beidou_bdgim == Some(coefficients),
            }
        }),
{
    assert forall|i: int| 0 <= i < frames.len() implies (#[trigger] frames[i]).sent().total()
        == frame_instant(frames[i]) by {
        assert(in_seconds(frames[i]));
    }
    assert(ordered(frames)) by {
        assert forall|i: int, j: int| 0 <= i <= j < frames.len() implies (
        #[trigger] frames[i]).sent().total() <= (#[trigger] frames[j]).sent().total() by {
            assert(frame_instant(frames[i]) <= frame_instant(frames[j]));
        }
    }
    if frames[k].set() != IonSet::Nothing {
        assert forall|j: int|
            k < j < frames.len() && counts_at(#[trigger] frames[j], t) implies frames[j].set()
            != frames[k].set() by {
            assert(!same_source(frames[j], frames[k]));
        }
        law_latest_frame_in_effect(iono, frames, t, k);
        law_frame_applied(frames[k], iono);
    }
}

/// Whether a frame's epoch is of the years that whole seconds count.
pub open spec fn in_seconds(frame: IonFrame) -> bool {
    -9000000000000000000 <= frame.epoch.j2000().whole <= 9000000000000000000
}

/// What no frame replaces stays as the header states it.
pub proof fn law_header_kept(iono: IonoCorrections, frames: Seq<IonFrame>, t: Option<Seconds>)
    ensures
        ({
            let c = effect_of(iono, frames, t);
            &&& (forall|j: int| 0 <= j < frames.len() ==> !((#[trigger] frames[j]).model is NequickG))
                ==> c.galileo == iono.galileo && c.galileo_disturbance_flags
                == iono.galileo_disturbance_flags
            &&& (forall|j: int|
                0 <= j < frames.len() ==> !((#[trigger] frames[j]).satellite_id.system is Gps))
                ==> c.gps == iono.gps
            &&& (forall|j: int|
                0 <= j < frames.len() ==> !((#[trigger] frames[j]).satellite_id.system is Qzss))
                ==> c.qzss == iono.qzss
            &&& (forall|j: int|
                0 <= j < frames.len() ==> !((#[trigger] frames[j]).satellite_id.system is BeiDou))
                ==> c.beidou == iono.beidou
            &&& (forall|j: int|
                0 <= j < frames.len() ==> !((#[trigger] frames[j]).satellite_id.system is Navic))
                ==> c.navic == iono.navic
        }),
    decreases frames.len(),
{
    if frames.len() > 0 && counts_at(frames[0], t) {
        let rest = frames.drop_first();
        law_header_kept(frames[0].applied(iono), rest, t);
        law_frame_applied(frames[0], iono);
        assert forall|j: int| 0 <= j < rest.len() implies rest[j] == #[trigger] frames[j + 1] by {}
        assert(frames[0].model is NequickG || !(frames[0].model is NequickG));
    }
}

/// The ionosphere reader gives the header's set where the text holds no frame of it, and the same
/// three values give the same Galileo set whether a header row or a frame states them.
pub proof fn law_same_galileo_set(rows: Seq<ReadRow>, frame: IonFrame, iono: IonoCorrections)
    requires
        last_row(rows, utf8("GAL"@)) matches Some(r) && !r.fourth_unread && r.row.values.len() == 4
            && frame.values.len() >= 3 && r.row.values[0] == frame.values[0] && r.row.values[1]
            == frame.values[1] && r.row.values[2] == frame.values[2],
        frame.values[0] is Some && frame.values[1] is Some && frame.values[2] is Some,
        ion_model(frame.values, IonKind::Nequick) == Some(frame.model),
    ensures
        frame.applied(iono).galileo == iono_of(rows).galileo,
        iono_of(rows).galileo is Some,
{
    let r = last_row(rows, utf8("GAL"@))->0;
    assert(row_given(r.row, 3)) by {
        assert forall|k: int| 0 <= k < 3 implies (#[trigger] r.row.values[k]) is Some by {
            assert(k == 0 || k == 1 || k == 2);
        }
    }
    assert(ion_value(frame.values, 0) == frame.values[0]);
    assert(ion_value(frame.values, 1) == frame.values[1]);
    assert(ion_value(frame.values, 2) == frame.values[2]);
}

} // verus!

//! Headers that were read are written from their fields without loss.

use vstd::prelude::*;

use crate::frame_reread::{lemma_dropped, lemma_trimmed_inked};
use crate::header::{
    column_mark, empty_scan, header_of, iono_issues, klobuchar_label, label_of, row_incomplete,
    row_of_line, rows_as_read, rows_only, scan_lines, scanned, v2_correction, v3_correction,
    with_row, Correction, Header, IonoRow, Label, ReadRow, Scan,
};
use crate::header_reread::{
    fits_count, fits_exp, fits_leap, law_header_reads_back, lemma_same_sets, optional_fits_exp,
    plain_comment, plain_fields, plain_mark, plain_program, plain_row, trimmed_option, trimmed_text,
};
use crate::reread::{inked, printable};
use crate::text::{
    columns, drop_space, lemma_drop_space, lemma_skip_space, lemma_utf8_ascii, skip_space, slice_of,
    space_at, text_at, trim_end_of, trim_of, utf8,
};
use crate::write::{header_lines, lemma_scan_advances};

verus! {

/// The columns of a printable line are printable.
proof fn lemma_columns_printable(line: Seq<u8>, a: int, b: int)
    requires
        printable(line),
        0 <= a <= b,
    ensures
        printable(columns(line, a, b)),
        columns(line, a, b).len() <= b - a,
{
    let c = columns(line, a, b);
    assert forall|i: int| 0 <= i < c.len() implies 32 <= (#[trigger] c[i]) < 0x80 by {
        assert(c[i] == line[a + i]);
    }
}

/// The text of columns of a printable line has no blanks at its ends.
proof fn lemma_columns_text(line: Seq<u8>, a: int, b: int)
    requires
        printable(line),
        0 <= a <= b,
    ensures
        trimmed_text(trim_of(columns(line, a, b)), (b - a) as nat),
{
    lemma_columns_printable(line, a, b);
    let c = columns(line, a, b);
    let t = trim_of(c);
    lemma_skip_space(c, 0);
    lemma_drop_space(c, skip_space(c, 0), c.len() as int);
    assert forall|i: int| 0 <= i < t.len() implies 32 <= (#[trigger] t[i]) < 0x80 by {
        assert(t[i] == c[skip_space(c, 0) + i]);
    }
    if t.len() > 0 {
        lemma_trimmed_inked(c);
    }
}

/// The optional text of columns of a printable line has no blanks at its ends.
proof fn lemma_columns_option(line: Seq<u8>, a: int, b: int)
    requires
        printable(line),
        0 <= a <= b,
    ensures
        trimmed_option(text_at(line, a, b), (b - a) as nat),
{
    lemma_columns_text(line, a, b);
}

/// A mark in a column of a printable line is a printable character.
proof fn lemma_column_mark(line: Seq<u8>, column: int)
    requires
        printable(line),
    ensures
        plain_mark(column_mark(line, column)),
{
    let t = slice_of(line, column, column + 1);
    if t.len() > 0 && space_at(t, 0) == 0 {
        assert(t[0] == line[column]);
        assert(33 <= t[0] < 0x80);
        let c = t[0] as char;
        assert('!' <= c && c <= '\u{7f}');
    }
}

/// The texts of a coefficient row as printable lines state them.
pub open spec fn row_texts(row: IonoRow) -> bool {
    &&& trimmed_text(row.label, 4)
    &&& row.values.len() == 4
    &&& plain_mark(row.mark)
    &&& trimmed_option(row.satellite, 3)
}

/// The row of a printable line has printable texts.
proof fn lemma_row_texts(line: Seq<u8>, number: int)
    requires
        printable(line),
    ensures
        row_texts(row_of_line(line, number).row),
{
    lemma_columns_text(line, 0, 4);
    lemma_columns_option(line, 54, 55);
    lemma_columns_option(line, 56, 59);
    reveal_strlit("GPSA");
    reveal_strlit("GPSB");
    lemma_utf8_ascii("GPSA"@);
    lemma_utf8_ascii("GPSB"@);
    if let Some(t) = text_at(line, 54, 55) {
        assert(inked(t[0]) && 32 <= t[0] < 0x80);
        let c = t[0] as char;
        assert('!' <= c && c <= '\u{7f}');
    }
}

/// The texts of a time system correction as printable lines state them.
pub open spec fn correction_texts(c: Correction) -> bool {
    trimmed_text(c.code, 4) && trimmed_option(c.source, 5) && trimmed_option(c.utc_id, 2)
}

/// The correction of a printable line has printable texts.
proof fn lemma_correction_texts(line: Seq<u8>)
    requires
        printable(line),
    ensures
        v3_correction(line) matches Some(c) ==> correction_texts(c),
        v2_correction(line) matches Some(c) ==> correction_texts(c),
{
    lemma_columns_text(line, 0, 4);
    lemma_columns_option(line, 51, 56);
    lemma_columns_option(line, 57, 59);
    reveal_strlit("GPUT");
    lemma_utf8_ascii("GPUT"@);
}

/// The comment of a printable line is printable and without blanks at its end.
proof fn lemma_comment_text(line: Seq<u8>)
    requires
        printable(line),
    ensures
        plain_comment(trim_end_of(columns(line, 0, 60))),
{
    lemma_columns_printable(line, 0, 60);
    let c = columns(line, 0, 60);
    lemma_dropped(c, 0, c.len() as int);
    let m = drop_space(c, 0, c.len() as int);
    let t = trim_end_of(c);
    assert forall|i: int| 0 <= i < t.len() implies 32 <= (#[trigger] t[i]) < 0x80 by {
        assert(t[i] == c[i]);
    }
    if t.len() > 0 {
        assert(t[m - 1] == c[m - 1]);
        assert(c.subrange(0, m)[m - 1] == c[m - 1]);
    }
}

/// Whether a row of a scan could not be read.
pub open spec fn any_incomplete(rows: Seq<ReadRow>) -> bool {
    exists|k: int| 0 <= k < rows.len() && row_incomplete(#[trigger] rows[k])
}

/// What holds of a scan of printable lines.
pub open spec fn printable_scan(scan: Scan) -> bool {
    &&& scan.version matches Some((v, t, m)) ==> plain_mark(m) && v.major <= 4 && (v.major
        >= 3 ==> t == 'N')
    &&& scan.program matches Some(p) ==> plain_program(p)
    &&& forall|k: int| 0 <= k < scan.comments.len() ==> plain_comment(#[trigger] scan.comments[k])
    &&& forall|k: int| 0 <= k < scan.rows.len() ==> row_texts((#[trigger] scan.rows[k]).row)
    &&& forall|k: int|
        0 <= k < scan.corrections.len() ==> correction_texts(#[trigger] scan.corrections[k])
    &&& scan.leap matches Some(leap) ==> trimmed_option(leap.system, 3)
    &&& forall|k: int| 0 <= k < scan.other.len() ==> printable(#[trigger] scan.other[k])
    &&& scan.issues.len() == 0 && !any_incomplete(scan.rows) ==> forall|k: int|
        0 <= k < scan.other.len() ==> label_of(#[trigger] scan.other[k]) == Label::Other
}

/// A row more, one that reads or one that does not.
proof fn lemma_row_more(scan: Scan, line: Seq<u8>, number: int)
    requires
        printable_scan(scan),
        printable(line),
    ensures
        printable_scan(with_row(scan, line, number)),
{
    let next = with_row(scan, line, number);
    lemma_row_texts(line, number);
    let row = row_of_line(line, number);
    let n = scan.rows.len() as int;
    assert forall|k: int| 0 <= k < next.rows.len() implies row_texts((#[trigger] next.rows[k]).row) by {
        if k < n {
            assert(next.rows[k] == scan.rows[k]);
        }
    }
    assert forall|k: int| 0 <= k < next.other.len() implies printable(#[trigger] next.other[k]) by {
        if k < scan.other.len() {
            assert(next.other[k] == scan.other[k]);
        }
    }
    if next.issues.len() == 0 && !any_incomplete(next.rows) {
        assert(next.rows[n] == row);
        assert(!row_incomplete(next.rows[n]));
        assert(!any_incomplete(scan.rows)) by {
            if any_incomplete(scan.rows) {
                let k = choose|k: int|
                    0 <= k < scan.rows.len() && row_incomplete(#[trigger] scan.rows[k]);
                assert(next.rows[k] == scan.rows[k]);
                assert(row_incomplete(next.rows[k]));
            }
        }
    }
}

/// A printable line keeps what holds of a scan of printable lines.
#[verifier::spinoff_prover]
#[verifier::rlimit(40)]
proof fn lemma_line_printable_scan(scan: Scan, line: Seq<u8>, number: int)
    requires
        printable_scan(scan),
        printable(line),
        label_of(line) != Label::End,
    ensures
        scanned(scan, line, number, true) matches Ok(next) ==> printable_scan(next),
{
    reveal(scanned);
    lemma_columns_text(line, 0, 20);
    lemma_columns_text(line, 20, 40);
    lemma_columns_text(line, 40, 60);
    lemma_columns_option(line, 24, 27);
    lemma_column_mark(line, 40);
    lemma_comment_text(line);
    lemma_correction_texts(line);
    lemma_row_more(scan, line, number);
}

/// A header of printable lines is scanned to one.
proof fn lemma_printable_scan(lines: Seq<Seq<u8>>, from: int, scan: Scan)
    requires
        0 <= from <= lines.len(),
        printable_scan(scan),
    ensures
        scan_lines(lines, from, scan, true) matches Ok((read, stop, _)) ==> from <= stop
            <= lines.len() && ((forall|k: int|
            from <= k < stop ==> printable(#[trigger] lines[k])) ==> printable_scan(read)),
    decreases lines.len() - from,
{
    if from < lines.len() && label_of(lines[from]) != Label::End {
        if let Ok(next) = scanned(scan, lines[from], from + 1, true) {
            if printable(lines[from]) {
                lemma_line_printable_scan(scan, lines[from], from + 1);
                lemma_printable_scan(lines, from + 1, next);
            } else {
                lemma_scan_advances(lines, from + 1, next);
            }
        }
    }
}

/// Rows without a problem are all complete.
proof fn lemma_all_complete(rows: Seq<ReadRow>)
    requires
        iono_issues(rows).len() == 0,
    ensures
        !any_incomplete(rows),
    decreases rows.len(),
{
    if rows.len() > 0 {
        let head = rows.drop_last();
        lemma_all_complete(head);
        if any_incomplete(rows) {
            let k = choose|k: int| 0 <= k < rows.len() && row_incomplete(#[trigger] rows[k]);
            if k < head.len() {
                assert(head[k] == rows[k]);
                assert(row_incomplete(head[k]));
            }
        }
    }
}

/// Whether the numbers of a header are exact in the columns they are written in.
pub open spec fn exact_fields(h: Header) -> bool {
    &&& forall|k: int, i: int|
        0 <= k < h.rows.len() && 0 <= i < 4 ==> optional_fits_exp(
            #[trigger] h.rows[k].values[i],
            4,
            12,
        )
    &&& forall|k: int|
        0 <= k < h.corrections.len() ==> fits_exp((#[trigger] h.corrections[k]).a0, 10, 17)
            && optional_fits_exp(h.corrections[k].a1, 9, 16) && fits_count(
            h.corrections[k].time,
            7,
        ) && fits_count(h.corrections[k].week, 5)
    &&& h.leap matches Some(leap) ==> fits_leap(Some(leap.current)) && fits_leap(leap.future)
        && fits_leap(leap.week) && fits_leap(leap.day)
}

/// A header read from printable RINEX 3 or 4 lines, without a record that could not be read, whose
/// numbers are exact in the columns they are written in, is written from its fields without loss.
pub proof fn law_read_header_plain(lines: Seq<Seq<u8>>)
    requires
        header_of(lines, true) matches Ok((h, start, issues)) && issues.len() == 0
            && h.version.major >= 3 && exact_fields(h) && forall|k: int|
            0 <= k < start ==> printable(#[trigger] lines[k]),
    ensures
        plain_fields(header_of(lines, true)->Ok_0.0),
{
    let (h, start, issues) = header_of(lines, true)->Ok_0;
    let (scan, stop, ended) = scan_lines(lines, 0, empty_scan(), true)->Ok_0;
    lemma_printable_scan(lines, 0, empty_scan());
    lemma_all_complete(scan.rows);
    assert forall|k: int| 0 <= k < h.rows.len() implies plain_row(#[trigger] h.rows[k]) by {
        assert(h.rows[k] == scan.rows[k].row);
        assert(!row_incomplete(scan.rows[k]));
        assert forall|i: int| 0 <= i < 4 implies optional_fits_exp(
            #[trigger] h.rows[k].values[i],
            4,
            12,
        ) by {}
    }
    let read = rows_as_read(rows_only(scan.rows));
    assert forall|k: int| 0 <= k < scan.rows.len() implies (#[trigger] scan.rows[k]).row
        == read[k].row && (scan.rows[k].row.label == utf8("GAL"@) ==> scan.rows[k].fourth_unread
        == read[k].fourth_unread) by {
        assert(!row_incomplete(scan.rows[k]));
        lemma_gal_label();
    }
    lemma_same_sets(scan.rows, read);
}

/// The Galileo label is none of the Klobuchar labels.
proof fn lemma_gal_label()
    ensures
        !klobuchar_label(utf8("GAL"@)),
{
    reveal_strlit("GAL");
    reveal_strlit("GPSA");
    reveal_strlit("GPSB");
    reveal_strlit("QZSA");
    reveal_strlit("QZSB");
    reveal_strlit("BDSA");
    reveal_strlit("BDSB");
    reveal_strlit("IRNA");
    reveal_strlit("IRNB");
    lemma_utf8_ascii("GAL"@);
    lemma_utf8_ascii("GPSA"@);
    lemma_utf8_ascii("GPSB"@);
    lemma_utf8_ascii("QZSA"@);
    lemma_utf8_ascii("QZSB"@);
    lemma_utf8_ascii("BDSA"@);
    lemma_utf8_ascii("BDSB"@);
    lemma_utf8_ascii("IRNA"@);
    lemma_utf8_ascii("IRNB"@);
    assert(utf8("GAL"@).len() == 3);
    assert(utf8("GPSA"@).len() == 4 && utf8("GPSB"@).len() == 4);
    assert(utf8("QZSA"@).len() == 4 && utf8("QZSB"@).len() == 4);
    assert(utf8("BDSA"@).len() == 4 && utf8("BDSB"@).len() == 4);
    assert(utf8("IRNA"@).len() == 4 && utf8("IRNB"@).len() == 4);
}

/// A header that was read and is formatted from its fields reads back: program, comments,
/// coefficient rows, time system corrections, leap seconds and other records all survive.
pub proof fn law_read_header_reads_back(lines: Seq<Seq<u8>>)
    requires
        header_of(lines, true) matches Ok((h, start, issues)) && issues.len() == 0
            && h.version.major >= 3 && exact_fields(h) && forall|k: int|
            0 <= k < start ==> printable(#[trigger] lines[k]),
    ensures
        ({
            let h = header_of(lines, true)->Ok_0.0;
            header_of(header_lines(h), true) matches Ok((read, start, _)) && read == h && start
                == header_lines(h).len()
        }),
{
    law_read_header_plain(lines);
    law_header_reads_back(header_of(lines, true)->Ok_0.0);
}

} // verus!

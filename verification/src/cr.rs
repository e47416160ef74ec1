//! A `CR` left at the end of a line changes nothing that is read from the line.

use vstd::prelude::*;

use crate::body::{data_block, frame_body, groups, starts_block};
use crate::error::Fault;
use crate::fields::{
    field_count, int_columns, more_text, raw_at, record_epoch, stated_value, value_at,
    CivilSecondPolicy, Layout,
};
use crate::file::ion_frame_in;
use crate::frames::{
    frame_readable, ion_count, ion_frame, ion_kind, ion_lines, ion_values, IonFrame,
};
use crate::header::{
    iono_line, label_bytes, label_of, leap_record, row_of_line, scan_lines, scanned, v2_correction,
    v3_correction, version_line, Label, Scan,
};
use crate::id::GnssSatelliteId;
use crate::marker::{frame_type_of, frame_words, marker_from, marker_span, marker_word};
use crate::text::{
    blank, columns, drop_space, lemma_drop_space, lemma_skip_space, skip_space, slice_of, space_at,
    space_before, trim_end_of, trim_of, utf8, word_end, word_spans,
};

verus! {

/// Whether two texts are the same but for one `CR` at the end of one of them.
pub open spec fn alike(x: Seq<u8>, y: Seq<u8>) -> bool {
    x == y || y == x.push(13) || x == y.push(13)
}

/// White space within a text does not change with a `CR` after it.
proof fn lemma_space_at(x: Seq<u8>, i: int)
    requires
        0 <= i < x.len(),
    ensures
        space_at(x.push(13), i) == space_at(x, i),
        i + space_at(x, i) <= x.len(),
{
    let y = x.push(13);
    assert(y[i] == x[i]);
    if i + 1 < x.len() {
        assert(y[i + 1] == x[i + 1]);
    }
    if i + 2 < x.len() {
        assert(y[i + 2] == x[i + 2]);
    }
}

/// White space is skipped alike, and with it a `CR` at the end.
proof fn lemma_skip(x: Seq<u8>, i: int)
    requires
        0 <= i <= x.len(),
    ensures
        skip_space(x, i) <= x.len(),
        skip_space(x.push(13), i) == (if skip_space(x, i) < x.len() {
            skip_space(x, i)
        } else {
            x.len() as int + 1
        }),
    decreases x.len() - i,
{
    let y = x.push(13);
    if i < x.len() {
        lemma_space_at(x, i);
        if space_at(x, i) > 0 {
            lemma_skip(x, i + space_at(x, i));
        }
    } else {
        assert(y[i] == 13);
        assert(space_at(y, i) == 1);
        assert(space_at(y, i + 1) == 0);
        assert(space_at(x, i) == 0);
        assert(skip_space(y, i + 1) == i + 1);
    }
}

/// White space before a place in a text is dropped alike.
proof fn lemma_drop(x: Seq<u8>, start: int, end: int)
    requires
        0 <= end <= x.len(),
    ensures
        drop_space(x.push(13), start, end) == drop_space(x, start, end),
    decreases end,
{
    let y = x.push(13);
    assert(y.subrange(0, end) =~= x.subrange(0, end));
    if 0 <= start < end && space_before(x, end) > 0 && end - space_before(x, end) >= start {
        lemma_drop(x, start, end - space_before(x, end));
    }
}

/// White space at the end of a text is dropped, a `CR` with it.
proof fn lemma_drop_all(x: Seq<u8>, start: int)
    requires
        0 <= start <= x.len(),
    ensures
        drop_space(x.push(13), start, x.len() as int + 1) == drop_space(x, start, x.len() as int),
{
    let y = x.push(13);
    let n = x.len() as int;
    let t = y.subrange(0, n + 1);
    assert(t[n] == 13);
    assert(space_at(t, n) == 1);
    assert(space_before(y, n + 1) == 1);
    lemma_drop(x, start, n);
}

/// A text is trimmed alike with a `CR` after it.
proof fn lemma_trim(x: Seq<u8>)
    ensures
        trim_of(x.push(13)) == trim_of(x),
        trim_end_of(x.push(13)) == trim_end_of(x),
{
    let y = x.push(13);
    let n = x.len() as int;
    lemma_skip(x, 0);
    lemma_skip_space(x, 0);
    let start = skip_space(x, 0);
    lemma_drop_space(x, start, n);
    lemma_drop_space(x, 0, n);
    lemma_drop_all(x, 0);
    assert(trim_end_of(y) =~= trim_end_of(x));
    if start < n {
        lemma_drop_all(x, start);
        assert(trim_of(y) =~= trim_of(x));
    } else {
        assert(drop_space(x, n, n) == n);
        assert(drop_space(y, n + 1, n + 1) == n + 1);
        assert(trim_of(y) =~= trim_of(x));
    }
}

/// Texts that are alike are trimmed alike.
pub proof fn lemma_alike_trim(x: Seq<u8>, y: Seq<u8>)
    requires
        alike(x, y),
    ensures
        trim_of(x) == trim_of(y),
        trim_end_of(x) == trim_end_of(y),
        blank(x) == blank(y),
{
    lemma_trim(x);
    lemma_trim(y);
}

/// The columns of a line with a `CR` after it.
proof fn lemma_columns(x: Seq<u8>, a: int, b: int)
    requires
        0 <= a <= b,
    ensures
        alike(columns(x, a, b), columns(x.push(13), a, b)),
        b < x.len() ==> columns(x, a, b) == columns(x.push(13), a, b),
{
    let y = x.push(13);
    let n = x.len() as int;
    if a <= n {
        assert(a < n ==> y[a] == x[a]);
        if b <= n {
            assert(b < n ==> y[b] == x[b]);
            assert(y.subrange(a, b) =~= x.subrange(a, b));
        } else {
            assert(y.subrange(a, n + 1) =~= x.subrange(a, n).push(13));
        }
    } else {
        assert(columns(x, a, b) =~= Seq::empty());
        assert(columns(y, a, b) =~= Seq::empty());
    }
}

/// The columns of lines that are alike are alike.
pub proof fn lemma_alike_columns(x: Seq<u8>, y: Seq<u8>, a: int, b: int)
    requires
        alike(x, y),
        0 <= a <= b,
    ensures
        alike(columns(x, a, b), columns(y, a, b)),
        b < x.len() && b < y.len() ==> columns(x, a, b) == columns(y, a, b),
        trim_of(columns(x, a, b)) == trim_of(columns(y, a, b)),
        trim_end_of(columns(x, a, b)) == trim_end_of(columns(y, a, b)),
        blank(columns(x, a, b)) == blank(columns(y, a, b)),
        int_columns(x, a, b) == int_columns(y, a, b),
{
    lemma_columns(x, a, b);
    lemma_columns(y, a, b);
    lemma_alike_trim(columns(x, a, b), columns(y, a, b));
}

/// The label of a header line that has one starts past its content.
proof fn lemma_labelled_long(x: Seq<u8>)
    ensures
        label_of(x) != Label::Other ==> x.len() > 60,
{
    if x.len() <= 60 {
        assert(columns(x, 60, 80) =~= Seq::empty());
        assert(label_bytes(x) =~= Seq::empty());
        crate::header_reread::lemma_header_labels();
        reveal_strlit("RINEX VERSION / TYPE");
    }
}

/// Header lines that are alike have the same label.
pub proof fn lemma_alike_label(x: Seq<u8>, y: Seq<u8>)
    requires
        alike(x, y),
    ensures
        label_of(x) == label_of(y),
{
    lemma_alike_columns(x, y, 60, 80);
}

/// Version lines that are alike state the same.
proof fn lemma_alike_version(x: Seq<u8>, y: Seq<u8>)
    requires
        alike(x, y),
        label_of(x) != Label::Other,
    ensures
        version_line(x) == version_line(y),
{
    lemma_alike_label(x, y);
    lemma_labelled_long(x);
    lemma_labelled_long(y);
    lemma_alike_columns(x, y, 0, 9);
    lemma_alike_columns(x, y, 20, 21);
    lemma_alike_columns(x, y, 40, 41);
    assert(columns(x, 20, 21) == slice_of(x, 20, 21));
    assert(columns(y, 20, 21) == slice_of(y, 20, 21));
    assert(columns(x, 40, 41) == slice_of(x, 40, 41));
    assert(columns(y, 40, 41) == slice_of(y, 40, 41));
}

/// The columns of lines with a label that are alike are the same.
proof fn lemma_alike_record(x: Seq<u8>, y: Seq<u8>)
    requires
        alike(x, y),
        label_of(x) != Label::Other,
    ensures
        forall|a: int, b: int|
            0 <= a <= b <= 60 ==> #[trigger] columns(x, a, b) == columns(y, a, b),
{
    lemma_alike_label(x, y);
    lemma_labelled_long(x);
    lemma_labelled_long(y);
    assert forall|a: int, b: int| 0 <= a <= b <= 60 implies #[trigger] columns(x, a, b) == columns(
        y,
        a,
        b,
    ) by {
        lemma_alike_columns(x, y, a, b);
    }
}

/// Ionosphere coefficient records that are alike state the same row.
proof fn lemma_alike_row(x: Seq<u8>, y: Seq<u8>, number: int)
    requires
        alike(x, y),
        iono_line(x),
    ensures
        row_of_line(x, number) == row_of_line(y, number),
{
    lemma_alike_label(x, y);
    lemma_alike_record(x, y);
    let (p, q) = (row_of_line(x, number), row_of_line(y, number));
    assert(p.row.values =~= q.row.values);
}

/// Whether lines are alike, one by one.
pub open spec fn alike_lines(a: Seq<Seq<u8>>, b: Seq<Seq<u8>>) -> bool {
    a.len() == b.len() && forall|i: int| 0 <= i < a.len() ==> alike(#[trigger] a[i], b[i])
}

/// Whether scans state the same but for a `CR` at the end of records that are kept as they are.
pub open spec fn alike_scans(s: Scan, t: Scan) -> bool {
    s == (Scan { other: s.other, ..t }) && alike_lines(s.other, t.other)
}

/// Time system corrections and leap seconds that are alike state the same.
proof fn lemma_alike_corrections(x: Seq<u8>, y: Seq<u8>)
    requires
        alike(x, y),
        label_of(x) != Label::Other,
    ensures
        v3_correction(x) == v3_correction(y),
        v2_correction(x) == v2_correction(y),
        leap_record(x) == leap_record(y),
{
    lemma_alike_record(x, y);
}

/// Records kept as they are stay alike.
proof fn lemma_alike_push(a: Seq<Seq<u8>>, b: Seq<Seq<u8>>, x: Seq<u8>, y: Seq<u8>)
    requires
        alike(x, y),
        alike_lines(a, b),
    ensures
        alike_lines(a.push(x), b.push(y)),
{
    assert forall|i: int| 0 <= i < a.push(x).len() implies alike(
        #[trigger] a.push(x)[i],
        b.push(y)[i],
    ) by {
        if i < a.len() {
            assert(alike(a[i], b[i]));
        }
    }
}

/// Header lines that are alike are scanned with the same outcome.
#[verifier::spinoff_prover]
proof fn lemma_alike_scanned(x: Seq<u8>, y: Seq<u8>, number: int, s: Scan, t: Scan, require: bool)
    requires
        alike(x, y),
        alike_scans(s, t),
    ensures
        match (scanned(s, x, number, require), scanned(t, y, number, require)) {
            (Ok(p), Ok(q)) => alike_scans(p, q),
            (Err(e), Err(f)) => e == f && e is UnsupportedHeader,
            _ => false,
        },
{
    reveal(scanned);
    lemma_alike_label(x, y);
    assert(alike_lines(s.other.push(x), t.other.push(y))) by {
        lemma_alike_push(s.other, t.other, x, y);
    }
    match label_of(x) {
        Label::Version => {
            assert(trim_end_of(x) == trim_end_of(y)) by {
                lemma_alike_trim(x, y);
            }
            assert(version_line(x) == version_line(y)) by {
                lemma_alike_version(x, y);
            }
        },
        Label::Program => {
            assert(columns(x, 0, 20) == columns(y, 0, 20) && columns(x, 20, 40) == columns(
                y,
                20,
                40,
            ) && columns(x, 40, 60) == columns(y, 40, 60)) by {
                lemma_alike_record(x, y);
            }
        },
        Label::Comment => {
            assert(columns(x, 0, 60) == columns(y, 0, 60)) by {
                lemma_alike_record(x, y);
            }
        },
        Label::Iono | Label::IonAlpha | Label::IonBeta => {
            assert(row_of_line(x, number) == row_of_line(y, number)) by {
                lemma_alike_row(x, y, number);
            }
        },
        Label::TimeSystem | Label::DeltaUtc | Label::Leap => {
            assert(v3_correction(x) == v3_correction(y) && v2_correction(x) == v2_correction(y)
                && leap_record(x) == leap_record(y)) by {
                lemma_alike_corrections(x, y);
            }
        },
        _ => {},
    }
}

/// Headers whose lines are alike are scanned with the same outcome.
pub proof fn lemma_alike_scan(
    a: Seq<Seq<u8>>,
    b: Seq<Seq<u8>>,
    from: int,
    s: Scan,
    t: Scan,
    require: bool,
)
    requires
        alike_lines(a, b),
        alike_scans(s, t),
    ensures
        match (scan_lines(a, from, s, require), scan_lines(b, from, t, require)) {
            (Ok((p, i, e)), Ok((q, j, f))) => alike_scans(p, q) && i == j && e == f,
            (Err(e), Err(f)) => e == f && e is UnsupportedHeader,
            _ => false,
        },
    decreases a.len() - from,
{
    if 0 <= from < a.len() {
        assert(alike(a[from], b[from]));
        lemma_alike_label(a[from], b[from]);
        if label_of(a[from]) != Label::End {
            lemma_alike_scanned(a[from], b[from], from + 1, s, t, require);
            if let (Ok(p), Ok(q)) = (
                scanned(s, a[from], from + 1, require),
                scanned(t, b[from], from + 1, require),
            ) {
                lemma_alike_scan(a, b, from + 1, p, q, require);
            }
        }
    }
}

/// Words end alike.
proof fn lemma_word(x: Seq<u8>, i: int)
    requires
        0 <= i <= x.len(),
    ensures
        word_end(x.push(13), i) == word_end(x, i),
        i <= word_end(x, i) <= x.len(),
    decreases x.len() - i,
{
    let y = x.push(13);
    if i < x.len() {
        lemma_space_at(x, i);
        if space_at(x, i) == 0 {
            lemma_word(x, i + 1);
        }
    } else {
        assert(y[i] == 13);
        assert(space_at(y, i) == 1);
    }
}

/// The words of a text stand at the same places with a `CR` after it.
proof fn lemma_spans(x: Seq<u8>, i: int)
    requires
        0 <= i <= x.len(),
    ensures
        word_spans(x.push(13), i) == word_spans(x, i),
        forall|k: int|
            0 <= k < word_spans(x, i).len() ==> 0 <= (#[trigger] word_spans(x, i)[k]).0
                <= word_spans(x, i)[k].1 <= x.len(),
    decreases x.len() - i,
{
    lemma_skip(x, i);
    lemma_skip_space(x, i);
    let start = skip_space(x, i);
    let y = x.push(13);
    if start < x.len() {
        lemma_word(x, start + 1);
        let end = word_end(x, start + 1);
        lemma_spans(x, end);
        assert(word_spans(x, i) == seq![(start, end)] + word_spans(x, end));
        assert(word_spans(y, i) == seq![(start, end)] + word_spans(y, end));
        assert forall|k: int| 0 <= k < word_spans(x, i).len() implies 0 <= (#[trigger] word_spans(
            x,
            i,
        )[k]).0 <= word_spans(x, i)[k].1 <= x.len() by {
            if k > 0 {
                assert(word_spans(x, i)[k] == word_spans(x, end)[k - 1]);
            }
        }
    } else {
        assert(word_spans(x, i) =~= Seq::empty());
        assert(word_spans(y, i) =~= Seq::empty());
    }
}

/// Frame markers with and without a `CR` after them hold the same words.
#[verifier::spinoff_prover]
proof fn lemma_marker(x: Seq<u8>)
    ensures
        frame_type_of(x.push(13)) == frame_type_of(x),
        frame_words(x.push(13)) == frame_words(x),
{
    let y = x.push(13);
    let from = marker_from(x);
    if x.len() > 0 {
        assert(y[0] == x[0]);
    } else {
        assert(y[0] == 13);
    }
    assert(marker_from(y) == from);
    lemma_spans(x, from);
    let spans = word_spans(x, from);
    let n = spans.len() as int;
    assert forall|k: int| 0 <= k < n implies #[trigger] marker_word(y, k) == marker_word(x, k) by {
        assert(0 <= spans[k].0 <= spans[k].1 <= x.len());
        assert(y.subrange(spans[k].0, spans[k].1) =~= x.subrange(spans[k].0, spans[k].1));
    }
    if n > 0 {
        assert(marker_word(y, 0) == marker_word(x, 0));
    }
    if n >= 3 {
        assert(marker_word(y, 1) == marker_word(x, 1));
        assert(marker_word(y, 2) == marker_word(x, 2));
        let (s, e) = (spans[1].0, spans[2].1);
        assert(0 <= spans[1].0 && spans[2].1 <= x.len());
        if s <= e {
            assert(marker_span(y, 1, 2) =~= marker_span(x, 1, 2));
        } else {
            crate::text::lemma_spans_ordered(x, from);
            assert(marker_span(y, 1, 2) =~= marker_span(x, 1, 2));
        }
    }
    if n >= 4 {
        assert(marker_word(y, 3) == marker_word(x, 3));
    }
}

/// Frame markers that are alike hold the same words.
proof fn lemma_alike_marker(x: Seq<u8>, y: Seq<u8>)
    requires
        alike(x, y),
    ensures
        frame_type_of(x) == frame_type_of(y),
        frame_words(x) == frame_words(y),
{
    lemma_marker(x);
    lemma_marker(y);
}

/// The fields of lines that are alike state the same.
proof fn lemma_alike_value(a: Seq<Seq<u8>>, b: Seq<Seq<u8>>, i: int)
    requires
        alike_lines(a, b),
        i >= 0,
    ensures
        value_at(a, Layout::V3, i) == value_at(b, Layout::V3, i),
        blank(raw_at(a, Layout::V3, i)) == blank(raw_at(b, Layout::V3, i)),
{
    reveal(raw_at);
    reveal(stated_value);
    let (line, start) = Layout::V3.field_at(i);
    if line < a.len() {
        assert(alike(a[line], b[line]));
        lemma_alike_columns(a[line], b[line], start, start + 19);
    }
}

/// Lines that are alike hold text past a line alike.
proof fn lemma_alike_more(a: Seq<Seq<u8>>, b: Seq<Seq<u8>>, from: int)
    requires
        alike_lines(a, b),
        from >= 0,
    ensures
        more_text(a, from) == more_text(b, from),
{
    assert forall|i: int| 0 <= i < a.len() implies blank(#[trigger] a[i]) == blank(b[i]) by {
        lemma_alike_trim(a[i], b[i]);
    }
    if more_text(a, from) {
        let i = choose|i: int| from <= i < a.len() && !blank(#[trigger] a[i]);
        assert(!blank(b[i]));
    }
    if more_text(b, from) {
        let i = choose|i: int| from <= i < b.len() && !blank(#[trigger] b[i]);
        assert(!blank(a[i]));
    }
}

/// Ionosphere frames whose lines are alike state the same.
#[verifier::spinoff_prover]
proof fn lemma_alike_ion(
    a: Seq<Seq<u8>>,
    b: Seq<Seq<u8>>,
    id: GnssSatelliteId,
    sat: Seq<u8>,
    token: Seq<u8>,
)
    requires
        alike_lines(a, b),
    ensures
        ion_frame(a, id, sat, token) == ion_frame(b, id, sat, token),
{
    if let Some(kind) = ion_kind(id.system, token) {
        if a.len() > 0 {
            let used = if a.len() < ion_lines(kind) {
                a.len() as int
            } else {
                ion_lines(kind)
            };
            assert forall|i: int| i >= 0 implies #[trigger] value_at(a, Layout::V3, i) == value_at(
                b,
                Layout::V3,
                i,
            ) by {
                lemma_alike_value(a, b, i);
            }
            let n = field_count(used);
            let m = (if n < ion_count(kind) {
                n
            } else {
                ion_count(kind)
            }) as nat;
            assert(Seq::new(m, |i: int| value_at(a, Layout::V3, i)) =~= Seq::new(
                m,
                |i: int| value_at(b, Layout::V3, i),
            ));
            assert(ion_values(a, kind) == ion_values(b, kind));
            assert(frame_readable(a, n) == frame_readable(b, n)) by {
                assert forall|i: int| 0 <= i < n implies (blank(#[trigger] raw_at(a, Layout::V3, i))
                    || value_at(a, Layout::V3, i) is Some) == (blank(raw_at(b, Layout::V3, i))
                    || value_at(b, Layout::V3, i) is Some) by {
                    lemma_alike_value(a, b, i);
                }
                assert forall|i: int| 0 <= i < n implies (blank(#[trigger] raw_at(b, Layout::V3, i))
                    || value_at(b, Layout::V3, i) is Some) == (blank(raw_at(a, Layout::V3, i))
                    || value_at(a, Layout::V3, i) is Some) by {
                    lemma_alike_value(a, b, i);
                }
                if frame_readable(a, n) {
                    assert forall|i: int| 0 <= i < n implies (blank(
                        #[trigger] raw_at(b, Layout::V3, i),
                    ) || value_at(b, Layout::V3, i) is Some) by {
                        assert(blank(raw_at(a, Layout::V3, i)) || value_at(a, Layout::V3, i) is Some);
                    }
                }
                if frame_readable(b, n) {
                    assert forall|i: int| 0 <= i < n implies (blank(
                        #[trigger] raw_at(a, Layout::V3, i),
                    ) || value_at(a, Layout::V3, i) is Some) by {
                        assert(blank(raw_at(b, Layout::V3, i)) || value_at(b, Layout::V3, i) is Some);
                    }
                }
            }
            lemma_alike_more(a, b, ion_lines(kind));
            assert(alike(a[0], b[0]));
            lemma_alike_epoch(a[0], b[0]);
        }
    }
}

/// First lines that are alike state the same epoch.
proof fn lemma_alike_epoch(x: Seq<u8>, y: Seq<u8>)
    requires
        alike(x, y),
    ensures
        record_epoch(x, Layout::V3, CivilSecondPolicy::Continuous) == record_epoch(
            y,
            Layout::V3,
            CivilSecondPolicy::Continuous,
        ),
{
    reveal(record_epoch);
    lemma_alike_columns(x, y, 4, 8);
    lemma_alike_columns(x, y, 9, 11);
    lemma_alike_columns(x, y, 12, 14);
    lemma_alike_columns(x, y, 15, 17);
    lemma_alike_columns(x, y, 18, 20);
    lemma_alike_columns(x, y, 21, 23);
}

/// Blocks whose lines are alike give the same ionosphere frame.
#[verifier::spinoff_prover]
pub proof fn lemma_alike_block(a: Seq<Seq<u8>>, b: Seq<Seq<u8>>, stray: bool)
    requires
        alike_lines(a, b),
        a.len() > 0,
    ensures
        ion_frame_in(a, stray) matches Ok(found) ==> ion_frame_in(b, stray) == Ok::<
            Option<IonFrame>,
            Fault,
        >(found),
{
    reveal(ion_frame_in);
    assert(alike(a[0], b[0]));
    lemma_alike_marker(a[0], b[0]);
    let (c, d) = (frame_body(a), frame_body(b));
    assert forall|i: int| 0 <= i < c.len() implies alike(#[trigger] c[i], d[i]) by {
        assert(c[i] == a[i + 1] && d[i] == b[i + 1]);
        assert(alike(a[i + 1], b[i + 1]));
    }
    if let Some((_, sv, token)) = frame_words(a[0]) {
        if let Some(id) = crate::id::satellite_of_token(sv) {
            lemma_alike_ion(c, d, id, sv, token);
            lemma_ion_kind();
            assert(data_block(crate::body::NavEntryKind::Ionosphere, c, sv, token, id)
                == data_block(crate::body::NavEntryKind::Ionosphere, d, sv, token, id));
        }
    }
}

/// The kind of an ionosphere frame.
proof fn lemma_ion_kind()
    ensures
        crate::body::data_kind(utf8("ION"@)) == crate::body::NavEntryKind::Ionosphere,
{
    crate::restate::lemma_message_tokens();
}

/// Lines that are alike group alike.
pub proof fn lemma_alike_groups(a: Seq<Seq<u8>>, b: Seq<Seq<u8>>)
    requires
        alike_lines(a, b),
    ensures
        groups(a, 4) == groups(b, 4),
    decreases a.len(),
{
    if a.len() > 0 {
        let (c, d) = (a.drop_last(), b.drop_last());
        assert forall|i: int| 0 <= i < c.len() implies alike(#[trigger] c[i], d[i]) by {
            assert(alike(a[i], b[i]));
        }
        lemma_alike_groups(c, d);
        let (x, y) = (a[a.len() - 1], b[b.len() - 1]);
        assert(alike(x, y));
        assert(starts_block(x, 4) == starts_block(y, 4));
    }
}

} // verus!

//! Headers formatted from their fields read back.

use vstd::prelude::*;

use crate::cnav_reread::lemma_integer_thirteen;
use crate::decimal::{
    decimal_of, digit, digit_count, digits_text, exponent_part, exponent_text, field_number,
    formatted, in_double_range, lemma_digit_count, lemma_digits_text, lemma_formatted,
    lemma_pow10_monotone, lemma_pow10_values, lemma_strip_zeros, magnitude, number, pow10,
    rounded_exponent, scientific, zero, Decimal,
};
use crate::error::Fault;
use crate::file::{file_of, File};
use crate::format::{
    count_field, exp_text, int_text, labelled, left, optional_exp_text, right, truncated,
};
use crate::frame_reread::{lemma_char_count, lemma_drop_to};
use crate::header::{
    empty_scan, fourth_unread, header_int, header_of, iono_of, iono_row, kept_as_line, label_of,
    last_row, leap_record, row_incomplete, row_of_line, rows_as_read, rows_left, rows_only,
    scan_lines, scanned, unread_row, v3_correction, version_line, Correction, Header, IonoRow,
    Label, Leap, Program, ReadRow, Scan,
};
use crate::lines::text_or_empty;
use crate::record::NavVersion;
use crate::reread::{
    inked, lemma_ascii_columns, lemma_digit_run_to, lemma_inked_not_blank, lemma_integer_unique,
    lemma_natural_small, lemma_skip_blanks, lemma_spaces_blank, lemma_strip_added, lemma_trim_left,
    printable,
};
use crate::restate::{
    entry_reads_back, lemma_end_text, lemma_labelled, lemma_labels, lemma_left_printable,
    lemma_not_truncated, lemma_version_number, lemma_written_reads,
};
use crate::text::{
    blank, columns, drop_space, lemma_utf8_ascii, space_at, spaces, trim_end_of, trim_of, utf8,
};
use crate::write::{
    coefficients_text, correction_text, header_lines, header_restated, iono_row_text, iono_rows_of,
    joined, leap_int, leap_text, lines_written, mark_or_empty, picked, program_text, rows_written,
    type_text, version_number, version_text,
};

verus! {

/// Whether a number is written with `decimals` decimals in `width` columns without loss: it has at
/// most one digit more, and an exponent of two digits.
pub open spec fn fits_exp(d: Decimal, decimals: nat, width: nat) -> bool {
    &&& d.wf()
    &&& d.digits < pow10(decimals + 1)
    &&& magnitude(rounded_exponent(d.digits as nat, d.exponent as int, decimals + 1)) <= 99
    &&& 1 <= decimals <= 12
    &&& width >= decimals + 7
}

/// The digits and exponent of a number with decimals.
proof fn lemma_scientific(d: Decimal, p: nat) -> (m: nat)
    requires
        fits_exp(d, p, p + 7),
    ensures
        m == (if d.digits == 0 {
            0
        } else {
            formatted(d.digits as nat, d.exponent as int, p + 1, false).0
        }),
        m < pow10(p + 1),
        ({
            let t = digits_text(m, p + 1);
            let x = rounded_exponent(d.digits as nat, d.exponent as int, p + 1);
            let b = scientific(d.digits as nat, d.exponent as int, p);
            &&& t.len() == p + 1
            &&& b.len() == p + 6
            &&& b[0] == t[0]
            &&& b[1] == 46
            &&& forall|k: int| 0 <= k < p ==> b[2 + k] == #[trigger] t[1 + k]
            &&& b[p as int + 2] == 101
            &&& b[p as int + 3] == (if x < 0 { 45u8 } else { 43u8 })
            &&& b.subrange(p as int + 4, p as int + 6) == digits_text(magnitude(x), 2)
        }),
{
    let m: nat = if d.digits == 0 {
        0
    } else {
        formatted(d.digits as nat, d.exponent as int, p + 1, false).0
    };
    lemma_pow10_values();
    lemma_pow10_monotone(0, p + 1);
    if d.digits > 0 {
        lemma_formatted(d.digits as nat, d.exponent as int, p + 1, false);
    }
    let t = digits_text(m, p + 1);
    lemma_digits_text(m, p + 1);
    let x = rounded_exponent(d.digits as nat, d.exponent as int, p + 1);
    let mx = magnitude(x);
    lemma_digit_count(mx);
    if digit_count(mx) > 2 {
        lemma_pow10_monotone(2, (digit_count(mx) - 1) as nat);
    }
    let e = digits_text(mx, 2);
    lemma_digits_text(mx, 2);
    let et = exponent_text(x);
    assert(et =~= seq![101u8, if x < 0 { 45u8 } else { 43u8 }] + e);
    let b = scientific(d.digits as nat, d.exponent as int, p);
    assert(b =~= t.subrange(0, 1) + seq![46u8] + t.subrange(1, (p + 1) as int) + et);
    assert(b.subrange((p + 4) as int, (p + 6) as int) =~= e);
    assert forall|k: int| 0 <= k < p implies b[2 + k] == #[trigger] t[1 + k] by {}
    m
}

/// The text of a number with decimals, without the blanks before it.
pub open spec fn exp_body(d: Decimal, p: nat) -> Seq<u8> {
    (if d.below_zero() { seq![45u8] } else { Seq::empty() }) + scientific(
        d.digits as nat,
        d.exponent as int,
        p,
    )
}

/// A number with decimals reads as the number.
#[verifier::spinoff_prover]
#[verifier::rlimit(40)]
proof fn lemma_exp_body(d: Decimal, p: nat)
    requires
        fits_exp(d, p, p + 7),
    ensures
        printable(exp_body(d, p)),
        p + 6 <= exp_body(d, p).len() <= p + 7,
        inked(exp_body(d, p)[0]),
        digit(exp_body(d, p).last()),
        number(exp_body(d, p)) == Some(d),
{
    reveal(number);
    reveal(in_double_range);
    let m = lemma_scientific(d, p);
    let t = digits_text(m, p + 1);
    lemma_digits_text(m, p + 1);
    let x = rounded_exponent(d.digits as nat, d.exponent as int, p + 1);
    let e = digits_text(magnitude(x), 2);
    lemma_digits_text(magnitude(x), 2);
    let sci = scientific(d.digits as nat, d.exponent as int, p);
    let s: int = if d.below_zero() { 1 } else { 0 };
    let n = exp_body(d, p);
    assert(n.len() == s + p + 6);
    assert forall|k: int| s <= k < n.len() implies n[k] == #[trigger] sci[k - s] by {}
    assert(n[s] == t[0] && digit(t[0])) by {
        assert(n[s] == sci[0]);
    }
    assert(n[s + 1] == 46) by {
        assert(n[s + 1] == sci[1]);
    }
    assert forall|k: int| s + 2 <= k < s + 2 + p implies digit(#[trigger] n[k]) && n[k] == t[k - s
        - 1] by {
        assert(n[k] == sci[k - s]);
        assert(sci[2 + (k - s - 2)] == t[1 + (k - s - 2)]);
        assert(digit(t[k - s - 1]));
    }
    assert(n[s + p + 2] == 101) by {
        assert(n[s + p + 2] == sci[p as int + 2]);
    }
    assert(n[s + p + 3] == sci[p as int + 3]);
    assert forall|k: int| s + p + 4 <= k < s + p + 6 implies digit(#[trigger] n[k]) && n[k] == e[k
        - s - p - 4] by {
        assert(n[k] == sci[k - s]);
        assert(sci.subrange((p + 4) as int, (p + 6) as int)[k - s - p - 4] == sci[k - s]);
        assert(digit(e[k - s - p - 4]));
    }
    assert forall|i: int| 0 <= i < n.len() implies 32 <= (#[trigger] n[i]) < 0x80 by {
        if s + 2 <= i < s + 2 + p {
            assert(digit(n[i]));
        } else if s + p + 4 <= i {
            assert(digit(n[i]));
        }
    }
    assert(digit(n[s + p + 5]));
    lemma_digit_run_to(n, s, s + 1);
    lemma_digit_run_to(n, s + 2, s + 2 + p);
    lemma_digit_run_to(n, s + p + 4, s + p + 6);
    let whole = n.subrange(s, s + 1) + n.subrange(s + 2, s + 2 + p);
    assert(whole =~= t) by {
        assert forall|k: int| 0 <= k < p + 1 implies whole[k] == t[k] by {
            if k > 0 {
                assert(whole[k] == n[s + 1 + k]);
            }
        }
    }
    assert(n.subrange(s + p + 4, s + p + 6) =~= e);
    lemma_natural_small(m, p + 1);
    lemma_pow10_values();
    lemma_natural_small(magnitude(x), 2);
    assert(exponent_part(n, s + p + 2) == Some(x)) by {
        assert(n[s + p + 3] == 45 || n[s + p + 3] == 43);
    }
    if d.digits == 0 {
        lemma_strip_zeros(0, x - p);
        assert(d == zero());
    } else {
        let c = digit_count(d.digits as nat);
        lemma_digit_count(d.digits as nat);
        if c > p + 1 {
            lemma_pow10_monotone(p + 1, (c - 1) as nat);
        }
        lemma_formatted(d.digits as nat, d.exponent as int, p + 1, false);
        lemma_strip_added(d.digits as nat, d.exponent as int, (p + 1 - c) as nat);
        assert(x - p == d.exponent - (p + 1 - c));
    }
}

/// A text of blanks and then bytes with ink at both ends, at the right of its columns.
proof fn lemma_right(b: Seq<u8>, width: nat)
    requires
        1 <= b.len() <= width,
        printable(b),
        inked(b[0]),
        inked(b.last()),
    ensures
        right(b, width).len() == width,
        printable(right(b, width)),
        trim_of(right(b, width)) == b,
        !blank(right(b, width)),
{
    let r = right(b, width);
    let k = (width - b.len()) as nat;
    assert(r =~= spaces(k) + b);
    assert forall|i: int| 0 <= i < r.len() implies 32 <= (#[trigger] r[i]) < 0x80 by {
        if i >= k {
            assert(r[i] == b[i - k]);
        }
    }
    assert(r[k as int] == b[0]);
    assert(r.last() == b.last());
    lemma_trim_left(r, k as int);
    lemma_inked_not_blank(r, k as int);
    assert(r.subrange(k as int, r.len() as int) =~= b);
}

/// A number with decimals is read back from its columns.
pub proof fn law_exp_reads_back(d: Decimal, decimals: nat, width: nat)
    requires
        fits_exp(d, decimals, width),
    ensures
        exp_text(d, decimals, width).len() == width,
        printable(exp_text(d, decimals, width)),
        !blank(exp_text(d, decimals, width)),
        field_number(exp_text(d, decimals, width)) == Some(d),
{
    lemma_exp_body(d, decimals);
    lemma_right(exp_body(d, decimals), width);
}

/// Whether an optional number is written with decimals without loss.
pub open spec fn optional_fits_exp(d: Option<Decimal>, decimals: nat, width: nat) -> bool {
    d matches Some(d) ==> fits_exp(d, decimals, width)
}

/// Blanks state no number.
proof fn lemma_blank_number(width: nat)
    ensures
        blank(spaces(width)),
        printable(spaces(width)),
        field_number(spaces(width)) is None,
{
    reveal(number);
    lemma_spaces_blank(width);
    assert(trim_of(spaces(width)) =~= Seq::empty());
}

/// An optional number with decimals is read back from its columns.
proof fn lemma_optional_exp(d: Option<Decimal>, decimals: nat, width: nat)
    requires
        optional_fits_exp(d, decimals, width),
    ensures
        optional_exp_text(d, decimals, width).len() == width,
        printable(optional_exp_text(d, decimals, width)),
        blank(optional_exp_text(d, decimals, width)) == (d is None),
        field_number(optional_exp_text(d, decimals, width)) == d,
{
    match d {
        Some(d) => {
            law_exp_reads_back(d, decimals, width);
        },
        None => {
            lemma_blank_number(width);
        },
    }
}

/// An integer in digits reads as the number it is.
proof fn lemma_int_text(n: int)
    requires
        -10000000000 < n < 10000000000,
    ensures
        printable(int_text(n)),
        int_text(n).len() >= 1,
        inked(int_text(n)[0]),
        inked(int_text(n).last()),
        number(int_text(n)) == Some(decimal_of(n)),
        decimal_of(n).integer() == Some(n),
{
    reveal(number);
    reveal(in_double_range);
    lemma_integer_thirteen(n);
    let m = magnitude(n);
    let c = digit_count(m);
    lemma_digit_count(m);
    let t = digits_text(m, c);
    lemma_digits_text(m, c);
    lemma_natural_small(m, c);
    let b = int_text(n);
    let s: int = if n < 0 { 1 } else { 0 };
    assert forall|k: int| s <= k < b.len() implies digit(#[trigger] b[k]) by {
        assert(b[k] == t[k - s]);
    }
    assert(digit(b[s]) && digit(b[b.len() - 1]));
    lemma_digit_run_to(b, s, b.len() as int);
    lemma_digit_run_to(b, b.len() as int, b.len() as int);
    assert(b.subrange(s, b.len() as int) =~= t);
    assert(t + Seq::<u8>::empty() =~= t);
    assert(b.subrange(b.len() as int, b.len() as int) =~= Seq::empty());
    lemma_strip_zeros(m, 0);
    lemma_pow10_values();
    if c > 13 {
        lemma_pow10_monotone(13, (c - 1) as nat);
    }
    assert(number(b) == in_double_range(n < 0, m, 0));
}

/// Whether a number is an integer written in `width` columns.
pub open spec fn fits_count(d: Option<Decimal>, width: nat) -> bool {
    d matches Some(d) ==> d.wf() && (d.integer() matches Some(n) && -10000000000 < n < 10000000000
        && int_text(n).len() <= width)
}

/// An optional integer is read back from its columns.
proof fn lemma_count_field(d: Option<Decimal>, width: nat)
    requires
        fits_count(d, width),
    ensures
        count_field(d, width).len() == width,
        printable(count_field(d, width)),
        blank(count_field(d, width)) == (d is None),
        field_number(count_field(d, width)) == d,
{
    match d {
        Some(d) => {
            let n = d.integer()->0;
            lemma_pow10_values();
            lemma_int_text(n);
            lemma_integer_unique(d, n);
            lemma_right(int_text(n), width);
        },
        None => {
            lemma_blank_number(width);
        },
    }
}

/// Whether an integer is written in six columns.
pub open spec fn fits_leap(n: Option<int>) -> bool {
    n matches Some(n) ==> -10000000000 < n < 10000000000 && int_text(n).len() <= 6
}

/// An optional integer is read back from its six columns.
proof fn lemma_leap_int(n: Option<int>)
    requires
        fits_leap(n),
    ensures
        leap_int(n).len() == 6,
        printable(leap_int(n)),
        blank(leap_int(n)) == (n is None),
        field_number(leap_int(n)) == (match n {
            Some(n) => Some(decimal_of(n)),
            None => None,
        }),
        n matches Some(n) ==> decimal_of(n).integer() == Some(n),
{
    match n {
        Some(n) => {
            lemma_int_text(n);
            lemma_right(int_text(n), 6);
        },
        None => {
            lemma_blank_number(6);
        },
    }
}

/// Whether a text is of printable one-byte characters, at most `width`, without blanks at its ends.
pub open spec fn trimmed_text(t: Seq<u8>, width: nat) -> bool {
    &&& printable(t)
    &&& t.len() <= width
    &&& t.len() > 0 ==> inked(t[0]) && inked(t.last())
}

/// Whether an optional text is one.
pub open spec fn trimmed_option(t: Option<Seq<u8>>, width: nat) -> bool {
    t matches Some(t) ==> t.len() > 0 && trimmed_text(t, width)
}

/// A text is read back from its columns.
proof fn lemma_left_text(t: Seq<u8>, width: nat)
    requires
        trimmed_text(t, width),
    ensures
        left(t, width).len() == width,
        printable(left(t, width)),
        trim_of(left(t, width)) == t,
{
    lemma_char_count(t);
    let b = left(t, width);
    assert(b =~= t + spaces((width - t.len()) as nat));
    assert forall|i: int| 0 <= i < b.len() implies 32 <= (#[trigger] b[i]) < 0x80 by {
        if i < t.len() {
            assert(b[i] == t[i]);
        }
    }
    if t.len() > 0 {
        assert(b[0] == t[0]);
        assert(b[t.len() - 1] == t.last());
        lemma_skip_blanks(b, 0, 0);
        lemma_drop_to(b, 0, t.len() as int, width as int);
        assert(trim_of(b) =~= t);
    } else {
        lemma_spaces_blank(width);
        assert(b =~= spaces(width));
        assert(trim_of(b) =~= t);
    }
}

/// An optional text is read back from its columns.
proof fn lemma_left_option(t: Option<Seq<u8>>, width: nat)
    requires
        trimmed_option(t, width),
    ensures
        left(text_or_empty(t), width).len() == width,
        printable(left(text_or_empty(t), width)),
        trim_of(left(text_or_empty(t), width)) == text_or_empty(t),
{
    lemma_left_text(text_or_empty(t), width);
}

/// The columns of a header line are those of its content, filled with blanks.
proof fn lemma_content_columns(content: Seq<u8>, label: Seq<u8>, a: int, b: int)
    requires
        printable(content),
        content.len() <= 60,
        printable(label),
        1 <= label.len() <= 20,
        inked(label.last()),
        0 <= a <= b <= 60,
    ensures
        columns(labelled(content, label), a, b) == (content + spaces((60 - content.len()) as nat)).subrange(
            a,
            b,
        ),
{
    lemma_labelled(content, label);
    lemma_not_truncated(content, 60);
    lemma_char_count(content);
    let line = labelled(content, label);
    lemma_ascii_columns(line, a, b);
    assert(line.subrange(a, b) =~= (content + spaces((60 - content.len()) as nat)).subrange(a, b));
}

/// The labels of header records.
pub proof fn lemma_header_labels()
    ensures
        ({
            let c = utf8("COMMENT"@);
            printable(c) && c.len() == 7 && inked(c.last())
        }),
        ({
            let c = utf8("IONOSPHERIC CORR"@);
            printable(c) && c.len() == 16 && inked(c.last())
        }),
        ({
            let c = utf8("TIME SYSTEM CORR"@);
            printable(c) && c.len() == 16 && inked(c.last()) && c[0] == 84
        }),
        ({
            let c = utf8("LEAP SECONDS"@);
            printable(c) && c.len() == 12 && inked(c.last())
        }),
        utf8("RINEX VERSION / TYPE"@).len() == 20,
        utf8("PGM / RUN BY / DATE"@).len() == 19,
        utf8("END OF HEADER"@).len() == 13,
        utf8("ION ALPHA"@).len() == 9,
        utf8("ION BETA"@).len() == 8,
        utf8("DELTA-UTC: A0,A1,T,W"@).len() == 20,
        utf8("IONOSPHERIC CORR"@)[0] == 73,
{
    reveal_strlit("COMMENT");
    reveal_strlit("IONOSPHERIC CORR");
    reveal_strlit("TIME SYSTEM CORR");
    reveal_strlit("LEAP SECONDS");
    reveal_strlit("RINEX VERSION / TYPE");
    reveal_strlit("PGM / RUN BY / DATE");
    reveal_strlit("END OF HEADER");
    reveal_strlit("ION ALPHA");
    reveal_strlit("ION BETA");
    reveal_strlit("DELTA-UTC: A0,A1,T,W");
    lemma_utf8_ascii("COMMENT"@);
    lemma_utf8_ascii("IONOSPHERIC CORR"@);
    lemma_utf8_ascii("TIME SYSTEM CORR"@);
    lemma_utf8_ascii("LEAP SECONDS"@);
    lemma_utf8_ascii("RINEX VERSION / TYPE"@);
    lemma_utf8_ascii("PGM / RUN BY / DATE"@);
    lemma_utf8_ascii("END OF HEADER"@);
    lemma_utf8_ascii("ION ALPHA"@);
    lemma_utf8_ascii("ION BETA"@);
    lemma_utf8_ascii("DELTA-UTC: A0,A1,T,W"@);
}

/// Whether a mark is a printable one-byte character and no blank.
pub open spec fn plain_mark(mark: Option<char>) -> bool {
    mark matches Some(c) ==> '!' <= c && c <= '\u{7f}'
}

/// The text of a mark.
proof fn lemma_mark(mark: Option<char>)
    requires
        plain_mark(mark),
    ensures
        printable(mark_or_empty(mark)),
        mark matches Some(c) ==> mark_or_empty(mark).len() == 1 && mark_or_empty(mark)[0] as char
            == c && inked(mark_or_empty(mark)[0]),
{
    if let Some(c) = mark {
        lemma_utf8_ascii(seq![c]);
        assert(mark_or_empty(mark) =~= seq![c as u8]);
    }
}

/// The version line reads as the version, type and satellite system it is written of.
#[verifier::spinoff_prover]
#[verifier::rlimit(40)]
proof fn lemma_version_reads(h: Header)
    requires
        3 <= h.version.major <= 4,
        h.file_type == 'N',
        plain_mark(h.satellite_system),
    ensures
        printable(version_text(h)),
        label_of(version_text(h)) == Label::Version,
        version_line(version_text(h)) == Some((h.version, 'N', h.satellite_system)),
{
    reveal(version_text);
    lemma_labels();
    lemma_version_number(h.version);
    lemma_mark(h.satellite_system);
    let n = version_number(h.version);
    let r = right(n, 9);
    lemma_right(n, 9);
    let t = type_text(h.version, h.file_type);
    assert(t =~= seq![78u8] + utf8(": GNSS NAV DATA"@));
    assert forall|i: int| 0 <= i < t.len() implies 32 <= (#[trigger] t[i]) < 0x80 by {
        if i >= 1 {
            assert(t[i] == utf8(": GNSS NAV DATA"@)[i - 1]);
        }
    }
    let m = mark_or_empty(h.satellite_system);
    lemma_left_printable(r, 20);
    lemma_left_printable(t, 20);
    lemma_left_printable(m, 20);
    let (a, b, c) = (left(r, 20), left(t, 20), left(m, 20));
    let content = a + b + c;
    assert forall|i: int| 0 <= i < content.len() implies 32 <= (#[trigger] content[i]) < 0x80 by {
        if i < 20 {
            assert(content[i] == a[i]);
        } else if i < 40 {
            assert(content[i] == b[i - 20]);
        } else {
            assert(content[i] == c[i - 40]);
        }
    }
    let label = utf8("RINEX VERSION / TYPE"@);
    let line = version_text(h);
    lemma_labelled(content, label);
    assert(content + spaces(0) =~= content);
    lemma_content_columns(content, label, 0, 9);
    lemma_content_columns(content, label, 20, 21);
    lemma_content_columns(content, label, 40, 41);
    assert(content.subrange(0, 9) =~= r) by {
        assert(a.subrange(0, 9) =~= r);
    }
    assert(content.subrange(20, 21) =~= seq![78u8]) by {
        assert(b.subrange(0, t.len() as int)[0] == b[0]);
    }
    lemma_ascii_columns(line, 20, 21);
    lemma_ascii_columns(line, 40, 41);
    match h.satellite_system {
        Some(_) => {
            assert(content.subrange(40, 41) =~= m) by {
                assert(c.subrange(0, 1)[0] == c[0]);
            }
        },
        None => {
            assert(content.subrange(40, 41) =~= spaces(1)) by {
                assert(c[0] == 32);
            }
        },
    }
}

/// Whether a program record is of printable texts of at most twenty characters.
pub open spec fn plain_program(p: Program) -> bool {
    trimmed_text(p.program, 20) && trimmed_text(p.run_by, 20) && trimmed_text(p.date, 20)
}

/// The program line reads as the program record it is written of.
proof fn lemma_program_reads(p: Program)
    requires
        plain_program(p),
    ensures
        ({
            let line = program_text(p);
            &&& printable(line)
            &&& label_of(line) == Label::Program
            &&& trim_of(columns(line, 0, 20)) == p.program
            &&& trim_of(columns(line, 20, 40)) == p.run_by
            &&& trim_of(columns(line, 40, 60)) == p.date
        }),
{
    reveal(program_text);
    lemma_labels();
    lemma_header_labels();
    lemma_not_truncated(p.program, 20);
    lemma_not_truncated(p.run_by, 20);
    lemma_not_truncated(p.date, 20);
    lemma_left_text(p.program, 20);
    lemma_left_text(p.run_by, 20);
    lemma_left_text(p.date, 20);
    let (a, b, c) = (left(p.program, 20), left(p.run_by, 20), left(p.date, 20));
    let content = a + b + c;
    assert forall|i: int| 0 <= i < content.len() implies 32 <= (#[trigger] content[i]) < 0x80 by {
        if i < 20 {
            assert(content[i] == a[i]);
        } else if i < 40 {
            assert(content[i] == b[i - 20]);
        } else {
            assert(content[i] == c[i - 40]);
        }
    }
    let label = utf8("PGM / RUN BY / DATE"@);
    lemma_labelled(content, label);
    assert(content + spaces(0) =~= content);
    lemma_content_columns(content, label, 0, 20);
    lemma_content_columns(content, label, 20, 40);
    lemma_content_columns(content, label, 40, 60);
    assert(content.subrange(0, 20) =~= a);
    assert(content.subrange(20, 40) =~= b);
    assert(content.subrange(40, 60) =~= c);
}

/// Whether a comment is of at most sixty printable characters without blanks at its end.
pub open spec fn plain_comment(c: Seq<u8>) -> bool {
    printable(c) && c.len() <= 60 && (c.len() > 0 ==> inked(c.last()))
}

/// A comment line reads as the comment it is written of.
proof fn lemma_comment_reads(c: Seq<u8>)
    requires
        plain_comment(c),
    ensures
        ({
            let line = labelled(truncated(c, 60), utf8("COMMENT"@));
            &&& printable(line)
            &&& label_of(line) == Label::Comment
            &&& trim_end_of(columns(line, 0, 60)) == c
        }),
{
    lemma_header_labels();
    lemma_not_truncated(c, 60);
    let label = utf8("COMMENT"@);
    lemma_labelled(c, label);
    lemma_content_columns(c, label, 0, 60);
    let b = c + spaces((60 - c.len()) as nat);
    assert(b.subrange(0, 60) =~= b);
    assert forall|i: int| 0 <= i < b.len() implies 32 <= (#[trigger] b[i]) < 0x80 by {
        if i < c.len() {
            assert(b[i] == c[i]);
        }
    }
    if c.len() > 0 {
        assert(b[c.len() - 1] == c.last());
        lemma_drop_to(b, 0, c.len() as int, 60);
        assert(trim_end_of(b) =~= c);
    } else {
        assert(b =~= spaces(60));
        lemma_spaces_end(60);
        assert(trim_end_of(b) =~= c);
    }
}

/// Blanks are all dropped.
proof fn lemma_spaces_end(n: nat)
    ensures
        drop_space(spaces(n), 0, n as int) == 0,
{
    lemma_spaces_drop(n, n as int);
}

/// Blanks are all dropped from anywhere.
proof fn lemma_spaces_drop(n: nat, end: int)
    requires
        0 <= end <= n,
    ensures
        drop_space(spaces(n), 0, end) == 0,
    decreases end,
{
    if end > 0 {
        let t = spaces(n).subrange(0, end);
        assert(t[end - 1] == 32);
        assert(space_at(t, end - 1) == 1);
        lemma_spaces_drop(n, end - 1);
    }
}

/// Whether a leap second record is written without loss.
pub open spec fn plain_leap(leap: Leap) -> bool {
    &&& fits_leap(Some(leap.current))
    &&& fits_leap(leap.future)
    &&& fits_leap(leap.week)
    &&& fits_leap(leap.day)
    &&& trimmed_option(leap.system, 3)
}

/// An optional integer of a leap second line is read back from its columns.
proof fn lemma_leap_field(line: Seq<u8>, a: int, b: int, n: Option<int>)
    requires
        fits_leap(n),
        columns(line, a, b) == leap_int(n),
    ensures
        header_int(line, a, b) == Ok::<Option<int>, ()>(n),
{
    lemma_leap_int(n);
}

/// The leap second line reads as the record it is written of.
#[verifier::spinoff_prover]
#[verifier::rlimit(40)]
proof fn lemma_leap_reads(leap: Leap)
    requires
        plain_leap(leap),
    ensures
        printable(leap_text(leap)),
        label_of(leap_text(leap)) == Label::Leap,
        leap_record(leap_text(leap)) == Some(leap),
{
    reveal(leap_text);
    lemma_header_labels();
    lemma_leap_int(Some(leap.current));
    lemma_leap_int(leap.future);
    lemma_leap_int(leap.week);
    lemma_leap_int(leap.day);
    lemma_left_option(leap.system, 3);
    let (a, b, c, d, e) = (
        leap_int(Some(leap.current)),
        leap_int(leap.future),
        leap_int(leap.week),
        leap_int(leap.day),
        left(text_or_empty(leap.system), 3),
    );
    let content = a + b + c + d + e;
    assert forall|i: int| 0 <= i < content.len() implies 32 <= (#[trigger] content[i]) < 0x80 by {
        if i < 6 {
            assert(content[i] == a[i]);
        } else if i < 12 {
            assert(content[i] == b[i - 6]);
        } else if i < 18 {
            assert(content[i] == c[i - 12]);
        } else if i < 24 {
            assert(content[i] == d[i - 18]);
        } else {
            assert(content[i] == e[i - 24]);
        }
    }
    let label = utf8("LEAP SECONDS"@);
    lemma_labelled(content, label);
    lemma_content_columns(content, label, 0, 6);
    lemma_content_columns(content, label, 6, 12);
    lemma_content_columns(content, label, 12, 18);
    lemma_content_columns(content, label, 18, 24);
    lemma_content_columns(content, label, 24, 27);
    let full = content + spaces(33);
    assert(full.subrange(0, 6) =~= a);
    assert(full.subrange(6, 12) =~= b);
    assert(full.subrange(12, 18) =~= c);
    assert(full.subrange(18, 24) =~= d);
    assert(full.subrange(24, 27) =~= e);
    let line = leap_text(leap);
    lemma_leap_field(line, 0, 6, Some(leap.current));
    lemma_leap_field(line, 6, 12, leap.future);
    lemma_leap_field(line, 12, 18, leap.week);
    lemma_leap_field(line, 18, 24, leap.day);
}

/// Whether a coefficient row is written without loss.
pub open spec fn plain_row(row: IonoRow) -> bool {
    &&& trimmed_text(row.label, 4)
    &&& row.values.len() == 4
    &&& forall|k: int| 0 <= k < 4 ==> optional_fits_exp(#[trigger] row.values[k], 4, 12)
    &&& plain_mark(row.mark)
    &&& trimmed_option(row.satellite, 3)
    &&& !row_incomplete(ReadRow { line: 0, row, fourth_unread: false })
}

/// What follows the coefficients of a row, in six columns.
pub open spec fn row_tail(row: IonoRow) -> Seq<u8> {
    spaces(1) + left(mark_or_empty(row.mark), 1) + spaces(1) + left(text_or_empty(row.satellite), 3)
}

/// The content of a coefficient row, in fifty-nine columns.
pub open spec fn row_content(row: IonoRow) -> Seq<u8> {
    left(row.label, 4) + spaces(1) + coefficients_text(row.values) + row_tail(row)
}

/// What follows the coefficients of a row is blank where the row has neither mark nor satellite.
proof fn lemma_row_tail(row: IonoRow)
    requires
        plain_row(row),
    ensures
        row_tail(row).len() == 6,
        printable(row_tail(row)),
        row_tail(row).subrange(1, 2) == left(mark_or_empty(row.mark), 1),
        row_tail(row).subrange(3, 6) == left(text_or_empty(row.satellite), 3),
        row.mark is None && row.satellite is None ==> row_tail(row) == spaces(6),
        row_tail(row) == spaces(1) + (match row.mark {
            Some(c) => utf8(seq![c]),
            None => spaces(1),
        }) + spaces(1) + left(text_or_empty(row.satellite), 3),
        trim_of(left(mark_or_empty(row.mark), 1)) == mark_or_empty(row.mark),
{
    lemma_mark(row.mark);
    lemma_left_text(mark_or_empty(row.mark), 1);
    lemma_left_option(row.satellite, 3);
    let (m, s) = (left(mark_or_empty(row.mark), 1), left(text_or_empty(row.satellite), 3));
    let t = row_tail(row);
    assert(t.subrange(1, 2) =~= m);
    assert(t.subrange(3, 6) =~= s);
    assert forall|i: int| 0 <= i < t.len() implies 32 <= (#[trigger] t[i]) < 0x80 by {
        if i == 1 {
            assert(t[i] == m[0]);
        } else if i >= 3 {
            assert(t[i] == s[i - 3]);
        }
    }
    lemma_char_count(mark_or_empty(row.mark));
    lemma_char_count(text_or_empty(row.satellite));
    match row.mark {
        Some(c) => {
            assert(m =~= utf8(seq![c]));
        },
        None => {
            assert(m =~= spaces(1));
        },
    }
    if row.mark is None && row.satellite is None {
        assert(s =~= spaces(3));
        assert(t =~= spaces(6));
    }
}

/// The columns of the content of a coefficient row.
#[verifier::spinoff_prover]
#[verifier::rlimit(40)]
proof fn lemma_row_content(row: IonoRow)
    requires
        plain_row(row),
    ensures
        ({
            let full = row_content(row) + spaces(1);
            &&& row_content(row).len() == 59
            &&& printable(row_content(row))
            &&& full.subrange(0, 4) == left(row.label, 4)
            &&& full.subrange(5, 17) == optional_exp_text(row.values[0], 4, 12)
            &&& full.subrange(17, 29) == optional_exp_text(row.values[1], 4, 12)
            &&& full.subrange(29, 41) == optional_exp_text(row.values[2], 4, 12)
            &&& full.subrange(41, 53) == optional_exp_text(row.values[3], 4, 12)
            &&& full.subrange(54, 55) == left(mark_or_empty(row.mark), 1)
            &&& full.subrange(56, 59) == left(text_or_empty(row.satellite), 3)
        }),
{
    lemma_left_text(row.label, 4);
    lemma_row_tail(row);
    lemma_optional_exp(row.values[0], 4, 12);
    lemma_optional_exp(row.values[1], 4, 12);
    lemma_optional_exp(row.values[2], 4, 12);
    lemma_optional_exp(row.values[3], 4, 12);
    let l = left(row.label, 4);
    let (a, b, c, d) = (
        optional_exp_text(row.values[0], 4, 12),
        optional_exp_text(row.values[1], 4, 12),
        optional_exp_text(row.values[2], 4, 12),
        optional_exp_text(row.values[3], 4, 12),
    );
    let t = row_tail(row);
    let content = row_content(row);
    assert(content =~= l + spaces(1) + a + b + c + d + t);
    assert(content.len() == 59);
    assert forall|i: int| 0 <= i < content.len() implies 32 <= (#[trigger] content[i]) < 0x80 by {
        if i < 4 {
            assert(content[i] == l[i]);
        } else if 5 <= i < 17 {
            assert(content[i] == a[i - 5]);
        } else if 17 <= i < 29 {
            assert(content[i] == b[i - 17]);
        } else if 29 <= i < 41 {
            assert(content[i] == c[i - 29]);
        } else if 41 <= i < 53 {
            assert(content[i] == d[i - 41]);
        } else if 53 <= i {
            assert(content[i] == t[i - 53]);
        }
    }
    let full = content + spaces(1);
    assert(full.subrange(0, 4) =~= l);
    assert(full.subrange(5, 17) =~= a);
    assert(full.subrange(17, 29) =~= b);
    assert(full.subrange(29, 41) =~= c);
    assert(full.subrange(41, 53) =~= d);
    assert(full.subrange(54, 55) =~= t.subrange(1, 2));
    assert(full.subrange(56, 59) =~= t.subrange(3, 6));
}

/// A coefficient row is written as its content in a header line.
#[verifier::spinoff_prover]
#[verifier::rlimit(40)]
proof fn lemma_row_line(row: IonoRow, version: NavVersion)
    requires
        plain_row(row),
        version.major != 2,
    ensures
        iono_row_text(row, version) == labelled(row_content(row), utf8("IONOSPHERIC CORR"@)),
{
    reveal(iono_row_text);
    lemma_row_content(row);
    lemma_row_tail(row);
    let values = coefficients_text(row.values);
    if !(row.mark is Some || row.satellite is Some) {
        let short = left(row.label, 4) + spaces(1) + values + Seq::empty();
        assert(short =~= row_content(row).subrange(0, 53));
        assert(row_content(row) =~= short + spaces(6));
        assert(printable(short)) by {
            assert forall|i: int| 0 <= i < short.len() implies 32 <= (#[trigger] short[i]) < 0x80 by {
                assert(short[i] == row_content(row)[i]);
            }
        }
        lemma_not_truncated(short, 60);
        lemma_not_truncated(row_content(row), 60);
        lemma_char_count(short);
        lemma_char_count(row_content(row));
        assert(left(short, 60) =~= left(row_content(row), 60));
    } else {
        let tail = spaces(1) + (match row.mark {
            Some(c) => utf8(seq![c]),
            None => spaces(1),
        }) + spaces(1) + left(text_or_empty(row.satellite), 3);
        assert(left(row.label, 4) + spaces(1) + values + tail == row_content(row));
    }
}

/// A coefficient row line reads as the row it is written of.
#[verifier::spinoff_prover]
#[verifier::rlimit(40)]
proof fn lemma_row_reads(row: IonoRow, version: NavVersion)
    requires
        plain_row(row),
        version.major != 2,
    ensures
        ({
            let line = iono_row_text(row, version);
            &&& printable(line)
            &&& label_of(line) == Label::Iono
            &&& iono_row(line, trim_of(columns(line, 0, 4)), 5, true) == row
            &&& !fourth_unread(line, 5)
            &&& forall|n: int|
                #![trigger row_of_line(line, n)]
                row_of_line(line, n) == (ReadRow { line: n, row, fourth_unread: false })
                    && !row_incomplete(row_of_line(line, n))
        }),
{
    lemma_row_line(row, version);
    lemma_header_labels();
    let label = utf8("IONOSPHERIC CORR"@);
    let content = row_content(row);
    lemma_row_content(row);
    lemma_labelled(content, label);
    lemma_content_columns(content, label, 0, 4);
    lemma_content_columns(content, label, 5, 17);
    lemma_content_columns(content, label, 17, 29);
    lemma_content_columns(content, label, 29, 41);
    lemma_content_columns(content, label, 41, 53);
    lemma_content_columns(content, label, 54, 55);
    lemma_content_columns(content, label, 56, 59);
    lemma_left_text(row.label, 4);
    lemma_left_option(row.satellite, 3);
    lemma_row_tail(row);
    lemma_mark(row.mark);
    lemma_optional_exp(row.values[0], 4, 12);
    lemma_optional_exp(row.values[1], 4, 12);
    lemma_optional_exp(row.values[2], 4, 12);
    lemma_optional_exp(row.values[3], 4, 12);
    let line = iono_row_text(row, version);
    let read = iono_row(line, trim_of(columns(line, 0, 4)), 5, true);
    assert(read.values =~= row.values) by {
        assert forall|k: int| 0 <= k < 4 implies read.values[k] == row.values[k] by {
            if k == 0 {
            } else if k == 1 {
            } else if k == 2 {
            } else {
                assert(k == 3);
            }
        }
    }
}

/// Whether a time system correction is written without loss.
pub open spec fn plain_correction(c: Correction) -> bool {
    &&& trimmed_text(c.code, 4)
    &&& fits_exp(c.a0, 10, 17)
    &&& optional_fits_exp(c.a1, 9, 16)
    &&& fits_count(c.time, 7)
    &&& fits_count(c.week, 5)
    &&& trimmed_option(c.source, 5)
    &&& trimmed_option(c.utc_id, 2)
}

/// The content of a time system correction, in fifty-nine columns.
pub open spec fn correction_content(c: Correction) -> Seq<u8> {
    left(c.code, 4) + spaces(1) + exp_text(c.a0, 10, 17) + optional_exp_text(c.a1, 9, 16)
        + count_field(c.time, 7) + count_field(c.week, 5) + spaces(1) + left(
        text_or_empty(c.source),
        5,
    ) + spaces(1) + left(text_or_empty(c.utc_id), 2)
}

/// The columns of the content of a time system correction.
#[verifier::spinoff_prover]
#[verifier::rlimit(40)]
proof fn lemma_correction_content(c: Correction)
    requires
        plain_correction(c),
    ensures
        ({
            let full = correction_content(c) + spaces(1);
            &&& correction_content(c).len() == 59
            &&& printable(correction_content(c))
            &&& full.subrange(0, 4) == left(c.code, 4)
            &&& full.subrange(5, 22) == exp_text(c.a0, 10, 17)
            &&& full.subrange(22, 38) == optional_exp_text(c.a1, 9, 16)
            &&& full.subrange(38, 45) == count_field(c.time, 7)
            &&& full.subrange(45, 50) == count_field(c.week, 5)
            &&& full.subrange(51, 56) == left(text_or_empty(c.source), 5)
            &&& full.subrange(57, 59) == left(text_or_empty(c.utc_id), 2)
        }),
{
    lemma_left_text(c.code, 4);
    law_exp_reads_back(c.a0, 10, 17);
    lemma_optional_exp(c.a1, 9, 16);
    lemma_count_field(c.time, 7);
    lemma_count_field(c.week, 5);
    lemma_left_option(c.source, 5);
    lemma_left_option(c.utc_id, 2);
    let l = left(c.code, 4);
    let (a, b, t, w, s, u) = (
        exp_text(c.a0, 10, 17),
        optional_exp_text(c.a1, 9, 16),
        count_field(c.time, 7),
        count_field(c.week, 5),
        left(text_or_empty(c.source), 5),
        left(text_or_empty(c.utc_id), 2),
    );
    let content = correction_content(c);
    assert(content.len() == 59);
    assert forall|i: int| 0 <= i < content.len() implies 32 <= (#[trigger] content[i]) < 0x80 by {
        if i < 4 {
            assert(content[i] == l[i]);
        } else if 5 <= i < 22 {
            assert(content[i] == a[i - 5]);
        } else if 22 <= i < 38 {
            assert(content[i] == b[i - 22]);
        } else if 38 <= i < 45 {
            assert(content[i] == t[i - 38]);
        } else if 45 <= i < 50 {
            assert(content[i] == w[i - 45]);
        } else if 51 <= i < 56 {
            assert(content[i] == s[i - 51]);
        } else if 57 <= i {
            assert(content[i] == u[i - 57]);
        }
    }
    let full = content + spaces(1);
    assert(full.subrange(0, 4) =~= l);
    assert(full.subrange(5, 22) =~= a);
    assert(full.subrange(22, 38) =~= b);
    assert(full.subrange(38, 45) =~= t);
    assert(full.subrange(45, 50) =~= w);
    assert(full.subrange(51, 56) =~= s);
    assert(full.subrange(57, 59) =~= u);
}

/// A time system correction line reads as the correction it is written of.
#[verifier::spinoff_prover]
#[verifier::rlimit(40)]
proof fn lemma_correction_reads(c: Correction, version: NavVersion)
    requires
        plain_correction(c),
        version.major != 2,
    ensures
        ({
            let line = correction_text(c, version);
            &&& printable(line)
            &&& label_of(line) == Label::TimeSystem
            &&& v3_correction(line) == Some(c)
        }),
{
    reveal(correction_text);
    lemma_header_labels();
    let label = utf8("TIME SYSTEM CORR"@);
    let content = correction_content(c);
    lemma_correction_content(c);
    lemma_labelled(content, label);
    lemma_content_columns(content, label, 0, 4);
    lemma_content_columns(content, label, 5, 22);
    lemma_content_columns(content, label, 22, 38);
    lemma_content_columns(content, label, 38, 45);
    lemma_content_columns(content, label, 45, 50);
    lemma_content_columns(content, label, 51, 56);
    lemma_content_columns(content, label, 57, 59);
    lemma_left_text(c.code, 4);
    law_exp_reads_back(c.a0, 10, 17);
    lemma_optional_exp(c.a1, 9, 16);
    lemma_count_field(c.time, 7);
    lemma_count_field(c.week, 5);
    lemma_left_option(c.source, 5);
    lemma_left_option(c.utc_id, 2);
}

/// A header line that does not end the header is scanned on.
proof fn lemma_scan_step(lines: Seq<Seq<u8>>, at: int, scan: Scan, next: Scan)
    requires
        0 <= at < lines.len(),
        label_of(lines[at]) != Label::End,
        scanned(scan, lines[at], at + 1, true) == Ok::<Scan, Fault>(next),
    ensures
        scan_lines(lines, at, scan, true) == scan_lines(lines, at + 1, next, true),
{
}

/// The comment lines are scanned as the comments.
proof fn lemma_scan_comments(lines: Seq<Seq<u8>>, at: int, comments: Seq<Seq<u8>>, scan: Scan)
    requires
        0 <= at,
        at + comments.len() <= lines.len(),
        forall|k: int| 0 <= k < comments.len() ==> plain_comment(#[trigger] comments[k]),
        forall|k: int|
            0 <= k < comments.len() ==> lines[at + k] == labelled(
                truncated(#[trigger] comments[k], 60),
                utf8("COMMENT"@),
            ),
    ensures
        scan_lines(lines, at, scan, true) == scan_lines(
            lines,
            at + comments.len(),
            Scan { comments: scan.comments + comments, ..scan },
            true,
        ),
    decreases comments.len(),
{
    if comments.len() > 0 {
        let head = comments.drop_last();
        let n = head.len() as int;
        assert forall|k: int| 0 <= k < head.len() implies plain_comment(#[trigger] head[k])
            && lines[at + k] == labelled(truncated(head[k], 60), utf8("COMMENT"@)) by {
            assert(head[k] == comments[k]);
        }
        lemma_scan_comments(lines, at, head, scan);
        let mid = Scan { comments: scan.comments + head, ..scan };
        let next = Scan { comments: scan.comments + comments, ..scan };
        let c = comments[n];
        lemma_comment_reads(c);
        assert(lines[at + n] == labelled(truncated(c, 60), utf8("COMMENT"@)));
        assert(mid.comments.push(c) =~= next.comments);
        assert(scanned(mid, lines[at + n], at + n + 1, true) == Ok::<Scan, Fault>(next)) by {
            reveal(scanned);
        }
        lemma_scan_step(lines, at + n, mid, next);
    } else {
        assert(scan.comments + comments =~= scan.comments);
    }
}

/// Rows as they are read from lines.
pub open spec fn numbered(rows: Seq<IonoRow>, at: int) -> Seq<ReadRow> {
    Seq::new(
        rows.len(),
        |k: int| ReadRow { line: at + k + 1, row: rows[k], fourth_unread: false },
    )
}

/// The coefficient lines are scanned as the rows.
proof fn lemma_scan_rows(
    lines: Seq<Seq<u8>>,
    at: int,
    rows: Seq<IonoRow>,
    version: NavVersion,
    scan: Scan,
)
    requires
        0 <= at,
        version.major != 2,
        at + rows.len() <= lines.len(),
        forall|k: int| 0 <= k < rows.len() ==> plain_row(#[trigger] rows[k]),
        forall|k: int|
            0 <= k < rows.len() ==> lines[at + k] == iono_row_text(#[trigger] rows[k], version),
    ensures
        scan_lines(lines, at, scan, true) == scan_lines(
            lines,
            at + rows.len(),
            Scan { rows: scan.rows + numbered(rows, at), ..scan },
            true,
        ),
    decreases rows.len(),
{
    if rows.len() > 0 {
        let head = rows.drop_last();
        let n = head.len() as int;
        assert forall|k: int| 0 <= k < head.len() implies plain_row(#[trigger] head[k]) && lines[at
            + k] == iono_row_text(head[k], version) by {
            assert(head[k] == rows[k]);
        }
        lemma_scan_rows(lines, at, head, version, scan);
        let mid = Scan { rows: scan.rows + numbered(head, at), ..scan };
        let next = Scan { rows: scan.rows + numbered(rows, at), ..scan };
        lemma_row_reads(rows[n], version);
        let row = ReadRow { line: at + n + 1, row: rows[n], fourth_unread: false };
        assert(lines[at + n] == iono_row_text(rows[n], version));
        assert(mid.rows.push(row) =~= next.rows);
        assert(scanned(mid, lines[at + n], at + n + 1, true) == Ok::<Scan, Fault>(next)) by {
            reveal(scanned);
        }
        lemma_scan_step(lines, at + n, mid, next);
    } else {
        assert(scan.rows + numbered(rows, at) =~= scan.rows);
    }
}

/// The correction lines are scanned as the corrections.
proof fn lemma_scan_corrections(
    lines: Seq<Seq<u8>>,
    at: int,
    corrections: Seq<Correction>,
    version: NavVersion,
    scan: Scan,
)
    requires
        0 <= at,
        version.major != 2,
        at + corrections.len() <= lines.len(),
        forall|k: int| 0 <= k < corrections.len() ==> plain_correction(#[trigger] corrections[k]),
        forall|k: int|
            0 <= k < corrections.len() ==> lines[at + k] == correction_text(
                #[trigger] corrections[k],
                version,
            ),
    ensures
        scan_lines(lines, at, scan, true) == scan_lines(
            lines,
            at + corrections.len(),
            Scan { corrections: scan.corrections + corrections, ..scan },
            true,
        ),
    decreases corrections.len(),
{
    if corrections.len() > 0 {
        let head = corrections.drop_last();
        let n = head.len() as int;
        assert forall|k: int| 0 <= k < head.len() implies plain_correction(#[trigger] head[k])
            && lines[at + k] == correction_text(head[k], version) by {
            assert(head[k] == corrections[k]);
        }
        lemma_scan_corrections(lines, at, head, version, scan);
        let mid = Scan { corrections: scan.corrections + head, ..scan };
        let next = Scan { corrections: scan.corrections + corrections, ..scan };
        lemma_correction_reads(corrections[n], version);
        assert(lines[at + n] == correction_text(corrections[n], version));
        assert(mid.corrections.push(corrections[n]) =~= next.corrections);
        assert(scanned(mid, lines[at + n], at + n + 1, true) == Ok::<Scan, Fault>(next)) by {
            reveal(scanned);
        }
        lemma_scan_step(lines, at + n, mid, next);
    } else {
        assert(scan.corrections + corrections =~= scan.corrections);
    }
}

/// Other lines are kept.
proof fn lemma_scan_other(lines: Seq<Seq<u8>>, at: int, other: Seq<Seq<u8>>, scan: Scan)
    requires
        0 <= at,
        at + other.len() <= lines.len(),
        forall|k: int| 0 <= k < other.len() ==> label_of(#[trigger] other[k]) == Label::Other,
        forall|k: int| 0 <= k < other.len() ==> lines[at + k] == #[trigger] other[k],
    ensures
        scan_lines(lines, at, scan, true) == scan_lines(
            lines,
            at + other.len(),
            Scan { other: scan.other + other, ..scan },
            true,
        ),
    decreases other.len(),
{
    if other.len() > 0 {
        let head = other.drop_last();
        let n = head.len() as int;
        assert forall|k: int| 0 <= k < head.len() implies label_of(#[trigger] head[k])
            == Label::Other && lines[at + k] == head[k] by {
            assert(head[k] == other[k]);
        }
        lemma_scan_other(lines, at, head, scan);
        let mid = Scan { other: scan.other + head, ..scan };
        let next = Scan { other: scan.other + other, ..scan };
        assert(lines[at + n] == other[n]);
        assert(mid.other.push(other[n]) =~= next.other);
        assert(scanned(mid, lines[at + n], at + n + 1, true) == Ok::<Scan, Fault>(next)) by {
            reveal(scanned);
        }
        lemma_scan_step(lines, at + n, mid, next);
    } else {
        assert(scan.other + other =~= scan.other);
    }
}

/// The last row of a label is found alike in rows that are alike.
proof fn lemma_last_row(a: Seq<ReadRow>, b: Seq<ReadRow>, label: Seq<u8>)
    requires
        a.len() == b.len(),
        forall|k: int| 0 <= k < a.len() ==> (#[trigger] a[k]).row == b[k].row,
        forall|k: int|
            0 <= k < a.len() ==> ((#[trigger] a[k]).row.label == utf8("GAL"@) ==> a[k].fourth_unread
                == b[k].fourth_unread),
    ensures
        match (last_row(a, label), last_row(b, label)) {
            (Some(x), Some(y)) => x.row == y.row && x.row.label == label && (label == utf8("GAL"@)
                ==> x.fourth_unread == y.fourth_unread),
            (None, None) => true,
            _ => false,
        },
    decreases a.len(),
{
    if a.len() > 0 {
        let (c, d) = (a.drop_last(), b.drop_last());
        assert forall|k: int| 0 <= k < c.len() implies (#[trigger] c[k]).row == d[k].row && (
        c[k].row.label == utf8("GAL"@) ==> c[k].fourth_unread == d[k].fourth_unread) by {
            assert(c[k] == a[k] && d[k] == b[k]);
        }
        lemma_last_row(c, d, label);
        assert(a[a.len() - 1].row == b[b.len() - 1].row);
    }
}

/// Rows that are alike but for their line numbers form the same sets.
pub proof fn lemma_same_sets(a: Seq<ReadRow>, b: Seq<ReadRow>)
    requires
        a.len() == b.len(),
        forall|k: int| 0 <= k < a.len() ==> (#[trigger] a[k]).row == b[k].row,
        forall|k: int|
            0 <= k < a.len() ==> ((#[trigger] a[k]).row.label == utf8("GAL"@) ==> a[k].fourth_unread
                == b[k].fourth_unread),
    ensures
        iono_of(a) == iono_of(b),
{
    lemma_last_row(a, b, utf8("GPSA"@));
    lemma_last_row(a, b, utf8("GPSB"@));
    lemma_last_row(a, b, utf8("BDSA"@));
    lemma_last_row(a, b, utf8("BDSB"@));
    lemma_last_row(a, b, utf8("QZSA"@));
    lemma_last_row(a, b, utf8("QZSB"@));
    lemma_last_row(a, b, utf8("IRNA"@));
    lemma_last_row(a, b, utf8("IRNB"@));
    lemma_last_row(a, b, utf8("GAL"@));
}

/// The coefficient sets of rows do not depend on the rows' line numbers.
proof fn lemma_sets_of_rows(rows: Seq<IonoRow>, at: int)
    ensures
        iono_of(numbered(rows, at)) == iono_of(rows_as_read(rows)),
        rows_only(numbered(rows, at)) == rows,
{
    lemma_same_sets(numbered(rows, at), rows_as_read(rows));
    assert(rows_only(numbered(rows, at)) =~= rows);
}

/// Whether a RINEX 3 or 4 header is written from its fields without loss: its texts are of printable
/// one-byte characters and fit their columns, its numbers have no more digits than their columns
/// state, its coefficient sets are those of its rows, and its other records are such.
pub open spec fn plain_fields(h: Header) -> bool {
    &&& 3 <= h.version.major <= 4
    &&& h.file_type == 'N'
    &&& plain_mark(h.satellite_system)
    &&& h.program matches Some(p) ==> plain_program(p)
    &&& forall|k: int| 0 <= k < h.comments.len() ==> plain_comment(#[trigger] h.comments[k])
    &&& h.iono == iono_of(rows_as_read(h.rows))
    &&& forall|k: int| 0 <= k < h.rows.len() ==> plain_row(#[trigger] h.rows[k])
    &&& forall|k: int|
        0 <= k < h.corrections.len() ==> plain_correction(#[trigger] h.corrections[k])
    &&& h.leap matches Some(leap) ==> plain_leap(leap)
    &&& forall|k: int|
        0 <= k < h.other.len() ==> printable(#[trigger] h.other[k]) && label_of(h.other[k])
            == Label::Other
}

/// Records that are no coefficient records are all picked as such.
proof fn lemma_none_unread(other: Seq<Seq<u8>>)
    requires
        forall|k: int| 0 <= k < other.len() ==> label_of(#[trigger] other[k]) == Label::Other,
    ensures
        picked(other, true) == Seq::<Seq<u8>>::empty(),
        picked(other, false) == other,
    decreases other.len(),
{
    if other.len() > 0 {
        let head = other.drop_last();
        assert forall|k: int| 0 <= k < head.len() implies label_of(#[trigger] head[k])
            == Label::Other by {
            assert(head[k] == other[k]);
        }
        lemma_none_unread(head);
        assert(label_of(other[other.len() - 1]) == Label::Other);
        assert(head.push(other.last()) =~= other);
    } else {
        assert(other =~= Seq::<Seq<u8>>::empty());
    }
}

/// No row is kept as a line where no record is one.
proof fn lemma_rows_left(rows: Seq<IonoRow>, other: Seq<Seq<u8>>)
    requires
        forall|k: int| 0 <= k < other.len() ==> label_of(#[trigger] other[k]) == Label::Other,
    ensures
        rows_left(rows, other) == rows,
    decreases rows.len(),
{
    if rows.len() > 0 {
        lemma_rows_left(rows.drop_last(), other);
        assert(!kept_as_line(rows.last(), other)) by {
            if kept_as_line(rows.last(), other) {
                let k = choose|k: int|
                    0 <= k < other.len() && unread_row(#[trigger] other[k]) && row_of_line(
                        other[k],
                        0,
                    ).row == rows.last();
                assert(label_of(other[k]) == Label::Other);
            }
        }
        assert(rows.drop_last().push(rows.last()) =~= rows);
    }
}

/// The rows written of a header whose sets are those of its rows are its rows.
proof fn lemma_rows_written(h: Header)
    requires
        h.iono == iono_of(rows_as_read(h.rows)),
        forall|k: int| 0 <= k < h.other.len() ==> label_of(#[trigger] h.other[k]) == Label::Other,
    ensures
        rows_written(h) == h.rows,
{
    reveal(rows_written);
    lemma_rows_left(h.rows, h.other);
    if h.rows.len() == 0 {
        assert(rows_as_read(h.rows) =~= Seq::empty());
        assert(iono_rows_of(h.iono) =~= h.rows);
    }
}

/// What a header's lines are scanned to.
pub open spec fn header_scan(h: Header, at: int) -> Scan {
    Scan {
        version: Some((h.version, h.file_type, h.satellite_system)),
        program: h.program,
        comments: h.comments,
        rows: numbered(h.rows, at),
        corrections: h.corrections,
        leap: h.leap,
        other: h.other,
        issues: Seq::empty(),
    }
}

/// The places of the parts of a header's lines: where the comments, the rows, the corrections, the
/// leap seconds, the other records and the end start.
pub open spec fn header_places(h: Header) -> (int, int, int, int, int, int) {
    let a: int = if h.program is Some { 2 } else { 1 };
    let b = a + h.comments.len();
    let c = b + h.rows.len();
    let d = c + h.corrections.len();
    let e = d + (if h.leap is Some { 1int } else { 0int });
    (a, b, c, d, e, e + h.other.len())
}

/// The lines of a header, part by part.
#[verifier::spinoff_prover]
#[verifier::rlimit(40)]
proof fn lemma_header_parts(h: Header)
    requires
        plain_fields(h),
    ensures
        ({
            let l = header_lines(h);
            let (a, b, c, d, e, f) = header_places(h);
            &&& l.len() == f + 1
            &&& l[0] == version_text(h)
            &&& h.program matches Some(p) ==> l[1] == program_text(p)
            &&& forall|k: int|
                0 <= k < h.comments.len() ==> l[a + k] == labelled(
                    truncated(#[trigger] h.comments[k], 60),
                    utf8("COMMENT"@),
                )
            &&& forall|k: int|
                0 <= k < h.rows.len() ==> l[b + k] == iono_row_text(#[trigger] h.rows[k], h.version)
            &&& forall|k: int|
                0 <= k < h.corrections.len() ==> l[c + k] == correction_text(
                    #[trigger] h.corrections[k],
                    h.version,
                )
            &&& h.leap matches Some(leap) ==> l[d] == leap_text(leap)
            &&& forall|k: int| 0 <= k < h.other.len() ==> l[e + k] == #[trigger] h.other[k]
            &&& l[f] == labelled(Seq::empty(), utf8("END OF HEADER"@))
        }),
{
    reveal(header_lines);
    lemma_rows_written(h);
    lemma_none_unread(h.other);
}

/// A header formatted from its fields reads back: its lines, whatever follows them, read as the
/// header they are written of.
#[verifier::spinoff_prover]
#[verifier::rlimit(60)]
pub proof fn law_header_reads_back(h: Header)
    requires
        plain_fields(h),
    ensures
        header_of(header_lines(h), true) matches Ok((read, start, _)) && read == h && start
            == header_lines(h).len(),
{
    let l = header_lines(h);
    let (a, b, c, d, e, f) = header_places(h);
    lemma_header_parts(h);
    lemma_version_reads(h);
    let s0 = empty_scan();
    let s1 = Scan { version: Some((h.version, h.file_type, h.satellite_system)), ..s0 };
    assert(scanned(s0, l[0], 1, true) == Ok::<Scan, Fault>(s1)) by {
        reveal(scanned);
    }
    lemma_scan_step(l, 0, s0, s1);
    let s2 = Scan { program: h.program, ..s1 };
    if let Some(p) = h.program {
        lemma_program_reads(p);
        assert(scanned(s1, l[1], 2, true) == Ok::<Scan, Fault>(s2)) by {
            reveal(scanned);
        }
        lemma_scan_step(l, 1, s1, s2);
    }
    assert(scan_lines(l, 0, s0, true) == scan_lines(l, a, s2, true));
    lemma_scan_comments(l, a, h.comments, s2);
    let s3 = Scan { comments: h.comments, ..s2 };
    assert(s2.comments + h.comments =~= h.comments);
    lemma_scan_rows(l, b, h.rows, h.version, s3);
    let s4 = Scan { rows: numbered(h.rows, b), ..s3 };
    assert(s3.rows + numbered(h.rows, b) =~= numbered(h.rows, b));
    lemma_scan_corrections(l, c, h.corrections, h.version, s4);
    let s5 = Scan { corrections: h.corrections, ..s4 };
    assert(s4.corrections + h.corrections =~= h.corrections);
    let s6 = Scan { leap: h.leap, ..s5 };
    if let Some(leap) = h.leap {
        lemma_leap_reads(leap);
        assert(scanned(s5, l[d], d + 1, true) == Ok::<Scan, Fault>(s6)) by {
            reveal(scanned);
        }
        lemma_scan_step(l, d, s5, s6);
    }
    lemma_scan_other(l, e, h.other, s6);
    let s7 = Scan { other: h.other, ..s6 };
    assert(s6.other + h.other =~= h.other);
    lemma_end_text();
    assert(scan_lines(l, f, s7, true) == Ok::<(Scan, int, bool), Fault>((s7, f + 1, true)));
    assert(s7 == header_scan(h, b));
    lemma_sets_of_rows(h.rows, b);
}

/// The lines of a header formatted from its fields are printable.
proof fn lemma_header_printable(h: Header)
    requires
        plain_fields(h),
    ensures
        forall|k: int|
            0 <= k < header_lines(h).len() ==> printable(#[trigger] header_lines(h)[k]),
{
    lemma_header_parts(h);
    assert forall|k: int| 0 <= k < header_lines(h).len() implies printable(
        #[trigger] header_lines(h)[k],
    ) by {
        lemma_line_printable(h, k);
    }
}

/// The fixed lines of a header are printable.
proof fn lemma_single_printable(h: Header)
    requires
        plain_fields(h),
    ensures
        printable(version_text(h)),
        h.program matches Some(p) ==> printable(program_text(p)),
        h.leap matches Some(leap) ==> printable(leap_text(leap)),
        printable(labelled(Seq::empty(), utf8("END OF HEADER"@))),
{
    lemma_version_reads(h);
    if let Some(p) = h.program {
        lemma_program_reads(p);
    }
    if let Some(leap) = h.leap {
        lemma_leap_reads(leap);
    }
    lemma_end_text();
}

/// The lines of a header's lists are printable.
proof fn lemma_listed_printable(h: Header)
    requires
        plain_fields(h),
    ensures
        forall|k: int|
            0 <= k < h.comments.len() ==> printable(
                labelled(truncated(#[trigger] h.comments[k], 60), utf8("COMMENT"@)),
            ),
        forall|k: int|
            0 <= k < h.rows.len() ==> printable(iono_row_text(#[trigger] h.rows[k], h.version)),
        forall|k: int|
            0 <= k < h.corrections.len() ==> printable(
                correction_text(#[trigger] h.corrections[k], h.version),
            ),
{
    assert forall|k: int| 0 <= k < h.comments.len() implies printable(
        labelled(truncated(#[trigger] h.comments[k], 60), utf8("COMMENT"@)),
    ) by {
        lemma_comment_reads(h.comments[k]);
    }
    assert forall|k: int| 0 <= k < h.rows.len() implies printable(
        iono_row_text(#[trigger] h.rows[k], h.version),
    ) by {
        lemma_row_reads(h.rows[k], h.version);
    }
    assert forall|k: int| 0 <= k < h.corrections.len() implies printable(
        correction_text(#[trigger] h.corrections[k], h.version),
    ) by {
        lemma_correction_reads(h.corrections[k], h.version);
    }
}

/// A line of a header formatted from its fields is printable.
proof fn lemma_line_printable(h: Header, k: int)
    requires
        plain_fields(h),
        0 <= k < header_lines(h).len(),
    ensures
        printable(header_lines(h)[k]),
{
    let l = header_lines(h);
    let (a, b, c, d, e, f) = header_places(h);
    lemma_header_parts(h);
    lemma_single_printable(h);
    lemma_listed_printable(h);
    if a <= k < b {
        let i = k - a;
        assert(l[a + i] == labelled(truncated(h.comments[i], 60), utf8("COMMENT"@)));
    } else if b <= k < c {
        let i = k - b;
        assert(l[b + i] == iono_row_text(h.rows[i], h.version));
    } else if c <= k < d {
        let i = k - c;
        assert(l[c + i] == correction_text(h.corrections[i], h.version));
    } else if e <= k < f {
        let i = k - e;
        assert(l[e + i] == h.other[i]);
    }
}

/// A file built in code reads back: where the header is written from its fields without loss and
/// each entry is written as one block that reads as what it holds, the text written reads as the
/// same header and the same entries, in order.
pub proof fn law_built_file_reads_back(file: File)
    requires
        plain_fields(file.header),
        file.header_text.len() == 0,
        forall|k: int|
            0 <= k < file.entries.len() ==> entry_reads_back(
                #[trigger] file.entries[k],
                file.header.version,
                file.header.file_type,
            ),
    ensures
        lines_written(file) matches Ok(lines) && (file_of(joined(lines, false, true)) matches Ok(
            again,
        ) && again.header == file.header && again.entries.len() == file.entries.len() && forall|
            k: int,
        |
            0 <= k < file.entries.len() ==> (#[trigger] again.entries[k]).block
                == file.entries[k].block),
{
    reveal(header_restated);
    law_header_reads_back(file.header);
    lemma_header_printable(file.header);
    lemma_header_parts(file.header);
    lemma_written_reads(header_lines(file.header), file.entries, file.header);
}

} // verus!

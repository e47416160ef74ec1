//! What is written reads back.

use vstd::arithmetic::div_mod::{lemma_fundamental_div_mod, lemma_fundamental_div_mod_converse};
use vstd::prelude::*;

use crate::decimal::{
    decimal_of, digit, digit_count, digit_run, digits_text, exponent_part, exponent_text,
    field_number, formatted, in_double_range, integer_text, lemma_digit_count, lemma_digit_run,
    lemma_digits_text, lemma_formatted, lemma_natural_bound, lemma_pow10_add, lemma_pow10_monotone,
    lemma_pow10_values, lemma_short_integer, lemma_strip_zeros, magnitude, natural, number, pow10,
    rounded_exponent, sign_byte, strip_zeros, zero, Decimal,
};
use crate::error::Fault;
use crate::fields::{
    int_columns, lemma_missing_none, missing, raw_at, read_epoch, record_epoch, scale_of,
    stated_value, value_at, week_and_tow, CivilSecondPolicy, Layout,
};
use crate::file::keplerian_system;
use crate::format::{char_count, left, zero_filled};
use crate::id::{
    satellite_of_token, system_letter, system_of_letter, token_of_satellite, GnssSatelliteId,
    GnssSystem,
};
use crate::instant::{clock_civil, date_of_day, nearest_second, CivilTime};
use crate::keplerian::{
    clock_time, gps_fit, keplerian_delays, keplerian_departures, keplerian_fit, keplerian_message,
    keplerian_record, keplerian_required, keplerian_stated, stated_elements,
};
use crate::lines::{
    civil_text, field_text, first_text, issue_field, keplerian_lines, orbit5_field2, orbit6_tail,
    orbit7_field2, orbit_text, RecordColumns,
};
use crate::marker::letter;
use crate::record::{positive, BroadcastRecord, NavMessage, NavVersion};
use crate::text::{
    blank, columns, drop_space, lemma_drop_space, lemma_skip_space, skip_space, slice_of, space_at,
    space_before, spaces, trim_of,
};
use crate::time::{
    day_number, lemma_date_unique, lemma_in_year, lemma_years_monotone, quectos_of, scaled,
    seconds_of, valid_date, week_epoch_day, GnssWeekTow, Seconds, TimeScale, QUECTOS_PER_SECOND,
    SECONDS_PER_WEEK,
};

verus! {

/// Whether a text is made of one-byte characters, none of them a control character.
pub open spec fn printable(b: Seq<u8>) -> bool {
    forall|i: int| 0 <= i < b.len() ==> 32 <= (#[trigger] b[i]) < 0x80
}

/// Whether a byte is a one-byte character and no white space.
pub open spec fn inked(b: u8) -> bool {
    b < 0x80 && !(9 <= b <= 13) && b != 32
}

/// The columns of a text of one-byte characters are its bytes.
pub proof fn lemma_ascii_columns(b: Seq<u8>, start: int, end: int)
    requires
        printable(b),
        0 <= start <= end <= b.len(),
    ensures
        columns(b, start, end) == b.subrange(start, end),
        slice_of(b, start, end) == b.subrange(start, end),
{
}

/// Blanks are skipped up to the first byte that is none.
pub proof fn lemma_skip_blanks(b: Seq<u8>, i: int, to: int)
    requires
        0 <= i <= to <= b.len(),
        forall|k: int| i <= k < to ==> b[k] == 32,
        to < b.len() ==> inked(b[to]),
    ensures
        skip_space(b, i) == to,
    decreases to - i,
{
    if i < to {
        assert(space_at(b, i) == 1);
        lemma_skip_blanks(b, i + 1, to);
    } else {
        assert(space_at(b, i) == 0);
    }
}

/// A text that ends in a byte that is no white space has none to drop.
pub proof fn lemma_nothing_dropped(b: Seq<u8>, start: int)
    requires
        0 <= start < b.len(),
        printable(b),
        inked(b.last()),
    ensures
        drop_space(b, start, b.len() as int) == b.len(),
{
    let n = b.len() as int;
    let t = b.subrange(0, n);
    assert(t =~= b);
    assert(b[n - 1] < 0x80);
    assert(space_at(t, n - 1) == 0);
    if n >= 2 {
        assert(b[n - 2] < 0x80);
    }
    if n >= 3 {
        assert(b[n - 3] < 0x80);
    }
    assert(space_before(b, n) == 0);
}

/// A text of blanks and then bytes with ink at both ends is trimmed to those bytes.
pub proof fn lemma_trim_left(b: Seq<u8>, from: int)
    requires
        printable(b),
        0 <= from < b.len(),
        forall|k: int| 0 <= k < from ==> b[k] == 32,
        inked(b[from]),
        inked(b.last()),
    ensures
        trim_of(b) == b.subrange(from, b.len() as int),
{
    lemma_skip_blanks(b, 0, from);
    lemma_nothing_dropped(b, from);
}

/// Blanks are blank.
pub proof fn lemma_spaces_blank(n: nat)
    ensures
        blank(spaces(n)),
        trim_of(spaces(n)) == Seq::<u8>::empty(),
{
    let b = spaces(n);
    lemma_skip_blanks(b, 0, n as int);
    assert(drop_space(b, n as int, n as int) == n);
    assert(trim_of(b) =~= Seq::<u8>::empty());
}

/// A text of blanks and then bytes with ink at both ends is not blank.
pub proof fn lemma_inked_not_blank(b: Seq<u8>, from: int)
    requires
        printable(b),
        0 <= from < b.len(),
        forall|k: int| 0 <= k < from ==> b[k] == 32,
        inked(b[from]),
        inked(b.last()),
    ensures
        !blank(b),
{
    lemma_trim_left(b, from);
}

/// The digits written of a number state it, less what the columns cut off.
pub proof fn lemma_natural_digits(n: nat, width: nat)
    ensures
        natural(digits_text(n, width)) == n % pow10(width),
    decreases width,
{
    if width == 0 {
        assert(pow10(0) == 1);
    } else {
        let w = (width - 1) as nat;
        lemma_natural_digits(n / 10, w);
        let t = digits_text(n, width);
        assert(t.drop_last() =~= digits_text(n / 10, w));
        assert(t.last() == (48 + n % 10) as u8);
        lemma_pow10_monotone(0, w);
        assert(pow10(width) == 10 * pow10(w));
        vstd::arithmetic::div_mod::lemma_mod_breakdown(n as int, 10, pow10(w) as int);
    }
}

/// A number below a power of ten is stated by that many digits.
pub proof fn lemma_natural_small(n: nat, width: nat)
    requires
        n < pow10(width),
    ensures
        natural(digits_text(n, width)) == n,
{
    lemma_natural_digits(n, width);
    vstd::arithmetic::div_mod::lemma_small_mod(n, pow10(width));
}

/// A run of digits ends where the digits do.
pub proof fn lemma_digit_run_to(b: Seq<u8>, i: int, to: int)
    requires
        0 <= i <= to <= b.len(),
        forall|k: int| i <= k < to ==> digit(#[trigger] b[k]),
        to < b.len() ==> !digit(b[to]),
    ensures
        digit_run(b, i) == to,
    decreases to - i,
{
    if i < to {
        assert(digit(b[i]));
        lemma_digit_run_to(b, i + 1, to);
    }
}

/// Zeros added to a number without trailing zeros are stripped again.
pub proof fn lemma_strip_added(digits: nat, exponent: int, k: nat)
    requires
        digits > 0,
        digits % 10 != 0,
    ensures
        strip_zeros(digits * pow10(k), exponent - k) == (digits, exponent),
    decreases k,
{
    if k == 0 {
        assert(pow10(0) == 1);
        assert(digits * 1 == digits);
    } else {
        let p = pow10((k - 1) as nat);
        assert(pow10(k) == 10 * p);
        assert(digits * (10 * p) == 10 * (digits * p)) by (nonlinear_arith);
        lemma_pow10_monotone(0, (k - 1) as nat);
        assert(digits * p > 0) by (nonlinear_arith)
            requires
                digits > 0,
                p >= 1,
        ;
        let n = digits * pow10(k);
        assert(n == 10 * (digits * p));
        assert(n % 10 == 0 && n / 10 == digits * p);
        lemma_strip_added(digits, exponent, (k - 1) as nat);
    }
}

/// Whether a number has at most thirteen digits, as a `D19.12` field states them.
pub open spec fn thirteen_digits(d: Decimal) -> bool {
    d.wf() && d.digits < pow10(13) && d.fits_d19_12()
}

/// The parts of a number in the `D19.12` form: sign, first digit, point, twelve decimals, and an
/// exponent of two digits.
proof fn lemma_d19_12_parts(d: Decimal) -> (m: nat)
    requires
        thirteen_digits(d),
    ensures
        m == (if d.digits == 0 {
            0
        } else {
            formatted(d.digits as nat, d.exponent as int, 13, false).0
        }),
        m < pow10(13),
        d.d19_12().len() == 19,
        ({
            let t = digits_text(m, 13);
            let x = rounded_exponent(d.digits as nat, d.exponent as int, 13);
            let b = d.d19_12();
            &&& t.len() == 13
            &&& b[0] == (if d.below_zero() { 45u8 } else { 32u8 })
            &&& b[1] == t[0]
            &&& b[2] == 46
            &&& forall|k: int| 0 <= k < 12 ==> b[3 + k] == #[trigger] t[1 + k]
            &&& b[15] == 101
            &&& b[16] == (if x < 0 { 45u8 } else { 43u8 })
            &&& b.subrange(17, 19) == digits_text(magnitude(x), 2)
        }),
{
    let m: nat = if d.digits == 0 {
        0
    } else {
        formatted(d.digits as nat, d.exponent as int, 13, false).0
    };
    lemma_pow10_values();
    if d.digits > 0 {
        lemma_formatted(d.digits as nat, d.exponent as int, 13, false);
    }
    let t = digits_text(m, 13);
    lemma_digits_text(m, 13);
    let x = rounded_exponent(d.digits as nat, d.exponent as int, 13);
    let mx = magnitude(x);
    lemma_digit_count(mx);
    if digit_count(mx) > 2 {
        lemma_pow10_monotone(2, (digit_count(mx) - 1) as nat);
    }
    let width: nat = if digit_count(mx) < 2 { 2 } else { digit_count(mx) };
    assert(width == 2);
    let e = digits_text(mx, 2);
    lemma_digits_text(mx, 2);
    let et = exponent_text(x);
    assert(et =~= seq![101u8, if x < 0 { 45u8 } else { 43u8 }] + e);
    let sci = t.subrange(0, 1) + seq![46u8] + t.subrange(1, 13) + et;
    let head = seq![if d.below_zero() { 45u8 } else { 32u8 }];
    let b = d.d19_12();
    assert(b =~= head + sci);
    assert(b.subrange(17, 19) =~= e);
    assert forall|k: int| 0 <= k < 12 implies b[3 + k] == #[trigger] t[1 + k] by {}
    m
}

/// A number of at most thirteen digits is read back from its `D19.12` field.
#[verifier::spinoff_prover]
#[verifier::rlimit(50)]
pub proof fn law_d19_12_reads_back(d: Decimal)
    requires
        thirteen_digits(d),
    ensures
        d.d19_12().len() == 19,
        printable(d.d19_12()),
        digit(d.d19_12()[18]),
        !blank(d.d19_12()),
        stated_value(d.d19_12()) == Some(d),
{
    reveal(stated_value);
    reveal(number);
    reveal(in_double_range);
    let m = lemma_d19_12_parts(d);
    let t = digits_text(m, 13);
    lemma_digits_text(m, 13);
    let x = rounded_exponent(d.digits as nat, d.exponent as int, 13);
    let e = digits_text(magnitude(x), 2);
    lemma_digits_text(magnitude(x), 2);
    let b = d.d19_12();
    assert forall|i: int| 0 <= i < b.len() implies 32 <= (#[trigger] b[i]) < 0x80 by {
        if 3 <= i < 15 {
            assert(b[3 + (i - 3)] == t[1 + (i - 3)]);
            assert(digit(t[i - 2]));
        } else if i == 1 {
            assert(digit(t[0]));
        } else if i >= 17 {
            assert(b.subrange(17, 19)[i - 17] == b[i]);
            assert(digit(e[i - 17]));
        }
    }
    let s: int = if d.below_zero() { 1 } else { 0 };
    let from = 1 - s;
    assert(digit(t[0]));
    assert(b.subrange(17, 19)[1] == b[18]);
    assert(digit(e[1]));
    lemma_trim_left(b, from);
    lemma_inked_not_blank(b, from);
    let n = trim_of(b);
    assert(n =~= b.subrange(from, 19));
    assert(n.len() == s + 18);
    assert(n[s] == t[0]);
    assert(n[s + 1] == 46);
    assert forall|k: int| s + 2 <= k < s + 14 implies digit(#[trigger] n[k]) by {
        assert(b[3 + (k - s - 2)] == t[1 + (k - s - 2)]);
        assert(n[k] == t[k - s - 1]);
        assert(digit(t[k - s - 1]));
    }
    assert(n[s + 14] == 101);
    assert(n[s + 15] == b[16]);
    assert forall|k: int| s + 16 <= k < s + 18 implies digit(#[trigger] n[k]) by {
        assert(n[k] == b[k + from]);
        assert(b.subrange(17, 19)[k - s - 16] == b[k + from]);
        assert(digit(e[k - s - 16]));
    }
    assert(digit(n[s]));
    lemma_digit_run_to(n, s, s + 1);
    lemma_digit_run_to(n, s + 2, s + 14);
    lemma_digit_run_to(n, s + 16, s + 18);
    let whole = n.subrange(s, s + 1) + n.subrange(s + 2, s + 14);
    assert(whole =~= t) by {
        assert forall|k: int| 0 <= k < 13 implies whole[k] == t[k] by {
            if k > 0 {
                assert(whole[k] == n[s + 1 + k]);
                assert(b[3 + (k - 1)] == t[1 + (k - 1)]);
            }
        }
    }
    assert(n.subrange(s + 16, s + 18) =~= e);
    lemma_natural_small(m, 13);
    lemma_pow10_values();
    lemma_natural_small(magnitude(x), 2);
    assert(exponent_part(n, s + 14) == Some(x)) by {
        assert(n[s + 15] == 45 || n[s + 15] == 43);
    }
    if d.digits == 0 {
        lemma_strip_zeros(0, x - 12);
        assert(d == zero());
    } else {
        let c = digit_count(d.digits as nat);
        lemma_digit_count(d.digits as nat);
        if c > 13 {
            lemma_pow10_monotone(13, (c - 1) as nat);
        }
        lemma_formatted(d.digits as nat, d.exponent as int, 13, false);
        lemma_strip_added(d.digits as nat, d.exponent as int, (13 - c) as nat);
        assert(x - 12 == d.exponent - (13 - c));
    }
    assert(number(n) == Some(d));
}

/// A coordinate in meters is read back from its field in kilometers.
pub proof fn law_kilometers_reads_back(d: Decimal)
    requires
        thirteen_digits(d),
        d.digits > 0,
        -400 <= d.exponent - 3,
        (Decimal { exponent: (d.exponent - 3) as i32, ..d }).fits_d19_12(),
    ensures
        stated_value(d.kilometers_d19_12()) == Some(
            Decimal { exponent: (d.exponent - 3) as i32, ..d },
        ),
{
    let moved = Decimal { exponent: (d.exponent - 3) as i32, ..d };
    law_d19_12_reads_back(moved);
    lemma_formatted(d.digits as nat, d.exponent - 3, 13, true);
    lemma_formatted(d.digits as nat, d.exponent - 3, 13, false);
    assert(moved.d19_12() =~= d.kilometers_d19_12());
}

/// A number of a fixed count of digits reads as an integer.
pub proof fn lemma_int_reads(n: nat, width: nat)
    requires
        1 <= width <= 18,
        n < pow10(width),
    ensures
        digits_text(n, width).len() == width,
        printable(digits_text(n, width)),
        integer_text(trim_of(digits_text(n, width))) == Some(n as int),
{
    reveal(integer_text);
    let b = digits_text(n, width);
    lemma_digits_text(n, width);
    assert forall|i: int| 0 <= i < b.len() implies 32 <= (#[trigger] b[i]) < 0x80 by {
        assert(digit(b[i]));
    }
    assert(digit(b[0]));
    assert(digit(b[width - 1]));
    lemma_trim_left(b, 0);
    assert(trim_of(b) =~= b);
    lemma_digit_run_to(b, 0, width as int);
    lemma_natural_small(n, width);
    assert(b.subrange(0, width as int) =~= b);
    lemma_pow10_values();
    lemma_pow10_monotone(width, 18);
}

/// An integer of at most `width` digits fills its columns.
pub proof fn lemma_zero_filled(n: nat, width: nat)
    requires
        n < pow10(width),
        width >= 1,
    ensures
        zero_filled(n as int, width) == digits_text(n, width),
{
    lemma_digit_count(n);
    if digit_count(n) > width {
        lemma_pow10_monotone(width, (digit_count(n) - 1) as nat);
        lemma_pow10_values();
    }
    assert(zero_filled(n as int, width) =~= digits_text(n, width));
}

/// Stripped zeros are kept in the exponent.
pub proof fn lemma_strip_value(n: nat, e: nat)
    requires
        n > 0,
    ensures
        strip_zeros(n, e as int).1 >= e,
        strip_zeros(n, e as int).0 * pow10((strip_zeros(n, e as int).1 - e) as nat) == n,
    decreases n,
{
    if n % 10 == 0 {
        lemma_strip_value(n / 10, e + 1);
        lemma_strip_zeros(n / 10, (e + 1) as int);
        let (d, x) = strip_zeros(n / 10, (e + 1) as int);
        let p = pow10((x - e - 1) as nat);
        assert(pow10((x - e) as nat) == 10 * p);
        assert(d * (10 * p) == 10 * (d * p)) by (nonlinear_arith);
    } else {
        assert(pow10(0) == 1);
        assert(n * 1 == n);
    }
}

/// An integer number of seconds is that time.
pub proof fn lemma_integer_seconds(n: int)
    requires
        -1000000 < n < 1000000,
    ensures
        seconds_of(decimal_of(n)) == (Seconds { whole: n as i64, quectos: 0 }),
{
    let q = QUECTOS_PER_SECOND as int;
    lemma_pow10_values();
    let d = decimal_of(n);
    let a = magnitude(n);
    if n == 0 {
        assert(scaled(0, 30) == 0) by {
            assert(0 * pow10(30) == 0);
        }
        assert(quectos_of(d) == 0);
        assert(0int / q == 0 && 0int % q == 0);
    } else {
        lemma_strip_value(a, 0);
        let (m, e) = strip_zeros(a, 0);
        lemma_strip_zeros(a, 0);
        lemma_pow10_add(e as nat, 30);
        assert(e <= 6) by {
            if e > 6 {
                lemma_pow10_monotone(7, e as nat);
                assert(pow10(7) == 10 * pow10(6));
                assert(m * pow10(e as nat) >= pow10(e as nat)) by (nonlinear_arith)
                    requires
                        m >= 1,
                        pow10(e as nat) >= 0,
                ;
            }
        }
        assert(m * (pow10(e as nat) * pow10(30)) == a * pow10(30)) by (nonlinear_arith)
            requires
                m * pow10(e as nat) == a,
        ;
        assert(quectos_of(d) == n * q) by (nonlinear_arith)
            requires
                n < 0 ==> quectos_of(d) == -(a * q) && a == -n,
                n > 0 ==> quectos_of(d) == a * q && a == n,
                n != 0,
        ;
        lemma_fundamental_div_mod_converse(n * q, q, n, 0);
    }
}

/// Whole seconds below a minute in 10^-30 s are that time.
pub proof fn lemma_quecto_seconds(n: nat)
    requires
        n < 60,
    ensures
        seconds_of(
            Decimal { negative: false, digits: (n * QUECTOS_PER_SECOND) as u128, exponent: (-30) as i32 },
        ) == (Seconds { whole: n as i64, quectos: 0 }),
{
    let q = QUECTOS_PER_SECOND as int;
    let d = Decimal {
        negative: false,
        digits: (n * QUECTOS_PER_SECOND) as u128,
        exponent: (-30) as i32,
    };
    assert(pow10(0) == 1);
    assert(n * q <= 60 * q);
    assert(scaled(d.digits as nat, 0) == d.digits) by {
        assert(d.digits * 1 == d.digits);
    }
    assert(quectos_of(d) == n * q);
    lemma_fundamental_div_mod_converse(n * q, q, n as int, 0);
}

/// An integer is written by one number only.
pub proof fn lemma_integer_unique(d: Decimal, n: int)
    requires
        d.wf(),
        d.integer() == Some(n),
        -pow10(19) < n < pow10(19),
    ensures
        d == decimal_of(n),
{
    lemma_pow10_values();
    if d.digits == 0 {
        assert(d == zero());
        assert(pow10(0) == 1);
        assert(d.signed_digits() * pow10(0) == 0);
    } else if d.exponent >= 0 {
        let p = pow10(d.exponent as nat);
        lemma_pow10_monotone(0, d.exponent as nat);
        assert(d.digits * p > 0 && -(d.digits as int) * p == -(d.digits * p)) by (nonlinear_arith)
            requires
                d.digits > 0,
                p >= 1,
        ;
        lemma_strip_added(d.digits as nat, d.exponent as int, d.exponent as nat);
        assert(magnitude(n) == d.digits * p);
        assert(strip_zeros(magnitude(n), 0) == (d.digits as nat, d.exponent as int));
    } else {
        let k = (-d.exponent) as nat;
        assert(pow10(k) == 10 * pow10((k - 1) as nat));
        lemma_pow10_monotone(0, (k - 1) as nat);
        lemma_fundamental_div_mod(d.digits as int, pow10(k) as int);
        let p = pow10((k - 1) as nat);
        let q = d.digits as int / pow10(k) as int;
        assert(d.digits == 10 * (p * q)) by (nonlinear_arith)
            requires
                d.digits == (10 * p) * q,
        ;
        assert(d.digits % 10 == 0);
    }
}

/// Whether an optional value has at most thirteen digits.
pub open spec fn field_ok(d: Option<Decimal>) -> bool {
    d matches Some(d) ==> thirteen_digits(d)
}

/// A value is read back from its field, and no value from a blank one.
pub proof fn lemma_field_text(d: Option<Decimal>)
    requires
        field_ok(d),
    ensures
        field_text(d).len() == 19,
        printable(field_text(d)),
        stated_value(field_text(d)) == d,
        blank(field_text(d)) == (d is None),
{
    match d {
        Some(d) => {
            law_d19_12_reads_back(d);
        },
        None => {
            reveal(stated_value);
            reveal(number);
            lemma_spaces_blank(19);
        },
    }
}

/// The fields of an orbit line.
pub proof fn lemma_orbit_text(
    a: Option<Decimal>,
    b: Option<Decimal>,
    c: Option<Decimal>,
    d: Option<Decimal>,
)
    requires
        field_ok(a),
        field_ok(b),
        field_ok(c),
        field_ok(d),
    ensures
        orbit_text(4, a, b, c, d).len() == 80,
        printable(orbit_text(4, a, b, c, d)),
        columns(orbit_text(4, a, b, c, d), 4, 23) == field_text(a),
        columns(orbit_text(4, a, b, c, d), 23, 42) == field_text(b),
        columns(orbit_text(4, a, b, c, d), 42, 61) == field_text(c),
        columns(orbit_text(4, a, b, c, d), 61, 80) == field_text(d),
        forall|i: int| 0 <= i < 4 ==> orbit_text(4, a, b, c, d)[i] == 32,
{
    reveal(orbit_text);
    lemma_field_text(a);
    lemma_field_text(b);
    lemma_field_text(c);
    lemma_field_text(d);
    let line = orbit_text(4, a, b, c, d);
    assert(line =~= spaces(4) + field_text(a) + field_text(b) + field_text(c) + field_text(d));
    assert forall|i: int| 0 <= i < line.len() implies 32 <= (#[trigger] line[i]) < 0x80 by {
        if 4 <= i < 23 {
            assert(line[i] == field_text(a)[i - 4]);
        } else if 23 <= i < 42 {
            assert(line[i] == field_text(b)[i - 23]);
        } else if 42 <= i < 61 {
            assert(line[i] == field_text(c)[i - 42]);
        } else if 61 <= i {
            assert(line[i] == field_text(d)[i - 61]);
        }
    }
    lemma_ascii_columns(line, 4, 23);
    lemma_ascii_columns(line, 23, 42);
    lemma_ascii_columns(line, 42, 61);
    lemma_ascii_columns(line, 61, 80);
    assert(line.subrange(4, 23) =~= field_text(a));
    assert(line.subrange(23, 42) =~= field_text(b));
    assert(line.subrange(42, 61) =~= field_text(c));
    assert(line.subrange(61, 80) =~= field_text(d));
}

/// Whether a civil time is written in nineteen columns: a four-digit year, and whole seconds.
pub open spec fn plain_civil(c: CivilTime, second: nat) -> bool {
    &&& 0 <= c.year <= 9999
    &&& c.month <= 99
    &&& c.day <= 99
    &&& c.hour <= 99
    &&& c.minute <= 99
    &&& seconds_of(c.second).whole == second
    &&& second <= 99
}

/// A satellite's token.
pub proof fn lemma_token(sat: GnssSatelliteId)
    requires
        sat.wf(),
    ensures
        token_of_satellite(sat).len() == 3,
        printable(token_of_satellite(sat)),
        letter(token_of_satellite(sat)[0]),
        digit(token_of_satellite(sat)[1]),
        digit(token_of_satellite(sat)[2]),
        trim_of(token_of_satellite(sat)) == token_of_satellite(sat),
        satellite_of_token(token_of_satellite(sat)) == Some(sat),
        system_of_letter(token_of_satellite(sat)[0]) == Some(sat.system),
        char_count(token_of_satellite(sat)) == 3,
{
    let t = token_of_satellite(sat);
    let number = digits_text(sat.prn as nat, 2);
    lemma_digits_text(sat.prn as nat, 2);
    lemma_pow10_values();
    assert(digit(number[0]) && digit(number[1]));
    assert(t =~= seq![system_letter(sat.system), number[0], number[1]]);
    lemma_trim_left(t, 0);
    assert(trim_of(t) =~= t);
    assert(t.subrange(1, 3) =~= number);
    lemma_trim_left(number, 0);
    assert(trim_of(number) =~= number);
    lemma_natural_small(sat.prn as nat, 2);
    reveal_with_fuel(char_count, 4);
    assert(t.drop_last().drop_last().drop_last() =~= Seq::empty());
}

/// The integers of a civil time are read back from its columns.
pub proof fn lemma_civil_text(c: CivilTime, second: nat)
    requires
        plain_civil(c, second),
    ensures
        civil_text(c).len() == 19,
        printable(civil_text(c)),
        ({
            let t = civil_text(c);
            &&& t.subrange(0, 4) == digits_text(c.year as nat, 4)
            &&& t.subrange(5, 7) == digits_text(c.month as nat, 2)
            &&& t.subrange(8, 10) == digits_text(c.day as nat, 2)
            &&& t.subrange(11, 13) == digits_text(c.hour as nat, 2)
            &&& t.subrange(14, 16) == digits_text(c.minute as nat, 2)
            &&& t.subrange(17, 19) == digits_text(second, 2)
        }),
{
    lemma_pow10_values();
    lemma_zero_filled(c.year as nat, 4);
    lemma_zero_filled(c.month as nat, 2);
    lemma_zero_filled(c.day as nat, 2);
    lemma_zero_filled(c.hour as nat, 2);
    lemma_zero_filled(c.minute as nat, 2);
    lemma_zero_filled(second, 2);
    lemma_int_reads(c.year as nat, 4);
    lemma_int_reads(c.month as nat, 2);
    lemma_int_reads(c.day as nat, 2);
    lemma_int_reads(c.hour as nat, 2);
    lemma_int_reads(c.minute as nat, 2);
    lemma_int_reads(second, 2);
    let (y, mo, d, h, mi, s) = (
        digits_text(c.year as nat, 4),
        digits_text(c.month as nat, 2),
        digits_text(c.day as nat, 2),
        digits_text(c.hour as nat, 2),
        digits_text(c.minute as nat, 2),
        digits_text(second, 2),
    );
    let t = civil_text(c);
    assert(t =~= y + spaces(1) + mo + spaces(1) + d + spaces(1) + h + spaces(1) + mi + spaces(1)
        + s);
    assert(t.subrange(0, 4) =~= y);
    assert(t.subrange(5, 7) =~= mo);
    assert(t.subrange(8, 10) =~= d);
    assert(t.subrange(11, 13) =~= h);
    assert(t.subrange(14, 16) =~= mi);
    assert(t.subrange(17, 19) =~= s);
    assert forall|i: int| 0 <= i < t.len() implies 32 <= (#[trigger] t[i]) < 0x80 by {
        if i < 4 {
            assert(t[i] == y[i]);
        } else if 5 <= i < 7 {
            assert(t[i] == mo[i - 5]);
        } else if 8 <= i < 10 {
            assert(t[i] == d[i - 8]);
        } else if 11 <= i < 13 {
            assert(t[i] == h[i - 11]);
        } else if 14 <= i < 16 {
            assert(t[i] == mi[i - 14]);
        } else if 17 <= i {
            assert(t[i] == s[i - 17]);
        }
    }
}

/// The first line of a record in the version 3 columns: its satellite, its epoch and its values.
#[verifier::spinoff_prover]
#[verifier::rlimit(50)]
pub proof fn lemma_first_text(
    sat: GnssSatelliteId,
    c: CivilTime,
    second: nat,
    x: Decimal,
    y: Decimal,
    z: Option<Decimal>,
)
    requires
        sat.wf(),
        plain_civil(c, second),
        thirteen_digits(x),
        thirteen_digits(y),
        field_ok(z),
    ensures
        ({
            let line = first_text(RecordColumns::V3, sat, c, x, y, z);
            &&& line.len() == 80
            &&& printable(line)
            &&& line.subrange(0, 3) == token_of_satellite(sat)
            &&& int_columns(line, 4, 8) == Some(c.year as int)
            &&& int_columns(line, 9, 11) == Some(c.month as int)
            &&& int_columns(line, 12, 14) == Some(c.day as int)
            &&& int_columns(line, 15, 17) == Some(c.hour as int)
            &&& int_columns(line, 18, 20) == Some(c.minute as int)
            &&& int_columns(line, 21, 23) == Some(second as int)
            &&& columns(line, 23, 42) == field_text(Some(x))
            &&& columns(line, 42, 61) == field_text(Some(y))
            &&& columns(line, 61, 80) == field_text(z)
        }),
{
    reveal(first_text);
    lemma_token(sat);
    lemma_civil_text(c, second);
    lemma_field_text(Some(x));
    lemma_field_text(Some(y));
    lemma_field_text(z);
    let token = token_of_satellite(sat);
    let civil = civil_text(c);
    let line = first_text(RecordColumns::V3, sat, c, x, y, z);
    assert(left(token, 3) =~= token);
    assert(line =~= token + spaces(1) + civil + field_text(Some(x)) + field_text(Some(y))
        + field_text(z));
    assert forall|i: int| 0 <= i < line.len() implies 32 <= (#[trigger] line[i]) < 0x80 by {
        if i < 3 {
            assert(line[i] == token[i]);
        } else if 4 <= i < 23 {
            assert(line[i] == civil[i - 4]);
        } else if 23 <= i < 42 {
            assert(line[i] == field_text(Some(x))[i - 23]);
        } else if 42 <= i < 61 {
            assert(line[i] == field_text(Some(y))[i - 42]);
        } else if 61 <= i {
            assert(line[i] == field_text(z)[i - 61]);
        }
    }
    lemma_ascii_columns(line, 4, 8);
    lemma_ascii_columns(line, 9, 11);
    lemma_ascii_columns(line, 12, 14);
    lemma_ascii_columns(line, 15, 17);
    lemma_ascii_columns(line, 18, 20);
    lemma_ascii_columns(line, 21, 23);
    lemma_ascii_columns(line, 23, 42);
    lemma_ascii_columns(line, 42, 61);
    lemma_ascii_columns(line, 61, 80);
    assert(line.subrange(0, 3) =~= token);
    assert(line.subrange(4, 8) =~= civil.subrange(0, 4));
    assert(line.subrange(9, 11) =~= civil.subrange(5, 7));
    assert(line.subrange(12, 14) =~= civil.subrange(8, 10));
    assert(line.subrange(15, 17) =~= civil.subrange(11, 13));
    assert(line.subrange(18, 20) =~= civil.subrange(14, 16));
    assert(line.subrange(21, 23) =~= civil.subrange(17, 19));
    assert(line.subrange(23, 42) =~= field_text(Some(x)));
    assert(line.subrange(42, 61) =~= field_text(Some(y)));
    assert(line.subrange(61, 80) =~= field_text(z));
    lemma_pow10_values();
    lemma_int_reads(c.year as nat, 4);
    lemma_int_reads(c.month as nat, 2);
    lemma_int_reads(c.day as nat, 2);
    lemma_int_reads(c.hour as nat, 2);
    lemma_int_reads(c.minute as nat, 2);
    lemma_int_reads(second, 2);
}

/// The value the writer states in the field `index` of a legacy record.
pub open spec fn written_field(record: BroadcastRecord, version: NavVersion, index: int) -> Option<
    Decimal,
> {
    let e = record.elements;
    if index == 0 {
        Some(record.clock.af0)
    } else if index == 1 {
        Some(record.clock.af1)
    } else if index == 2 {
        Some(record.clock.af2)
    } else if index == 3 {
        issue_field(record.issue_of_data)
    } else if index == 4 {
        Some(e.crs)
    } else if index == 5 {
        Some(e.delta_n)
    } else if index == 6 {
        Some(e.m0)
    } else if index == 7 {
        Some(e.cuc)
    } else if index == 8 {
        Some(e.e)
    } else if index == 9 {
        Some(e.cus)
    } else if index == 10 {
        Some(e.sqrt_a)
    } else if index == 11 {
        Some(e.toe_sow)
    } else if index == 12 {
        Some(e.cic)
    } else if index == 13 {
        Some(e.omega0)
    } else if index == 14 {
        Some(e.cis)
    } else if index == 15 {
        Some(e.i0)
    } else if index == 16 {
        Some(e.crc)
    } else if index == 17 {
        Some(e.omega)
    } else if index == 18 {
        Some(e.omega_dot)
    } else if index == 19 {
        Some(e.idot)
    } else if index == 20 {
        orbit5_field2(record, version)
    } else if index == 21 {
        Some(decimal_of(record.week as int))
    } else if index == 22 {
        record.stated.orbit5_field4
    } else if index == 23 {
        record.sv_accuracy_m
    } else if index == 24 {
        Some(record.sv_health)
    } else if index == 25 {
        orbit6_tail(record).0
    } else if index == 26 {
        orbit6_tail(record).1
    } else if index == 27 {
        record.stated.transmission_time_sow
    } else if index == 28 {
        orbit7_field2(record, version)
    } else if index == 29 {
        record.stated.orbit7_field3
    } else {
        record.stated.orbit7_field4
    }
}

/// Whether the values of a legacy record are written in their columns.
pub open spec fn fields_ok(record: BroadcastRecord, version: NavVersion) -> bool {
    forall|i: int| 0 <= i < 31 ==> field_ok(#[trigger] written_field(record, version, i))
}

/// The orbit line `k` of a legacy record states four fields.
#[verifier::spinoff_prover]
#[verifier::rlimit(50)]
proof fn lemma_orbit_line_of(record: BroadcastRecord, version: NavVersion, k: int)
    requires
        1 <= k < 8,
    ensures
        keplerian_lines(record, version, RecordColumns::V3)[k] == orbit_text(
            4,
            written_field(record, version, 4 * k - 1),
            written_field(record, version, 4 * k),
            written_field(record, version, 4 * k + 1),
            written_field(record, version, 4 * k + 2),
        ),
{
    if k == 1 {
    } else if k == 2 {
    } else if k == 3 {
    } else if k == 4 {
    } else if k == 5 {
    } else if k == 6 {
    } else {
        assert(k == 7);
    }
}

/// The fields of an orbit line of a legacy record.
#[verifier::spinoff_prover]
#[verifier::rlimit(50)]
proof fn lemma_orbit_fields_of(record: BroadcastRecord, version: NavVersion, k: int)
    requires
        1 <= k < 8,
        fields_ok(record, version),
    ensures
        ({
            let lines = keplerian_lines(record, version, RecordColumns::V3);
            &&& printable(lines[k])
            &&& lines[k].len() == 80
            &&& forall|j: int| 0 <= j < 4 ==> #[trigger] lines[k][j] == 32
            &&& forall|i: int|
                4 * k - 1 <= i < 4 * k + 3 ==> #[trigger] raw_at(lines, Layout::V3, i)
                    == field_text(written_field(record, version, i))
        }),
{
    reveal(raw_at);
    let lines = keplerian_lines(record, version, RecordColumns::V3);
    let a = written_field(record, version, 4 * k - 1);
    let b = written_field(record, version, 4 * k);
    let c = written_field(record, version, 4 * k + 1);
    let d = written_field(record, version, 4 * k + 2);
    lemma_orbit_line_of(record, version, k);
    lemma_orbit_text(a, b, c, d);
    assert forall|i: int| 4 * k - 1 <= i < 4 * k + 3 implies #[trigger] raw_at(
        lines,
        Layout::V3,
        i,
    ) == field_text(written_field(record, version, i)) by {
        lemma_fundamental_div_mod_converse(i - 3, 4, k - 1, i - (4 * k - 1));
        assert(Layout::V3.field_at(i) == (k, 4 + 19 * (i - (4 * k - 1))));
    }
}

/// The fields of the lines a legacy record is written in.
#[verifier::spinoff_prover]
#[verifier::rlimit(50)]
proof fn lemma_keplerian_fields(record: BroadcastRecord, version: NavVersion, second: nat)
    requires
        record.satellite_id.wf(),
        plain_civil(clock_civil(record.toc), second),
        fields_ok(record, version),
    ensures
        ({
            let lines = keplerian_lines(record, version, RecordColumns::V3);
            &&& lines.len() == 8
            &&& forall|i: int|
                0 <= i < 31 ==> #[trigger] raw_at(lines, Layout::V3, i) == field_text(
                    written_field(record, version, i),
                )
            &&& lines[0] == first_text(
                RecordColumns::V3,
                record.satellite_id,
                clock_civil(record.toc),
                record.clock.af0,
                record.clock.af1,
                Some(record.clock.af2),
            )
        }),
{
    let lines = keplerian_lines(record, version, RecordColumns::V3);
    assert(field_ok(written_field(record, version, 0)));
    assert(field_ok(written_field(record, version, 1)));
    assert(field_ok(written_field(record, version, 2)));
    lemma_first_text(
        record.satellite_id,
        clock_civil(record.toc),
        second,
        record.clock.af0,
        record.clock.af1,
        Some(record.clock.af2),
    );
    assert forall|i: int| 0 <= i < 31 implies #[trigger] raw_at(lines, Layout::V3, i) == field_text(
        written_field(record, version, i),
    ) by {
        if i >= 3 {
            lemma_orbit_fields_of(record, version, 1 + (i - 3) / 4);
        } else {
            reveal(raw_at);
        }
    }
}

/// An epoch that is read is a date and a time of day.
pub proof fn lemma_epoch_read(line: Seq<u8>, layout: Layout)
    ensures
        record_epoch(line, layout, CivilSecondPolicy::Continuous) matches Some(e) ==> valid_date(
            e.year as int,
            e.month as int,
            e.day as int,
        ) && e.hour <= 23 && e.minute <= 59 && 0 <= seconds_of(e.second).whole < 60,
{
    reveal(record_epoch);
}

/// A whole number of seconds is the nearest second to itself.
proof fn lemma_nearest_whole(s: Seconds)
    requires
        s.quectos == 0,
        s.whole >= 0,
    ensures
        nearest_second(s) == s.whole,
{
    let q = QUECTOS_PER_SECOND as int;
    let w = s.whole as int;
    assert(w * q >= 0) by (nonlinear_arith)
        requires
            w >= 0,
            q > 0,
    ;
    assert(2 * (w * q) + q == w * (2 * q) + q) by (nonlinear_arith);
    lemma_fundamental_div_mod_converse(2 * (w * q) + q, 2 * q, w, q);
}

/// A clock reference time read from a line, to whole seconds, is written as the date and time of
/// day it was read from, and reads back as the same reference time.
#[verifier::spinoff_prover]
#[verifier::rlimit(50)]
pub proof fn lemma_clock_reads_back(
    line: Seq<u8>,
    layout: Layout,
    scale: TimeScale,
    week: u32,
    tow: Seconds,
) -> (second: nat)
    requires
        clock_time(line, layout, scale) == Some((week, tow)),
        tow.quectos == 0,
        clock_civil(GnssWeekTow { system: scale, week, tow_s: tow }).year <= 9999,
    ensures
        0 <= tow.whole < SECONDS_PER_WEEK,
        plain_civil(clock_civil(GnssWeekTow { system: scale, week, tow_s: tow }), second),
        ({
            let c = clock_civil(GnssWeekTow { system: scale, week, tow_s: tow });
            read_epoch(
                Some(c.year as int),
                Some(c.month as int),
                Some(c.day as int),
                Some(c.hour as int),
                Some(c.minute as int),
                Some(decimal_of(second as int)),
                CivilSecondPolicy::Continuous,
            ) matches Some(e) && week_and_tow(e, scale) == Some((week, tow))
        }),
{
    reveal(week_and_tow);
    lemma_epoch_read(line, layout);
    let e = record_epoch(line, layout, CivilSecondPolicy::Continuous)->0;
    let s = seconds_of(e.second).whole as int;
    let toc = GnssWeekTow { system: scale, week, tow_s: tow };
    let c = clock_civil(toc);
    let epoch_day = week_epoch_day(scale);
    let number = day_number(e.year as int, e.month as int, e.day as int);
    let days = number - epoch_day;
    lemma_fundamental_div_mod(days, 7);
    let rest = e.hour * 3600 + e.minute * 60 + s;
    assert(0 <= rest < 86400);
    lemma_nearest_whole(tow);
    lemma_fundamental_div_mod_converse(tow.whole as int, 86400, days % 7, rest);
    assert(tow.whole as int / 86400 == days % 7);
    assert(epoch_day + week * 7 + tow.whole as int / 86400 == number);
    let date = (e.year as int, e.month as int, e.day as int);
    assert(valid_date(date.0, date.1, date.2) && day_number(date.0, date.1, date.2) == number);
    let chosen = date_of_day(number);
    lemma_date_unique(chosen.0, chosen.1, chosen.2, date.0, date.1, date.2);
    assert(chosen == date);
    lemma_in_year(date.0, date.1, date.2);
    if date.0 < 0 {
        lemma_years_monotone(date.0 + 1, 0);
    }
    assert(e.month <= 12 && e.day <= 31);
    assert(rest / 3600 == e.hour && rest % 3600 / 60 == e.minute && rest % 60 == s);
    lemma_quecto_seconds(s as nat);
    lemma_integer_seconds(s);
    s as nat
}

/// Fields that are all the same are missing alike.
pub proof fn lemma_missing_same(
    a: Seq<Seq<u8>>,
    la: Layout,
    b: Seq<Seq<u8>>,
    lb: Layout,
    required: Seq<(usize, &'static str)>,
)
    requires
        forall|k: int|
            0 <= k < required.len() ==> value_at(a, la, (#[trigger] required[k]).0 as int)
                == value_at(b, lb, required[k].0 as int),
    ensures
        missing(a, la, required) == missing(b, lb, required),
    decreases required.len(),
{
    if required.len() > 0 {
        let rest = required.drop_first();
        assert forall|k: int| 0 <= k < rest.len() implies value_at(
            a,
            la,
            (#[trigger] rest[k]).0 as int,
        ) == value_at(b, lb, rest[k].0 as int) by {
            assert(rest[k] == required[k + 1]);
        }
        assert(value_at(a, la, required[0].0 as int) == value_at(b, lb, required[0].0 as int));
        lemma_missing_same(a, la, b, lb, rest);
    }
}

/// A value read from a field of at most nineteen columns is a number in range.
pub proof fn lemma_stated_wf(raw: Seq<u8>)
    requires
        raw.len() <= 19,
    ensures
        stated_value(raw) matches Some(d) ==> d.wf() && d.fits_d19_12(),
{
    reveal(stated_value);
    reveal(number);
    reveal(in_double_range);
    if let Some(d) = field_number(raw) {
        let b = trim_of(raw);
        lemma_skip_space(raw, 0);
        lemma_drop_space(raw, skip_space(raw, 0), raw.len() as int);
        let n = b.len() as int;
        let s: int = if n > 0 && sign_byte(b[0]) { 1 } else { 0 };
        lemma_digit_run(b, s);
        let i = digit_run(b, s);
        let f = if i < n && b[i] == 46 { i + 1 } else { i };
        lemma_digit_run(b, f);
        let j = digit_run(b, f);
        let digits = b.subrange(s, i) + b.subrange(f, j);
        assert forall|k: int| 0 <= k < digits.len() implies digit(#[trigger] digits[k]) by {
            if k < i - s {
                assert(digits[k] == b[s + k]);
            } else {
                assert(digits[k] == b[f + (k - (i - s))]);
            }
        }
        lemma_natural_bound(digits);
        lemma_pow10_monotone(digits.len(), 19);
        let power = exponent_part(b, j)->0;
        lemma_strip_zeros(natural(digits), power + (f - j));
        let (m, e) = strip_zeros(natural(digits), power + (f - j));
        lemma_pow10_values();
        lemma_digit_count(m);
        if digit_count(m) > 19 {
            lemma_pow10_monotone(19, (digit_count(m) - 1) as nat);
        }
    }
}

/// The text of a field has at most nineteen bytes.
pub proof fn lemma_raw_short(lines: Seq<Seq<u8>>, layout: Layout, index: int)
    ensures
        raw_at(lines, layout, index).len() <= 19,
{
    reveal(raw_at);
}

/// Whether the values of a record's lines have at most thirteen digits.
pub open spec fn short_fields(lines: Seq<Seq<u8>>, layout: Layout) -> bool {
    forall|i: int|
        0 <= i < 31 ==> (#[trigger] value_at(lines, layout, i) matches Some(d) ==> d.digits
            < pow10(13))
}

/// A blank field states no value.
pub proof fn lemma_blank_unstated(raw: Seq<u8>)
    requires
        blank(raw),
    ensures
        stated_value(raw) is None,
{
    reveal(stated_value);
    reveal(number);
    assert(trim_of(raw) =~= Seq::empty());
}

/// What the writer states of a record read without a departure is what was read: each field of a
/// record that the version holds.
#[verifier::spinoff_prover]
#[verifier::rlimit(50)]
proof fn lemma_written_is_read(
    lines: Seq<Seq<u8>>,
    layout: Layout,
    version0: NavVersion,
    named0: Option<NavMessage>,
    version: NavVersion,
    named: Option<NavMessage>,
    sat: GnssSatelliteId,
    token: Seq<u8>,
    record: BroadcastRecord,
    i: int,
)
    requires
        keplerian_record(lines, sat, token, named0, version0, layout) == Ok::<
            (BroadcastRecord, Seq<Fault>),
            Fault,
        >((record, Seq::empty())),
        keplerian_system(sat.system),
        fit_means_same(sat.system, value_at(lines, layout, 28), version0, version),
        keplerian_message(sat, named, value_at(lines, layout, 20)) == Some((record.message, false)),
        sat.system == GnssSystem::Galileo ==> value_at(lines, layout, 20) is Some,
        version.major < 4 ==> named is None,
        0 <= i < 31,
        value_at(lines, layout, i) matches Some(d) ==> d.digits < pow10(13),
    ensures
        written_field(record, version, i) == value_at(lines, layout, i),
{
    reveal(keplerian_record);
    let v = |k: int| value_at(lines, layout, k);
    lemma_nothing_missing(lines, layout);
    let read = keplerian_message(sat, named0, value_at(lines, layout, 20))->0;
    let none = keplerian_departures(lines, layout, sat.system, version0, token, read.1);
    assert(none.len() == 0);
    if i == 3 {
        let d = v(3)->0;
        lemma_raw_short(lines, layout, 3);
        lemma_stated_wf(raw_at(lines, layout, 3));
        lemma_pow10_values();
        lemma_short_integer(d);
        lemma_integer_unique(d, d.integer()->0);
    } else if i == 21 {
        let d = v(21)->0;
        lemma_raw_short(lines, layout, 21);
        lemma_stated_wf(raw_at(lines, layout, 21));
        lemma_pow10_values();
        lemma_short_integer(d);
        lemma_integer_unique(d, d.integer()->0);
    } else if i == 25 || i == 26 {
        if blank(raw_at(lines, layout, i)) {
            lemma_blank_unstated(raw_at(lines, layout, i));
        }
    } else if i == 28 {
        if blank(raw_at(lines, layout, 28)) {
            lemma_blank_unstated(raw_at(lines, layout, 28));
        }
    }
}

/// The required fields of a record that is read are stated.
proof fn lemma_nothing_missing(lines: Seq<Seq<u8>>, layout: Layout)
    ensures
        missing(lines, layout, keplerian_required()) is None ==> forall|i: int|
            (0 <= i <= 2 || 4 <= i <= 19 || i == 21) ==> (#[trigger] value_at(lines, layout, i)) is Some,
{
    if missing(lines, layout, keplerian_required()) is None {
        lemma_all_required(lines, layout);
    }
}

/// Each of the fields required is stated where none is missing.
proof fn lemma_all_required(lines: Seq<Seq<u8>>, layout: Layout)
    requires
        missing(lines, layout, keplerian_required()) is None,
    ensures
        forall|i: int|
            (0 <= i <= 2 || 4 <= i <= 19 || i == 21) ==> (#[trigger] value_at(lines, layout, i)) is Some,
{
    let required = keplerian_required();
    assert forall|i: int| (0 <= i <= 2 || 4 <= i <= 19 || i == 21) implies (#[trigger] value_at(
        lines,
        layout,
        i,
    )) is Some by {
        let k: int = if i <= 2 {
            16 + i
        } else if i == 21 {
            19
        } else {
            i - 4
        };
        assert(required[k].0 == i);
        lemma_missing_none(lines, layout, required, k);
    }
}

/// Whether a fit interval field means the same in two versions: the two read GPS fields alike, or
/// the field is none of the values that are flags in RINEX 3.00 to 3.02, which are 0 and 1.
pub open spec fn fit_means_same(
    system: GnssSystem,
    value: Option<Decimal>,
    version0: NavVersion,
    version: NavVersion,
) -> bool {
    ||| system != GnssSystem::Gps
    ||| version0.legacy_fit_flag() == version.legacy_fit_flag()
    ||| value matches Some(d) ==> d.digits != 0 && d != positive(1, 0)
}

/// Whether a record read from lines is one that the writer states in `version` with `named` as
/// what a frame marker names, and that reads back: it was read without a departure, its values have
/// at most thirteen digits and its clock reference time is a whole second of a four-digit year; its
/// message is the one the columns of the version state, and its fit interval field means the same
/// in both versions.
pub open spec fn restatable(
    lines: Seq<Seq<u8>>,
    layout: Layout,
    version0: NavVersion,
    named0: Option<NavMessage>,
    version: NavVersion,
    named: Option<NavMessage>,
    sat: GnssSatelliteId,
    token: Seq<u8>,
    record: BroadcastRecord,
) -> bool {
    &&& keplerian_record(lines, sat, token, named0, version0, layout) == Ok::<
        (BroadcastRecord, Seq<Fault>),
        Fault,
    >((record, Seq::empty()))
    &&& sat.wf()
    &&& keplerian_system(sat.system)
    &&& short_fields(lines, layout)
    &&& record.toc.tow_s.quectos == 0
    &&& clock_civil(record.toc).year <= 9999
    &&& fit_means_same(sat.system, value_at(lines, layout, 28), version0, version)
    &&& keplerian_message(sat, named, value_at(lines, layout, 20)) == Some((record.message, false))
    &&& sat.system == GnssSystem::Galileo ==> value_at(lines, layout, 20) is Some
    &&& version.major < 4 ==> named is None
}

/// Whether lines have the shape of a record: the first starts with the satellite's token, each
/// other with a blank, and all are printable.
pub open spec fn record_shape(lines: Seq<Seq<u8>>, sat: GnssSatelliteId) -> bool {
    &&& lines.len() > 0
    &&& printable(lines[0])
    &&& lines[0].len() == 80
    &&& lines[0].subrange(0, 3) == token_of_satellite(sat)
    &&& forall|k: int|
        1 <= k < lines.len() ==> printable(#[trigger] lines[k]) && lines[k].len() == 80
            && lines[k][0] == 32
}

/// A legacy record that was read is written as lines that read back as the same record, without a
/// departure.
#[verifier::spinoff_prover]
#[verifier::rlimit(50)]
pub proof fn law_keplerian_reads_back(
    lines: Seq<Seq<u8>>,
    layout: Layout,
    version0: NavVersion,
    named0: Option<NavMessage>,
    version: NavVersion,
    named: Option<NavMessage>,
    sat: GnssSatelliteId,
    token: Seq<u8>,
    record: BroadcastRecord,
    other: Seq<u8>,
)
    requires
        restatable(lines, layout, version0, named0, version, named, sat, token, record),
    ensures
        keplerian_record(
            keplerian_lines(record, version, RecordColumns::V3),
            sat,
            other,
            named,
            version,
            Layout::V3,
        ) == Ok::<(BroadcastRecord, Seq<Fault>), Fault>((record, Seq::empty())),
        record_shape(keplerian_lines(record, version, RecordColumns::V3), sat),
{
    let scale = scale_of(sat.system);
    let (week, tow) = lemma_read_clock(lines, layout, version0, named0, sat, token, record);
    let written = keplerian_lines(record, version, RecordColumns::V3);
    let second = lemma_clock_reads_back(lines[0], layout, scale, week, tow);
    assert forall|i: int| 0 <= i < 31 implies #[trigger] written_field(record, version, i)
        == value_at(lines, layout, i) && field_ok(written_field(record, version, i)) by {
        lemma_written_is_read(
            lines,
            layout,
            version0,
            named0,
            version,
            named,
            sat,
            token,
            record,
            i,
        );
        lemma_raw_short(lines, layout, i);
        lemma_stated_wf(raw_at(lines, layout, i));
    }
    lemma_keplerian_fields(record, version, second);
    assert forall|i: int| 0 <= i < 31 implies #[trigger] value_at(written, Layout::V3, i)
        == value_at(lines, layout, i) && blank(raw_at(written, Layout::V3, i)) == (value_at(
        lines,
        layout,
        i,
    ) is None) by {
        assert(raw_at(written, Layout::V3, i) == field_text(written_field(record, version, i)));
        lemma_field_text(written_field(record, version, i));
    }
    assert(field_ok(written_field(record, version, 0)));
    assert(field_ok(written_field(record, version, 1)));
    assert(field_ok(written_field(record, version, 2)));
    lemma_first_text(
        sat,
        clock_civil(record.toc),
        second,
        record.clock.af0,
        record.clock.af1,
        Some(record.clock.af2),
    );
    assert(clock_time(written[0], Layout::V3, scale) == clock_time(lines[0], layout, scale)) by {
        reveal(record_epoch);
    }
    lemma_same_reading(
        lines,
        layout,
        version0,
        named0,
        version,
        named,
        sat,
        token,
        record,
        other,
        written,
    );
    assert forall|k: int| 1 <= k < written.len() implies printable(#[trigger] written[k])
        && written[k].len() == 80 && written[k][0] == 32 by {
        lemma_orbit_fields_of(record, version, k);
        assert(written[k][0] == 32);
    }
}

/// The clock reference time of a record that is read is that of its first line.
pub proof fn lemma_read_clock(
    lines: Seq<Seq<u8>>,
    layout: Layout,
    version0: NavVersion,
    named0: Option<NavMessage>,
    sat: GnssSatelliteId,
    token: Seq<u8>,
    record: BroadcastRecord,
) -> (r: (u32, Seconds))
    requires
        keplerian_record(lines, sat, token, named0, version0, layout) == Ok::<
            (BroadcastRecord, Seq<Fault>),
            Fault,
        >((record, Seq::empty())),
    ensures
        record.satellite_id == sat,
        clock_time(lines[0], layout, scale_of(sat.system)) == Some(r),
        record.toc == (GnssWeekTow { system: scale_of(sat.system), week: r.0, tow_s: r.1 }),
{
    reveal(keplerian_record);
    let scale = scale_of(sat.system);
    let r = clock_time(lines[0], layout, scale)->0;
    lemma_clock_in_week(lines[0], layout, scale, r.0, r.1);
    r
}

/// A clock reference time that is read lies in its week.
pub proof fn lemma_clock_in_week(
    line: Seq<u8>,
    layout: Layout,
    scale: TimeScale,
    week: u32,
    tow: Seconds,
)
    requires
        clock_time(line, layout, scale) == Some((week, tow)),
    ensures
        0 <= tow.whole < SECONDS_PER_WEEK,
        (GnssWeekTow { system: scale, week, tow_s: tow }).carried() == Some(
            GnssWeekTow { system: scale, week, tow_s: tow },
        ),
{
    reveal(week_and_tow);
    lemma_epoch_read(line, layout);
    let e = record_epoch(line, layout, CivilSecondPolicy::Continuous)->0;
    let days = day_number(e.year as int, e.month as int, e.day as int) - week_epoch_day(scale);
    lemma_fundamental_div_mod(days, 7);
    assert(0 <= days % 7 < 7);
    assert(0 <= tow.whole < SECONDS_PER_WEEK);
    lemma_fundamental_div_mod_converse(
        tow.whole as int,
        SECONDS_PER_WEEK as int,
        0,
        tow.whole as int,
    );
}

/// Lines that state the same values and the same clock reference time read as the same record.
#[verifier::spinoff_prover]
#[verifier::rlimit(50)]
proof fn lemma_same_reading(
    lines: Seq<Seq<u8>>,
    layout: Layout,
    version0: NavVersion,
    named0: Option<NavMessage>,
    version: NavVersion,
    named: Option<NavMessage>,
    sat: GnssSatelliteId,
    token: Seq<u8>,
    record: BroadcastRecord,
    other: Seq<u8>,
    written: Seq<Seq<u8>>,
)
    requires
        restatable(lines, layout, version0, named0, version, named, sat, token, record),
        written.len() == 8,
        forall|i: int|
            0 <= i < 31 ==> #[trigger] value_at(written, Layout::V3, i) == value_at(
                lines,
                layout,
                i,
            ) && blank(raw_at(written, Layout::V3, i)) == (value_at(lines, layout, i) is None),
        clock_time(written[0], Layout::V3, scale_of(sat.system)) == clock_time(
            lines[0],
            layout,
            scale_of(sat.system),
        ),
    ensures
        keplerian_record(written, sat, other, named, version, Layout::V3) == Ok::<
            (BroadcastRecord, Seq<Fault>),
            Fault,
        >((record, Seq::empty())),
{
    let required = keplerian_required();
    assert forall|k: int| 0 <= k < required.len() implies value_at(
        written,
        Layout::V3,
        (#[trigger] required[k]).0 as int,
    ) == value_at(lines, layout, required[k].0 as int) by {
        assert(0 <= required[k].0 < 31);
    }
    lemma_missing_same(written, Layout::V3, lines, layout, required);
    lemma_read_departures(lines, layout, version0, named0, sat, token, record);
    lemma_same_elements(lines, layout, written, sat.system);
    assert(value_at(written, Layout::V3, 28) == value_at(lines, layout, 28));
    assert(value_at(written, Layout::V3, 23) == value_at(lines, layout, 23));
    lemma_same_delays(lines, layout, written, sat.system);
    lemma_same_fit(lines, layout, written, sat.system, version0, version, token);
    assert forall|i: int| 0 <= i < 31 implies blank(raw_at(written, Layout::V3, i)) || (
    #[trigger] value_at(written, Layout::V3, i)) is Some by {}
    lemma_no_departures(written, sat.system, version, other);
    assert(value_at(written, Layout::V3, 0) == value_at(lines, layout, 0));
    assert(value_at(written, Layout::V3, 1) == value_at(lines, layout, 1));
    assert(value_at(written, Layout::V3, 2) == value_at(lines, layout, 2));
    assert(value_at(written, Layout::V3, 3) == value_at(lines, layout, 3));
    assert(value_at(written, Layout::V3, 11) == value_at(lines, layout, 11));
    assert(value_at(written, Layout::V3, 20) == value_at(lines, layout, 20));
    assert(value_at(written, Layout::V3, 21) == value_at(lines, layout, 21));
    assert(value_at(written, Layout::V3, 24) == value_at(lines, layout, 24));
    lemma_built_alike(
        lines,
        layout,
        version0,
        named0,
        version,
        named,
        sat,
        token,
        record,
        other,
        written,
    );
}

/// A record is built alike of parts that are the same.
#[verifier::spinoff_prover]
#[verifier::rlimit(50)]
proof fn lemma_built_alike(
    lines: Seq<Seq<u8>>,
    layout: Layout,
    version0: NavVersion,
    named0: Option<NavMessage>,
    version: NavVersion,
    named: Option<NavMessage>,
    sat: GnssSatelliteId,
    token: Seq<u8>,
    record: BroadcastRecord,
    other: Seq<u8>,
    written: Seq<Seq<u8>>,
)
    requires
        keplerian_record(lines, sat, token, named0, version0, layout) == Ok::<
            (BroadcastRecord, Seq<Fault>),
            Fault,
        >((record, Seq::empty())),
        keplerian_message(sat, named, value_at(lines, layout, 20)) == Some((record.message, false)),
        written.len() == 8,
        clock_time(written[0], Layout::V3, scale_of(sat.system)) == clock_time(
            lines[0],
            layout,
            scale_of(sat.system),
        ),
        missing(written, Layout::V3, keplerian_required()) == missing(
            lines,
            layout,
            keplerian_required(),
        ),
        value_at(written, Layout::V3, 0) == value_at(lines, layout, 0),
        value_at(written, Layout::V3, 1) == value_at(lines, layout, 1),
        value_at(written, Layout::V3, 2) == value_at(lines, layout, 2),
        value_at(written, Layout::V3, 3) == value_at(lines, layout, 3),
        value_at(written, Layout::V3, 11) == value_at(lines, layout, 11),
        value_at(written, Layout::V3, 20) == value_at(lines, layout, 20),
        value_at(written, Layout::V3, 21) == value_at(lines, layout, 21),
        value_at(written, Layout::V3, 23) == value_at(lines, layout, 23),
        value_at(written, Layout::V3, 24) == value_at(lines, layout, 24),
        stated_elements(written, Layout::V3) == stated_elements(lines, layout),
        keplerian_stated(written, Layout::V3, sat.system) == keplerian_stated(
            lines,
            layout,
            sat.system,
        ),
        keplerian_delays(
            sat.system,
            raw_at(written, Layout::V3, 25),
            raw_at(written, Layout::V3, 26),
        ) == keplerian_delays(sat.system, raw_at(lines, layout, 25), raw_at(lines, layout, 26)),
        keplerian_fit(written, Layout::V3, sat.system, version) == keplerian_fit(
            lines,
            layout,
            sat.system,
            version0,
        ),
        keplerian_departures(written, Layout::V3, sat.system, version, other, false) == Seq::<
            Fault,
        >::empty(),
    ensures
        keplerian_record(written, sat, other, named, version, Layout::V3) == Ok::<
            (BroadcastRecord, Seq<Fault>),
            Fault,
        >((record, Seq::empty())),
{
    reveal(keplerian_record);
}

/// A record that is read without a departure states an accuracy, its delays read, and so does the
/// fit interval of a GPS record.
proof fn lemma_read_departures(
    lines: Seq<Seq<u8>>,
    layout: Layout,
    version0: NavVersion,
    named0: Option<NavMessage>,
    sat: GnssSatelliteId,
    token: Seq<u8>,
    record: BroadcastRecord,
)
    requires
        keplerian_record(lines, sat, token, named0, version0, layout) == Ok::<
            (BroadcastRecord, Seq<Fault>),
            Fault,
        >((record, Seq::empty())),
    ensures
        value_at(lines, layout, 23) is Some,
        sat.system == GnssSystem::Gps ==> gps_fit(raw_at(lines, layout, 28), version0) is Ok,
        keplerian_delays(sat.system, raw_at(lines, layout, 25), raw_at(lines, layout, 26)) is Ok,
{
    reveal(keplerian_record);
    let read = keplerian_message(sat, named0, value_at(lines, layout, 20))->0;
    let none = keplerian_departures(lines, layout, sat.system, version0, token, read.1);
    assert(none.len() == 0);
}

/// Elements and stated fields of values that are the same are the same.
proof fn lemma_same_elements(
    lines: Seq<Seq<u8>>,
    layout: Layout,
    written: Seq<Seq<u8>>,
    system: GnssSystem,
)
    requires
        forall|i: int|
            0 <= i < 31 ==> #[trigger] value_at(written, Layout::V3, i) == value_at(
                lines,
                layout,
                i,
            ),
    ensures
        stated_elements(written, Layout::V3) == stated_elements(lines, layout),
        keplerian_stated(written, Layout::V3, system) == keplerian_stated(lines, layout, system),
{
}

/// Delays read from fields that state the same are the same.
proof fn lemma_same_delays(
    lines: Seq<Seq<u8>>,
    layout: Layout,
    written: Seq<Seq<u8>>,
    system: GnssSystem,
)
    requires
        keplerian_delays(system, raw_at(lines, layout, 25), raw_at(lines, layout, 26)) is Ok,
        forall|i: int|
            25 <= i < 27 ==> #[trigger] value_at(written, Layout::V3, i) == value_at(
                lines,
                layout,
                i,
            ) && blank(raw_at(written, Layout::V3, i)) == (value_at(lines, layout, i) is None),
    ensures
        keplerian_delays(
            system,
            raw_at(written, Layout::V3, 25),
            raw_at(written, Layout::V3, 26),
        ) == keplerian_delays(system, raw_at(lines, layout, 25), raw_at(lines, layout, 26)),
{
    assert(value_at(written, Layout::V3, 25) == value_at(lines, layout, 25));
    assert(value_at(written, Layout::V3, 26) == value_at(lines, layout, 26));
    if blank(raw_at(lines, layout, 25)) {
        lemma_blank_unstated(raw_at(lines, layout, 25));
    }
    if blank(raw_at(lines, layout, 26)) {
        lemma_blank_unstated(raw_at(lines, layout, 26));
    }
}

/// A fit interval read from a field that states the same is the same.
proof fn lemma_same_fit(
    lines: Seq<Seq<u8>>,
    layout: Layout,
    written: Seq<Seq<u8>>,
    system: GnssSystem,
    version0: NavVersion,
    version: NavVersion,
    token: Seq<u8>,
)
    requires
        fit_means_same(system, value_at(lines, layout, 28), version0, version),
        system == GnssSystem::Gps ==> gps_fit(raw_at(lines, layout, 28), version0) is Ok,
        value_at(written, Layout::V3, 28) == value_at(lines, layout, 28),
        blank(raw_at(written, Layout::V3, 28)) == (value_at(lines, layout, 28) is None),
    ensures
        keplerian_fit(written, Layout::V3, system, version) == keplerian_fit(
            lines,
            layout,
            system,
            version0,
        ),
        system == GnssSystem::Gps ==> gps_fit(raw_at(written, Layout::V3, 28), version) is Ok,
{
    if blank(raw_at(lines, layout, 28)) {
        lemma_blank_unstated(raw_at(lines, layout, 28));
    }
}

/// Eight lines whose fields are each blank or stated, with an accuracy, have no departure.
#[verifier::spinoff_prover]
#[verifier::rlimit(50)]
proof fn lemma_no_departures(
    written: Seq<Seq<u8>>,
    system: GnssSystem,
    version: NavVersion,
    token: Seq<u8>,
)
    requires
        written.len() == 8,
        forall|i: int|
            0 <= i < 31 ==> blank(raw_at(written, Layout::V3, i)) || (#[trigger] value_at(
                written,
                Layout::V3,
                i,
            )) is Some,
        value_at(written, Layout::V3, 23) is Some,
        system == GnssSystem::Gps ==> gps_fit(raw_at(written, Layout::V3, 28), version) is Ok,
    ensures
        keplerian_departures(written, Layout::V3, system, version, token, false) == Seq::<
            Fault,
        >::empty(),
{
    let v = |k: int| value_at(written, Layout::V3, k);
    assert(blank(raw_at(written, Layout::V3, 20)) || v(20) is Some);
    assert(blank(raw_at(written, Layout::V3, 22)) || v(22) is Some);
    assert(blank(raw_at(written, Layout::V3, 26)) || v(26) is Some);
    assert(blank(raw_at(written, Layout::V3, 27)) || v(27) is Some);
    assert(blank(raw_at(written, Layout::V3, 28)) || v(28) is Some);
    assert(blank(raw_at(written, Layout::V3, 29)) || v(29) is Some);
    assert(blank(raw_at(written, Layout::V3, 30)) || v(30) is Some);
    assert(keplerian_departures(written, Layout::V3, system, version, token, false) =~= Seq::empty());
}

/// The date of a clock reference time is that of the epoch it was read from.
pub proof fn lemma_clock_date(
    line: Seq<u8>,
    layout: Layout,
    scale: TimeScale,
    week: u32,
    tow: Seconds,
)
    requires
        clock_time(line, layout, scale) == Some((week, tow)),
        tow.quectos == 0,
    ensures
        ({
            let e = record_epoch(line, layout, CivilSecondPolicy::Continuous)->0;
            clock_civil(GnssWeekTow { system: scale, week, tow_s: tow }).year == e.year
        }),
{
    reveal(week_and_tow);
    lemma_epoch_read(line, layout);
    lemma_clock_in_week(line, layout, scale, week, tow);
    let e = record_epoch(line, layout, CivilSecondPolicy::Continuous)->0;
    let number = day_number(e.year as int, e.month as int, e.day as int);
    let days = number - week_epoch_day(scale);
    lemma_fundamental_div_mod(days, 7);
    let rest = e.hour * 3600 + e.minute * 60 + seconds_of(e.second).whole;
    lemma_nearest_whole(tow);
    lemma_fundamental_div_mod_converse(tow.whole as int, 86400, days % 7, rest);
    let date = (e.year as int, e.month as int, e.day as int);
    assert(valid_date(date.0, date.1, date.2) && day_number(date.0, date.1, date.2) == number);
    let chosen = date_of_day(number);
    lemma_date_unique(chosen.0, chosen.1, chosen.2, date.0, date.1, date.2);
}

} // verus!

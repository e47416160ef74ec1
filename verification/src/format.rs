//! The columns the writer lays text, integers and numbers out in.

use vstd::prelude::*;

use crate::binary::{double_of, double_words, is_rounded_up, rounds_up};
use crate::decimal::{
    count_digits, digit_count, digits_text, lemma_pow10_monotone, lemma_pow10_values, magnitude,
    pow10, power_of_ten, push_digits, push_scientific, round_half_even, scientific, Decimal,
};
use crate::text::{
    lemma_utf8_ascii, no_text, own, push, push_spaces, slice, slice_of, spaces, strings, utf8,
};

verus! {

/// Whether a byte starts a character.
pub open spec fn starts_char(b: u8) -> bool {
    !(0x80 <= b <= 0xbf)
}

/// The number of characters of a text.
pub open spec fn char_count(b: Seq<u8>) -> nat
    decreases b.len(),
{
    if b.len() == 0 {
        0
    } else {
        char_count(b.drop_last()) + if starts_char(b.last()) { 1nat } else { 0nat }
    }
}

/// Where the first `width` characters of a text end.
pub open spec fn chars_end(b: Seq<u8>, i: int, width: nat) -> int
    decreases b.len() - i,
{
    if i < 0 || i >= b.len() {
        b.len() as int
    } else if starts_char(b[i]) {
        if width == 0 {
            i
        } else {
            chars_end(b, i + 1, (width - 1) as nat)
        }
    } else {
        chars_end(b, i + 1, width)
    }
}

/// The first `width` characters of a text.
pub open spec fn truncated(b: Seq<u8>, width: nat) -> Seq<u8> {
    slice_of(b, 0, chars_end(b, 0, width))
}

/// The blanks that fill `count` columns up to `width`.
pub open spec fn filler(count: nat, width: nat) -> Seq<u8> {
    spaces(if count < width { (width - count) as nat } else { 0 })
}

/// A text at the left of `width` columns.
pub open spec fn left(b: Seq<u8>, width: nat) -> Seq<u8> {
    b + filler(char_count(b), width)
}

/// A text of one-byte characters at the right of `width` columns.
pub open spec fn right(b: Seq<u8>, width: nat) -> Seq<u8> {
    filler(b.len(), width) + b
}

/// An integer in digits.
pub open spec fn int_text(n: int) -> Seq<u8> {
    let m = magnitude(n);
    (if n < 0 { seq![45u8] } else { Seq::empty() }) + digits_text(m, digit_count(m))
}

/// An integer filled with zeros up to `width` columns, its sign first.
pub open spec fn zero_filled(n: int, width: nat) -> Seq<u8> {
    let m = magnitude(n);
    let sign: Seq<u8> = if n < 0 { seq![45u8] } else { Seq::empty() };
    let rest = if n < 0 { (width - 1) as nat } else { width };
    sign + digits_text(m, if digit_count(m) < rest { rest } else { digit_count(m) })
}

/// A number with `decimals` decimals and an exponent, at the right of `width` columns.
pub open spec fn exp_text(d: Decimal, decimals: nat, width: nat) -> Seq<u8> {
    right(
        (if d.below_zero() { seq![45u8] } else { Seq::empty() }) + scientific(
            d.digits as nat,
            d.exponent as int,
            decimals,
        ),
        width,
    )
}

/// A number with an exponent; blanks where there is none.
pub open spec fn optional_exp_text(d: Option<Decimal>, decimals: nat, width: nat) -> Seq<u8> {
    match d {
        Some(d) => exp_text(d, decimals, width),
        None => spaces(width),
    }
}

/// A number that is not an integer, in digits with a decimal point.
pub open spec fn point_text(d: Decimal) -> Seq<u8> {
    let places = (-d.exponent) as nat;
    let whole = d.digits as nat / pow10(places);
    (if d.below_zero() { seq![45u8] } else { Seq::empty() }) + digits_text(
        whole,
        digit_count(whole),
    ) + seq![46u8] + digits_text(d.digits as nat, places)
}

/// An integer brought into the range of `i64`.
pub open spec fn clamped(n: int) -> int {
    if n < i64::MIN {
        i64::MIN as int
    } else if n > i64::MAX {
        i64::MAX as int
    } else {
        n
    }
}

/// A number at the right of `width` columns, an integer without a decimal point; blanks where
/// there is none.
pub open spec fn count_field(d: Option<Decimal>, width: nat) -> Seq<u8> {
    match d {
        Some(d) => match d.integer() {
            Some(n) => right(int_text(clamped(n)), width),
            None => right(point_text(d), width),
        },
        None => spaces(width),
    }
}

/// The tenths of `digits` times ten to the `exponent`, below zero, rounded to the nearest with ties
/// to an even digit: the double nearest to the number is rounded, where there is more than one
/// decimal.
pub open spec fn tenths_of(digits: nat, exponent: int) -> nat {
    let unit = pow10((-exponent - 1) as nat);
    if exponent == -1 || exponent < -39 {
        round_half_even(digits, unit)
    } else if rounds_up(double_of(digits, exponent), digits / unit, -1) {
        digits / unit + 1
    } else {
        digits / unit
    }
}

/// A number to one decimal (see [`tenths_of`]).
pub open spec fn tenths_text(d: Decimal) -> Seq<u8> {
    let sign: Seq<u8> = if d.negative { seq![45u8] } else { Seq::empty() };
    if d.exponent >= 0 && d.digits > 0 {
        sign + digits_text(d.digits as nat, digit_count(d.digits as nat)) + digits_text(
            0,
            d.exponent as nat,
        ) + seq![46u8, 48u8]
    } else if d.exponent >= 0 {
        sign + seq![48u8, 46u8, 48u8]
    } else {
        let tenths = tenths_of(d.digits as nat, d.exponent as int);
        sign + digits_text(tenths / 10, digit_count(tenths / 10)) + seq![46u8] + digits_text(
            tenths,
            1,
        )
    }
}

/// A header line: the first 60 characters of `content` in columns 1-60, the label from column 61.
pub open spec fn labelled(content: Seq<u8>, label: Seq<u8>) -> Seq<u8> {
    left(truncated(content, 60), 60) + label
}

/// The characters of the first part of a text are those of the text up to there.
proof fn lemma_char_count_step(b: Seq<u8>, i: int)
    requires
        0 <= i < b.len(),
    ensures
        char_count(b.subrange(0, i + 1)) == char_count(b.subrange(0, i)) + if starts_char(b[i]) {
            1nat
        } else {
            0nat
        },
{
    assert(b.subrange(0, i + 1).drop_last() =~= b.subrange(0, i));
}

/// The number of characters of a text (see [`char_count`]).
pub fn count_chars(s: &str) -> (r: usize)
    ensures
        r == char_count(utf8(s@)),
        r <= utf8(s@).len(),
{
    let b = s.as_bytes();
    let mut n: usize = 0;
    let mut i: usize = 0;
    while i < b.len()
        invariant
            b@ == utf8(s@),
            i <= b@.len(),
            n <= i,
            n == char_count(b@.subrange(0, i as int)),
        decreases b@.len() - i,
    {
        proof {
            lemma_char_count_step(b@, i as int);
        }
        if !(0x80 <= b[i] && b[i] <= 0xbf) {
            n = n + 1;
        }
        i = i + 1;
    }
    assert(b@.subrange(0, i as int) =~= b@);
    n
}

/// The first `width` characters of a text (see [`truncated`]).
pub fn truncate<'a>(s: &'a str, width: usize) -> (r: &'a str)
    ensures
        utf8(r@) == truncated(utf8(s@), width as nat),
{
    let b = s.as_bytes();
    let mut left_over: usize = width;
    let mut i: usize = 0;
    while i < b.len() && !(!(0x80 <= b[i] && b[i] <= 0xbf) && left_over == 0)
        invariant
            b@ == utf8(s@),
            i <= b@.len(),
            chars_end(b@, 0, width as nat) == chars_end(b@, i as int, left_over as nat),
        decreases b@.len() - i,
    {
        if !(0x80 <= b[i] && b[i] <= 0xbf) {
            left_over = left_over - 1;
        }
        i = i + 1;
    }
    slice(s, 0, i)
}

/// Append blanks from column `count` up to `width`.
fn push_filler(out: &mut String, count: usize, width: usize)
    ensures
        utf8(final(out)@) == utf8(old(out)@) + filler(count as nat, width as nat),
{
    push_spaces(
        out,
        if count < width {
            width - count
        } else {
            0
        },
    );
}

/// Append a text at the left of `width` columns (see [`left`]).
pub fn push_left(out: &mut String, s: &str, width: usize)
    ensures
        utf8(final(out)@) == utf8(old(out)@) + left(utf8(s@), width as nat),
{
    let ghost before = utf8(out@);
    push(out, s);
    push_filler(out, count_chars(s), width);
    assert(utf8(out@) =~= before + left(utf8(s@), width as nat));
}

/// Append a text of one-byte characters at the right of `width` columns (see [`right`]).
pub fn push_right(out: &mut String, s: &str, width: usize)
    ensures
        utf8(final(out)@) == utf8(old(out)@) + right(utf8(s@), width as nat),
{
    let ghost before = utf8(out@);
    push_filler(out, s.as_bytes().len(), width);
    push(out, s);
    assert(utf8(out@) =~= before + right(utf8(s@), width as nat));
}

/// Append a minus sign where `negative`.
pub fn push_sign(out: &mut String, negative: bool)
    ensures
        utf8(final(out)@) == utf8(old(out)@) + (if negative {
            seq![45u8]
        } else {
            Seq::<u8>::empty()
        }),
{
    if negative {
        proof {
            reveal_strlit("-");
            lemma_utf8_ascii("-"@);
            assert(utf8("-"@) =~= seq![45u8]);
        }
        push(out, "-");
    } else {
        assert(utf8(out@) + Seq::<u8>::empty() =~= utf8(out@));
    }
}

/// Append a decimal point.
pub fn push_point(out: &mut String)
    ensures
        utf8(final(out)@) == utf8(old(out)@) + seq![46u8],
{
    proof {
        reveal_strlit(".");
        lemma_utf8_ascii("."@);
        assert(utf8("."@) =~= seq![46u8]);
    }
    push(out, ".");
}

/// The magnitude of an integer.
fn size_of_int(n: i64) -> (r: u128)
    ensures
        r == magnitude(n as int),
{
    if n < 0 {
        (-(n as i128)) as u128
    } else {
        n as u128
    }
}

/// An integer in digits (see [`int_text`]).
pub fn int_string(n: i64) -> (r: String)
    ensures
        utf8(r@) == int_text(n as int),
{
    let m: u128 = size_of_int(n);
    let mut out = own(no_text());
    push_sign(&mut out, n < 0);
    push_digits(&mut out, m, count_digits(m));
    assert(utf8(out@) =~= int_text(n as int));
    out
}

/// Append an integer filled with zeros (see [`zero_filled`]).
pub fn push_zero_filled(out: &mut String, n: i64, width: u32)
    requires
        1 <= width <= 19,
    ensures
        utf8(final(out)@) == utf8(old(out)@) + zero_filled(n as int, width as nat),
{
    let ghost before = utf8(out@);
    let m: u128 = size_of_int(n);
    push_sign(out, n < 0);
    let rest: u32 = if n < 0 {
        width - 1
    } else {
        width
    };
    let count: u32 = count_digits(m);
    push_digits(
        out,
        m,
        if count < rest {
            rest
        } else {
            count
        },
    );
    assert(utf8(out@) =~= before + zero_filled(n as int, width as nat));
}

/// Append an integer at the right of `width` columns.
pub fn push_int(out: &mut String, n: i64, width: usize)
    ensures
        utf8(final(out)@) == utf8(old(out)@) + right(int_text(n as int), width as nat),
{
    let text = int_string(n);
    push_right(out, text.as_str(), width);
}

/// Append a number with `decimals` decimals and an exponent (see [`exp_text`]).
pub fn exp_field(out: &mut String, d: Decimal, decimals: u32, width: usize)
    requires
        1 <= decimals <= 18,
    ensures
        utf8(final(out)@) == utf8(old(out)@) + exp_text(d, decimals as nat, width as nat),
{
    let mut text = own(no_text());
    push_sign(&mut text, d.negative && d.digits > 0);
    push_scientific(&mut text, d.digits, d.exponent as i64, decimals);
    push_right(out, text.as_str(), width);
    assert(utf8(text@) =~= (if d.below_zero() {
        seq![45u8]
    } else {
        Seq::<u8>::empty()
    }) + scientific(d.digits as nat, d.exponent as int, decimals as nat));
}

/// Append a number with an exponent, or blanks (see [`optional_exp_text`]).
pub fn optional_exp(out: &mut String, d: Option<Decimal>, decimals: u32, width: usize)
    requires
        1 <= decimals <= 18,
    ensures
        utf8(final(out)@) == utf8(old(out)@) + optional_exp_text(d, decimals as nat, width as nat),
{
    match d {
        Some(d) => exp_field(out, d, decimals, width),
        None => push_spaces(out, width),
    }
}

/// A number above a power of ten beyond the digits held is below one.
proof fn lemma_small(n: nat, places: nat)
    requires
        n <= u128::MAX,
        places >= 39,
    ensures
        n < pow10(places),
        n / pow10(places) == 0,
        n % pow10(places) == n,
{
    lemma_pow10_values();
    assert(pow10(39) == 10 * pow10(38));
    lemma_pow10_monotone(39, places);
    vstd::arithmetic::div_mod::lemma_basic_div(n as int, pow10(places) as int);
    vstd::arithmetic::div_mod::lemma_small_mod(n, pow10(places));
}

/// Whether a number is an integer.
fn is_integer(d: Decimal) -> (r: bool)
    ensures
        r == (d.integer() is Some),
{
    if d.exponent >= 0 {
        true
    } else if d.exponent >= -38 {
        let unit: u128 = power_of_ten((-d.exponent) as u32);
        proof {
            lemma_pow10_monotone(0, (-d.exponent) as nat);
        }
        d.digits % unit == 0
    } else {
        proof {
            lemma_small(d.digits as nat, (-d.exponent) as nat);
        }
        d.digits == 0
    }
}

/// An integer number as an `i64`, brought into its range (see [`clamped`]).
fn clamp_integer(d: Decimal) -> (r: i64)
    requires
        d.integer() is Some,
    ensures
        r == clamped(d.integer()->0),
{
    proof {
        if d.exponent >= 0 {
            let p = pow10(d.exponent as nat);
            assert(-(d.digits as int) * p <= 0 && d.digits * p >= 0) by (nonlinear_arith)
                requires
                    p >= 0,
                    d.digits >= 0,
            ;
        } else {
            lemma_pow10_monotone(0, (-d.exponent) as nat);
            vstd::arithmetic::div_mod::lemma_div_pos_is_pos(
                d.digits as int,
                pow10((-d.exponent) as nat) as int,
            );
        }
    }
    match d.to_integer(-9223372036854775807, 9223372036854775807) {
        Some(n) => n,
        None => {
            if d.negative {
                i64::MIN
            } else {
                i64::MAX
            }
        },
    }
}

/// A number that is not an integer in digits (see [`point_text`]).
fn point_string(d: Decimal) -> (r: String)
    requires
        d.exponent < 0,
    ensures
        utf8(r@) == point_text(d),
{
    let places: u32 = (-(d.exponent as i64)) as u32;
    let whole: u128 = if places <= 38 {
        proof {
            lemma_pow10_monotone(0, places as nat);
        }
        d.digits / power_of_ten(places)
    } else {
        proof {
            lemma_small(d.digits as nat, places as nat);
        }
        0
    };
    let mut out = own(no_text());
    push_sign(&mut out, d.negative && d.digits > 0);
    push_digits(&mut out, whole, count_digits(whole));
    push_point(&mut out);
    push_digits(&mut out, d.digits, places);
    assert(utf8(out@) =~= point_text(d));
    out
}

/// Append a number at the right of `width` columns (see [`count_field`]).
pub fn push_count(out: &mut String, d: Option<Decimal>, width: usize)
    ensures
        utf8(final(out)@) == utf8(old(out)@) + count_field(d, width as nat),
{
    match d {
        Some(d) => {
            if is_integer(d) {
                push_int(out, clamp_integer(d), width);
            } else {
                let text = point_string(d);
                push_right(out, text.as_str(), width);
            }
        },
        None => push_spaces(out, width),
    }
}

/// A number to one decimal (see [`tenths_text`]).
pub fn tenths_string(d: Decimal) -> (r: String)
    ensures
        utf8(r@) == tenths_text(d),
{
    let mut out = own(no_text());
    push_sign(&mut out, d.negative);
    if d.exponent >= 0 {
        if d.digits > 0 {
            push_digits(&mut out, d.digits, count_digits(d.digits));
            push_digits(&mut out, 0, d.exponent as u32);
        } else {
            push_digits(&mut out, 0, 1);
        }
        push_point(&mut out);
        push_digits(&mut out, 0, 1);
        proof {
            reveal_with_fuel(digits_text, 2);
            assert(digits_text(0, 1) =~= seq![48u8]);
            assert(utf8(out@) =~= tenths_text(d));
        }
    } else {
        let places: u32 = (-(d.exponent as i64 + 1)) as u32;
        let tenths: u128 = if places == 0 {
            assert(pow10(0) == 1);
            d.digits
        } else if places <= 38 {
            proof {
                lemma_pow10_values();
                lemma_pow10_monotone(1, places as nat);
                lemma_pow10_monotone(places as nat, 38);
                assert(d.digits as nat / pow10(places as nat) <= d.digits as nat / 10)
                    by (nonlinear_arith)
                    requires
                        pow10(places as nat) >= 10,
                        d.digits >= 0,
                ;
            }
            let whole: u128 = d.digits / power_of_ten(places);
            if is_rounded_up(&double_words(d.digits, d.exponent as i64), whole, -1) {
                whole + 1
            } else {
                whole
            }
        } else {
            // Half of the unit exceeds any number of digits held from the fortieth place on.
            proof {
                lemma_small(d.digits as nat, places as nat);
                lemma_pow10_values();
                assert(pow10(39) == 10 * pow10(38));
                lemma_pow10_monotone(39, places as nat);
                assert(2 * d.digits < pow10(39));
            }
            0
        };
        push_digits(&mut out, tenths / 10, count_digits(tenths / 10));
        push_point(&mut out);
        push_digits(&mut out, tenths, 1);
        assert(utf8(out@) =~= tenths_text(d));
    }
    out
}

/// A header line (see [`labelled`]).
pub fn label_line(content: &str, label: &str) -> (r: String)
    ensures
        utf8(r@) == labelled(utf8(content@), utf8(label@)),
{
    let mut out = own(no_text());
    push_left(&mut out, truncate(content, 60), 60);
    push(&mut out, label);
    assert(utf8(out@) =~= labelled(utf8(content@), utf8(label@)));
    out
}

/// Append a line to a text.
pub fn push_line(out: &mut Vec<String>, line: String)
    ensures
        strings(final(out)@) == strings(old(out)@).push(utf8(line@)),
{
    let ghost before = strings(out@);
    out.push(line);
    assert(strings(out@) =~= before.push(utf8(line@)));
}

} // verus!

//! How numbers are rounded: to a unit, to a double, and to the digits that are written.

use vstd::arithmetic::div_mod::{lemma_fundamental_div_mod, lemma_fundamental_div_mod_converse};
use vstd::arithmetic::power2::{lemma_pow2_pos, lemma_pow2_unfold, pow2};
use vstd::prelude::*;

use crate::binary::{double_of, nearest_double, raised, rounds_up, there_and_back};
use crate::decimal::{
    digit, digit_count, formatted, lemma_digit_count, lemma_digits_text, lemma_pow10_monotone,
    lemma_pow10_values, pow10, round_half_even, Decimal,
};
use crate::error::{count_text, fault_text, Fault};
use crate::instant::nearest_second;
use crate::numerals::{digits_only, lemma_place_value, place_value};
use crate::reread::lemma_natural_digits;
use crate::text::utf8;
use crate::time::Seconds;

verus! {

/// A number rounded to a unit is at most half a unit away, and of two multiples as near it is the
/// even one.
pub proof fn law_half_even(n: nat, unit: nat)
    requires
        unit > 0,
    ensures
        ({
            let q = round_half_even(n, unit);
            &&& 2 * (q * unit - n) <= unit
            &&& 2 * (n - q * unit) <= unit
            &&& 2 * (q * unit - n) == unit || 2 * (n - q * unit) == unit ==> q % 2 == 0
        }),
{
    lemma_fundamental_div_mod(n as int, unit as int);
    let q = n / unit;
    let r = n % unit;
    assert((q + 1) * unit == unit * q + unit) by (nonlinear_arith);
    assert(q * unit == unit * q) by (nonlinear_arith);
}

/// The double nearest to a fraction, in units of the least double: a number `m` of 53 binary digits
/// times a power of two, which is more than one only where `m` needs all of them; it is at most half
/// of that power away, and of two as near it is the even one.
pub proof fn law_nearest_double(a: nat, b: nat) -> (r: (nat, nat))
    requires
        b > 0,
    ensures
        ({
            let (m, k) = r;
            let v = nearest_double(a, b);
            &&& v == m * pow2(k)
            &&& m <= 9007199254740992
            &&& k > 0 ==> a >= 4503599627370496 * (pow2(k) * b)
            &&& 2 * (v * b - a) <= pow2(k) * b
            &&& 2 * (a - v * b) <= pow2(k) * b
            &&& 2 * (v * b - a) == pow2(k) * b || 2 * (a - v * b) == pow2(k) * b ==> m % 2 == 0
        }),
    decreases a - b,
{
    if a < 9007199254740992 * b {
        law_half_even(a, b);
        let q = round_half_even(a, b);
        lemma_pow2_unfold(1);
        assert(pow2(0) == 1) by {
            vstd::arithmetic::power2::lemma2_to64();
        }
        assert(q * pow2(0) == q) by (nonlinear_arith)
            requires
                pow2(0) == 1,
        ;
        assert(pow2(0) * b == b) by (nonlinear_arith)
            requires
                pow2(0) == 1,
        ;
        lemma_fundamental_div_mod(a as int, b as int);
        assert(a / b < 9007199254740992) by (nonlinear_arith)
            requires
                a < 9007199254740992 * b,
                b > 0,
        ;
        (q, 0)
    } else {
        let (m, j) = law_nearest_double(a, 2 * b);
        let half = nearest_double(a, 2 * b);
        let k = j + 1;
        lemma_pow2_unfold(k);
        let p = pow2(j);
        assert(pow2(k) == 2 * p);
        assert(m * (2 * p) == 2 * (m * p)) by (nonlinear_arith);
        assert((2 * p) * b == p * (2 * b)) by (nonlinear_arith);
        assert((2 * half) * b == half * (2 * b)) by (nonlinear_arith);
        if j == 0 {
            assert(p == 1) by {
                vstd::arithmetic::power2::lemma2_to64();
            }
            assert(p * (2 * b) == 2 * b) by (nonlinear_arith)
                requires
                    p == 1,
            ;
        }
        (m, k)
    }
}

/// The double that stands for a number is the nearest to it, in units of 2^-1074.
pub proof fn law_double_of(digits: nat, exponent: int)
    ensures
        exponent >= 0 ==> double_of(digits, exponent) == nearest_double(
            digits * pow10(exponent as nat) * pow2(1074),
            1,
        ),
        exponent <= 0 ==> double_of(digits, exponent) == nearest_double(
            digits * pow2(1074),
            pow10((-exponent) as nat),
        ),
{
    reveal(double_of);
    assert(pow10(0) == 1);
    assert(digits * pow10(0) == digits) by (nonlinear_arith)
        requires
            pow10(0) == 1,
    ;
}

/// A double `v`, in units of 2^-1074, rounds up from `q` at a decimal place where it is nearer to the
/// next number, or as near and `q` is odd.
pub proof fn law_rounds_up(v: nat, q: nat, place: int)
    ensures
        ({
            let here = v * pow10((if place < 0 {
                -place
            } else {
                0
            }) as nat);
            let unit = pow10((if place > 0 {
                place
            } else {
                0
            }) as nat) * pow2(1074);
            let above = (q + 1) * unit - here;
            let below = here - q * unit;
            rounds_up(v, q, place) <==> above < below || above == below && q % 2 == 1
        }),
{
    reveal(rounds_up);
    let down = raised(-place);
    let up = raised(place);
    let two = pow2(1074);
    let unit = up * two;
    assert(v * down * 2 == 2 * (v * down)) by (nonlinear_arith);
    assert((2 * q + 1) * up * two == q * unit + (q + 1) * unit) by (nonlinear_arith)
        requires
            unit == up * two,
    ;
}

/// A number of at most `p` digits is written in `p` digits as it is; one of more is written as one of
/// the two numbers of `p` digits around it, the one that the double standing for it rounds to.
pub proof fn law_written_digits(digits: nat, exponent: int, p: nat, kilometers: bool)
    requires
        digits > 0,
        p >= 1,
        -500 <= exponent <= 500,
    ensures
        ({
            let c = digit_count(digits);
            let (m, e) = formatted(digits, exponent, p, kilometers);
            if c <= p {
                exponent - e == p - c && m == digits * pow10((p - c) as nat)
            } else {
                let unit = pow10((c - p) as nat);
                let double = if kilometers {
                    nearest_double(nearest_double(double_of(digits, exponent) * 1000, 1), 1000)
                } else {
                    double_of(digits, exponent)
                };
                let whole = digits / unit;
                let chosen = if rounds_up(double, whole, exponent + c - p) {
                    whole + 1
                } else {
                    whole
                };
                &&& e >= exponent + c - p
                &&& m * pow10((e - (exponent + c - p)) as nat) == chosen
                &&& chosen * unit <= digits + unit
                &&& digits <= chosen * unit + unit
            }
        }),
{
    reveal(there_and_back);
    let c = digit_count(digits);
    if c > p {
        let unit = pow10((c - p) as nat);
        lemma_pow10_monotone(0, (c - p) as nat);
        lemma_fundamental_div_mod(digits as int, unit as int);
        let whole = digits / unit;
        assert((whole + 1) * unit == unit * whole + unit) by (nonlinear_arith);
        assert(whole * unit == unit * whole) by (nonlinear_arith);
        let (m, e) = formatted(digits, exponent, p, kilometers);
        assert(pow10(0) == 1);
        assert(m * pow10(0) == m) by (nonlinear_arith)
            requires
                pow10(0) == 1,
        ;
        assert(pow10(1) == 10) by {
            lemma_pow10_values();
        }
        assert(pow10(p) == 10 * pow10((p - 1) as nat));
        assert(pow10((p - 1) as nat) * pow10(1) == 10 * pow10((p - 1) as nat)) by (nonlinear_arith)
            requires
                pow10(1) == 10,
        ;
    }
}

/// The second nearest to a time, of two the one farther from zero.
pub proof fn law_nearest_second(s: Seconds)
    ensures
        ({
            let n = nearest_second(s) * 1000000000000000000000000000000;
            let t = s.total();
            &&& t >= 0 ==> 2 * (n - t) <= 1000000000000000000000000000000 && 2 * (t - n)
                < 1000000000000000000000000000000
            &&& t < 0 ==> 2 * (t - n) <= 1000000000000000000000000000000 && 2 * (n - t)
                < 1000000000000000000000000000000
        }),
{
    let q: int = 1000000000000000000000000000000;
    lemma_fundamental_div_mod(2 * s.total() + q, 2 * q);
    lemma_fundamental_div_mod(2 * -s.total() + q, 2 * q);
}

/// The integer nearest to a number below zero or above, of two the one farther from zero.
pub proof fn law_nearest_integer(d: Decimal)
    requires
        d.exponent < 0,
    ensures
        ({
            let unit = pow10((-d.exponent) as nat);
            let m = d.nearest_magnitude();
            2 * (m * unit - d.digits) <= unit && 2 * (d.digits - m * unit) < unit
        }),
{
    let unit = pow10((-d.exponent) as nat);
    lemma_pow10_monotone(0, (-d.exponent) as nat);
    let x = 2 * d.digits as nat + unit;
    lemma_fundamental_div_mod(x as int, (2 * unit) as int);
    let m = d.nearest_magnitude();
    assert((2 * unit) * m == 2 * (m * unit)) by (nonlinear_arith);
}

/// The text of an error names the satellite and the field, the header field or the line that it is
/// about.
pub proof fn law_error_texts(satellite: Seq<u8>, field: Seq<u8>, line: nat)
    ensures
        fault_text(Fault::BadField(satellite, field)) == utf8("bad/missing "@) + field + utf8(
            " field in record for "@,
        ) + satellite,
        fault_text(Fault::BadHeaderField(field)) == utf8("bad/missing "@) + field + utf8(
            " field in navigation header"@,
        ),
        fault_text(Fault::TruncatedRecord(satellite)) == utf8("truncated navigation record for "@)
            + satellite,
        fault_text(Fault::UnsupportedHeader(field)) == utf8("unsupported RINEX NAV header: "@) + field,
        fault_text(Fault::MissingHeaderEnd) == utf8("no END OF HEADER line"@),
        fault_text(Fault::UnexpectedLine(line as int)) == utf8("line "@) + count_text(line) + utf8(
            " belongs to no navigation record"@,
        ),
        digits_only(count_text(line)) && place_value(count_text(line)) == line,
        fault_text(Fault::ExtraRecordLines(satellite)) == utf8("navigation record for "@) + satellite
            + utf8(" is followed by lines beyond its layout"@),
{
    let n = count_text(line);
    let w = digit_count(line);
    lemma_digit_count(line);
    lemma_digits_text(line, w);
    lemma_natural_digits(line, w);
    vstd::arithmetic::div_mod::lemma_small_mod(line, pow10(w));
    assert forall|k: int| 0 <= k < n.len() implies 48 <= #[trigger] n[k] <= 57 by {
        assert(digit(n[k]));
    }
    lemma_place_value(n);
}

} // verus!

//! What the text of a number means: place values, the decimal point, the sign and the power of ten.

use vstd::prelude::*;

use crate::decimal::{
    digit, digit_count, digit_run, exponent_part, in_double_range, integer_text, lemma_digit_count,
    lemma_natural_bound, lemma_pow10_monotone, lemma_pow10_values, lemma_strip_zeros, natural,
    number, pow10, sign_byte, strip_zeros, zero,
};
use crate::frame_reread::lemma_drop_to;
use crate::reread::{lemma_ascii_columns, lemma_digit_run_to, lemma_skip_blanks, printable};
use crate::text::{blank, columns, spaces, trim_of};

verus! {

/// The number that decimal digits state: each times ten to the number of digits after it.
pub open spec fn place_value(b: Seq<u8>) -> nat
    decreases b.len(),
{
    if b.len() == 0 {
        0
    } else {
        (b[0] - 48) as nat * pow10((b.len() - 1) as nat) + place_value(b.drop_first())
    }
}

/// Whether bytes are decimal digits.
pub open spec fn digits_only(b: Seq<u8>) -> bool {
    forall|k: int| 0 <= k < b.len() ==> 48 <= #[trigger] b[k] <= 57
}

/// Whether a text is nothing, `+` or `-`.
pub open spec fn sign_text(b: Seq<u8>) -> bool {
    b.len() == 0 || b == seq![43u8] || b == seq![45u8]
}

/// A number in parts: a sign, digits, a point and more digits, and a power of ten.
pub ghost struct NumberParts {
    /// The sign.
    pub sign: Seq<u8>,
    /// The digits before the point.
    pub whole: Seq<u8>,
    /// The point, or nothing.
    pub point: Seq<u8>,
    /// The digits after the point.
    pub fraction: Seq<u8>,
    /// What marks the power of ten, or nothing.
    pub mark: Seq<u8>,
    /// The sign of the power.
    pub power_sign: Seq<u8>,
    /// The digits of the power.
    pub power: Seq<u8>,
}

impl NumberParts {
    /// The text of the parts.
    pub open spec fn text(self) -> Seq<u8> {
        self.sign + self.whole + self.point + self.fraction + self.mark + self.power_sign
            + self.power
    }

    /// Whether the parts are those of a number.
    pub open spec fn formed(self) -> bool {
        &&& sign_text(self.sign)
        &&& digits_only(self.whole)
        &&& self.point == seq![46u8] || (self.point.len() == 0 && self.fraction.len() == 0)
        &&& digits_only(self.fraction)
        &&& self.whole.len() + self.fraction.len() > 0
        &&& if self.mark.len() == 0 {
            self.power_sign.len() == 0 && self.power.len() == 0
        } else {
            &&& self.mark == seq![101u8] || self.mark == seq![69u8] || self.mark == seq![100u8]
                || self.mark == seq![68u8]
            &&& sign_text(self.power_sign)
            &&& digits_only(self.power)
            &&& self.power.len() > 0
        }
    }

    /// The digits, point aside.
    pub open spec fn count(self) -> nat {
        place_value(self.whole + self.fraction)
    }

    /// The power of ten of the last digit.
    pub open spec fn last_power(self) -> int {
        (if self.power_sign == seq![45u8] {
            -(place_value(self.power) as int)
        } else {
            place_value(self.power) as int
        }) - self.fraction.len()
    }
}

/// Digits appended and digits in front give the same number.
pub proof fn lemma_place_value(b: Seq<u8>)
    requires
        digits_only(b),
    ensures
        natural(b) == place_value(b),
    decreases b.len(),
{
    if b.len() == 1 {
        assert(b.drop_last() =~= Seq::empty());
        assert(b.drop_first() =~= Seq::empty());
        assert(pow10(0) == 1);
        assert(natural(Seq::<u8>::empty()) == 0 && place_value(Seq::<u8>::empty()) == 0);
        let d = (b[0] - 48) as nat;
        assert(d * pow10(0) == d) by (nonlinear_arith)
            requires
                pow10(0) == 1,
        ;
    } else if b.len() > 1 {
        let (head, tail) = (b.drop_last(), b.drop_first());
        let inner = tail.drop_last();
        assert(inner =~= head.drop_first());
        assert forall|k: int| 0 <= k < head.len() implies 48 <= #[trigger] head[k] <= 57 by {
            assert(b[k] == head[k]);
        }
        assert forall|k: int| 0 <= k < tail.len() implies 48 <= #[trigger] tail[k] <= 57 by {
            assert(b[k + 1] == tail[k]);
        }
        lemma_place_value(head);
        lemma_place_value(tail);
        assert forall|k: int| 0 <= k < inner.len() implies 48 <= #[trigger] inner[k] <= 57 by {
            assert(b[k + 1] == inner[k]);
        }
        lemma_place_value(inner);
        let p = pow10((b.len() - 2) as nat);
        assert(pow10((b.len() - 1) as nat) == 10 * p);
        let d = (b[0] - 48) as nat;
        assert(head[0] == b[0] && tail.last() == b.last());
        assert(d * (10 * p) == (d * p) * 10) by (nonlinear_arith);
        assert(natural(b) == natural(head) * 10 + (b.last() - 48) as nat);
        assert(natural(tail) == natural(inner) * 10 + (b.last() - 48) as nat);
        assert(place_value(head) == d * p + place_value(head.drop_first()));
        assert(place_value(b) == d * pow10((b.len() - 1) as nat) + place_value(tail));
    } else {
        assert(natural(b) == 0 && place_value(b) == 0);
    }
}

/// Where the parts of a number stand in its text.
#[verifier::spinoff_prover]
#[verifier::rlimit(40)]
proof fn lemma_parts_read(n: NumberParts)
    requires
        n.formed(),
    ensures
        ({
            let b = n.text();
            let s = n.sign.len() as int;
            let i = s + n.whole.len();
            let f = i + n.point.len();
            let j = f + n.fraction.len();
            &&& s == (if b.len() > 0 && sign_byte(b[0]) {
                1int
            } else {
                0
            })
            &&& digit_run(b, s) == i
            &&& f == (if i < b.len() && b[i] == 46 {
                i + 1
            } else {
                i
            })
            &&& digit_run(b, f) == j
            &&& b.subrange(s, i) == n.whole
            &&& b.subrange(f, j) == n.fraction
            &&& b.len() > 0 && b[0] == 45 <==> n.sign == seq![45u8]
            &&& exponent_part(b, j) == Some(n.last_power() + n.fraction.len())
        }),
{
    let b = n.text();
    let s = n.sign.len() as int;
    let i = s + n.whole.len();
    let f = i + n.point.len();
    let j = f + n.fraction.len();
    let e = j + n.mark.len();
    let x = e + n.power_sign.len();
    assert(b.subrange(0, s) =~= n.sign);
    assert(b.subrange(s, i) =~= n.whole);
    assert(b.subrange(i, f) =~= n.point);
    assert(b.subrange(f, j) =~= n.fraction);
    assert(b.subrange(j, e) =~= n.mark);
    assert(b.subrange(e, x) =~= n.power_sign);
    assert(b.subrange(x, b.len() as int) =~= n.power);
    assert forall|k: int| s <= k < i implies digit(#[trigger] b[k]) by {
        assert(n.whole[k - s] == b[k]);
    }
    assert forall|k: int| f <= k < j implies digit(#[trigger] b[k]) by {
        assert(n.fraction[k - f] == b[k]);
    }
    assert forall|k: int| x <= k < b.len() implies digit(#[trigger] b[k]) by {
        assert(n.power[k - x] == b[k]);
    }
    if n.sign.len() > 0 {
        assert(b[0] == n.sign[0]);
    } else if n.whole.len() > 0 {
        assert(b[0] == n.whole[0]);
    } else {
        assert(b[0] == n.point[0]);
    }
    if n.point.len() > 0 {
        assert(b[i] == n.point[0]);
    }
    if n.mark.len() > 0 {
        assert(b[j] == n.mark[0]);
        if n.power_sign.len() > 0 {
            assert(b[e] == n.power_sign[0]);
        } else {
            assert(b[e] == n.power[0]);
        }
        lemma_digit_run_to(b, x, b.len() as int);
        lemma_place_value(n.power);
    } else {
        assert(n.power =~= Seq::empty());
        assert(j == b.len());
        assert(place_value(n.power) == 0);
    }
    lemma_digit_run_to(b, s, i);
    lemma_digit_run_to(b, f, j);
    if n.sign.len() > 0 {
        assert(n.sign =~= seq![b[0]]);
    }
    if n.power_sign.len() > 0 {
        assert(n.power_sign =~= seq![b[e]]);
    }
}

/// A text of a sign, digits with a point among them and a power of ten is the number they state:
/// the digits by their places, the point as many places from the right as there are digits after it,
/// times the power of ten. `k` trailing zeros are counted in the exponent.
pub proof fn law_number(n: NumberParts) -> (k: nat)
    requires
        n.formed(),
        n.whole.len() + n.fraction.len() <= 19,
        -280 <= n.last_power() <= 280,
    ensures
        n.count() == 0 ==> number(n.text()) == Some(zero()),
        n.count() > 0 ==> match number(n.text()) {
            Some(d) => {
                &&& d.negative == (n.sign == seq![45u8])
                &&& d.digits % 10 != 0
                &&& d.digits * pow10(k) == n.count()
                &&& d.exponent == n.last_power() + k
            },
            None => false,
        },
{
    reveal(number);
    reveal(in_double_range);
    lemma_parts_read(n);
    let digits = n.whole + n.fraction;
    assert forall|i: int| 0 <= i < digits.len() implies 48 <= #[trigger] digits[i] <= 57 by {
        if i < n.whole.len() {
            assert(digits[i] == n.whole[i]);
        } else {
            assert(digits[i] == n.fraction[i - n.whole.len()]);
        }
    }
    assert forall|i: int| 0 <= i < digits.len() implies digit(#[trigger] digits[i]) by {}
    lemma_place_value(digits);
    lemma_natural_bound(digits);
    lemma_pow10_values();
    lemma_pow10_monotone(digits.len(), 19);
    let c = n.count();
    let p = n.last_power();
    lemma_strip_zeros(c, p);
    lemma_digit_count(c);
    if c > 0 {
        if digit_count(c) > 19 {
            lemma_pow10_monotone(19, (digit_count(c) - 1) as nat);
        }
        lemma_strip_power(c, p);
        let (d, e) = strip_zeros(c, p);
        lemma_digit_count(d);
        (e - p) as nat
    } else {
        0
    }
}

/// Stripping zeros moves them to the exponent.
pub proof fn lemma_strip_power(digits: nat, exponent: int)
    requires
        digits > 0,
    ensures
        ({
            let (d, e) = strip_zeros(digits, exponent);
            e >= exponent && d * pow10((e - exponent) as nat) == digits
        }),
    decreases digits,
{
    if digits % 10 == 0 {
        let h = digits / 10;
        lemma_strip_power(h, exponent + 1);
        let (d, e) = strip_zeros(h, exponent + 1);
        let p = pow10((e - exponent - 1) as nat);
        assert(pow10((e - exponent) as nat) == 10 * p);
        assert(d * (10 * p) == 10 * (d * p)) by (nonlinear_arith);
    } else {
        assert(pow10(0) == 1);
        assert(digits * 1 == digits);
    }
}

/// A text of a sign and digits is the integer they state.
pub proof fn law_integer(sign: Seq<u8>, digits: Seq<u8>)
    requires
        sign_text(sign),
        digits_only(digits),
        1 <= digits.len() <= 18,
    ensures
        integer_text(sign + digits) == Some(
            if sign == seq![45u8] {
                -(place_value(digits) as int)
            } else {
                place_value(digits) as int
            },
        ),
{
    reveal(integer_text);
    let b = sign + digits;
    let s = sign.len() as int;
    assert(b.subrange(s, b.len() as int) =~= digits);
    assert forall|k: int| s <= k < b.len() implies digit(#[trigger] b[k]) by {
        assert(digits[k - s] == b[k]);
    }
    if s > 0 {
        assert(b[0] == sign[0]);
        assert(sign =~= seq![b[0]]);
    } else {
        assert(b[0] == digits[0]);
    }
    lemma_digit_run_to(b, s, b.len() as int);
    assert forall|i: int| 0 <= i < digits.len() implies digit(#[trigger] digits[i]) by {}
    lemma_place_value(digits);
    lemma_natural_bound(digits);
    lemma_pow10_values();
    lemma_pow10_monotone(digits.len(), 18);
    assert(pow10(19) == 10 * pow10(18));
}

/// Columns of a line of plain text are its bytes from one place to another, as far as it goes, and
/// blanks around what they hold do not count.
pub proof fn law_columns(before: Seq<u8>, left: nat, held: Seq<u8>, right: nat, after: Seq<u8>)
    requires
        printable(before + spaces(left) + held + spaces(right) + after),
        held.len() > 0,
        held[0] != 32,
        held.last() != 32,
    ensures
        ({
            let line = before + spaces(left) + held + spaces(right) + after;
            let from = before.len() as int;
            let to = from + left + held.len() + right;
            trim_of(columns(line, from, to)) == held && !blank(columns(line, from, to))
        }),
{
    let line = before + spaces(left) + held + spaces(right) + after;
    let from = before.len() as int;
    let to = from + left + held.len() + right;
    lemma_ascii_columns(line, from, to);
    let raw = spaces(left) + held + spaces(right);
    assert(line.subrange(from, to) =~= raw);
    assert forall|i: int| 0 <= i < raw.len() implies 32 <= (#[trigger] raw[i]) < 0x80 by {
        assert(line[from + i] == raw[i]);
    }
    lemma_held(left, held, right);
}

/// Blanks around a text are trimmed.
proof fn lemma_held(left: nat, held: Seq<u8>, right: nat)
    requires
        printable(spaces(left) + held + spaces(right)),
        held.len() > 0,
        held[0] != 32,
        held.last() != 32,
    ensures
        trim_of(spaces(left) + held + spaces(right)) == held,
    decreases right,
{
    let b = spaces(left) + held + spaces(right);
    let start = left as int;
    let end = left + held.len();
    assert(b[start] == held[0]);
    lemma_skip_blanks(b, 0, start);
    assert(b[end - 1] == held.last());
    lemma_drop_to(b, start, end as int, b.len() as int);
    assert(b.subrange(start, end as int) =~= held);
}

} // verus!

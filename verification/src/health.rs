//! Health and accuracy of records: what a store built from a file excludes, and the variance a
//! record's accuracy stands for.

use vstd::prelude::*;

use crate::decimal::{
    decimal_of, lemma_pow10_monotone, lemma_pow10_values, pow10, power_of_ten, zero, Decimal,
};
use crate::format::clamped;
use crate::id::GnssSystem;
use crate::record::{
    cnav_ura_nominal_m, positive, ura_nominal, BroadcastRecord, GlonassRecord, GroupDelay,
    SbasRecord,
};

verus! {

impl Decimal {
    /// Whether the number is at most `n` times ten to the minus `places`.
    pub open spec fn at_most(self, n: nat, places: nat) -> bool {
        let k = self.exponent + places;
        self.negative || if k >= 0 {
            self.digits * pow10(k as nat) <= n
        } else {
            self.digits <= n * pow10((-k) as nat)
        }
    }

    /// Whether the number is at most `n` times ten to the minus `places` (see [`Self::at_most`]).
    pub fn is_at_most(self, n: u64, places: u32) -> (r: bool)
        requires
            places <= 100,
        ensures
            r == self.at_most(n as nat, places as nat),
    {
        if self.negative {
            return true;
        }
        let k: i64 = self.exponent as i64 + places as i64;
        if self.digits == 0 {
            proof {
                if k >= 0 {
                    assert(0 * pow10(k as nat) == 0) by (nonlinear_arith);
                } else {
                    lemma_pow10_monotone(0, (-k) as nat);
                    assert(n * pow10((-k) as nat) >= 0) by (nonlinear_arith)
                        requires
                            n >= 0,
                            pow10((-k) as nat) >= 1,
                    ;
                }
            }
            return true;
        }
        if k > 38 {
            proof {
                lemma_pow10_values();
                lemma_pow10_monotone(38, k as nat);
                assert(self.digits * pow10(k as nat) > n) by (nonlinear_arith)
                    requires
                        self.digits >= 1,
                        pow10(k as nat) > n,
                ;
            }
            false
        } else if k >= 0 {
            let p: u128 = power_of_ten(k as u32);
            proof {
                lemma_pow10_monotone(0, k as nat);
                let d = self.digits as int;
                let q = n as int / p as int;
                vstd::arithmetic::div_mod::lemma_fundamental_div_mod(n as int, p as int);
                if d <= q {
                    assert(d * p <= n) by (nonlinear_arith)
                        requires
                            d <= q,
                            n >= p * q,
                            p >= 1,
                    ;
                } else {
                    assert(d * p > n) by (nonlinear_arith)
                        requires
                            d >= q + 1,
                            n < p * q + p,
                            p >= 1,
                    ;
                }
            }
            self.digits <= n as u128 / p
        } else if k < -38 {
            proof {
                lemma_pow10_values();
                assert(pow10(39) == 10 * pow10(38));
                lemma_pow10_monotone(39, (-k) as nat);
                if n > 0 {
                    assert(self.digits <= n * pow10((-k) as nat)) by (nonlinear_arith)
                        requires
                            self.digits <= pow10((-k) as nat),
                            n >= 1,
                    ;
                } else {
                    assert(n * pow10((-k) as nat) == 0) by (nonlinear_arith)
                        requires
                            n == 0,
                    ;
                }
            }
            n > 0
        } else {
            let p: u128 = power_of_ten((-k) as u32);
            proof {
                lemma_pow10_monotone(0, (-k) as nat);
                let d = self.digits as int;
                let q = d / p as int;
                let rest = d % p as int;
                vstd::arithmetic::div_mod::lemma_fundamental_div_mod(d, p as int);
                if q < n {
                    assert(d <= n * p) by (nonlinear_arith)
                        requires
                            d == p * q + rest,
                            rest < p,
                            q + 1 <= n,
                            p >= 1,
                    ;
                } else if q > n {
                    assert(d > n * p) by (nonlinear_arith)
                        requires
                            d == p * q + rest,
                            rest >= 0,
                            q >= n + 1,
                            p >= 1,
                    ;
                } else {
                    assert(n * p == p * q) by (nonlinear_arith)
                        requires
                            q == n,
                    ;
                }
            }
            let q: u128 = self.digits / p;
            q < n as u128 || (q == n as u128 && self.digits % p == 0)
        }
    }

    /// Whether the number is below `n` times ten to the minus `places`.
    pub open spec fn below(self, n: nat, places: nat) -> bool {
        let k = self.exponent + places;
        self.negative || if k >= 0 {
            self.digits * pow10(k as nat) < n
        } else {
            self.digits < n * pow10((-k) as nat)
        }
    }

    /// Whether the number is below `n` times ten to the minus `places` (see [`Self::below`]).
    pub fn is_below(self, n: u64, places: u32) -> (r: bool)
        requires
            places <= 100,
            n >= 1,
        ensures
            r == self.below(n as nat, places as nat),
    {
        let k: i64 = self.exponent as i64 + places as i64;
        if self.negative || k >= 0 {
            return self.is_at_most(n - 1, places);
        }
        if k >= -38 {
            let p: u128 = power_of_ten((-k) as u32);
            proof {
                lemma_pow10_monotone(0, (-k) as nat);
                let d = self.digits as int;
                let q = d / p as int;
                let rest = d % p as int;
                vstd::arithmetic::div_mod::lemma_fundamental_div_mod(d, p as int);
                if q < n {
                    assert(d < n * p) by (nonlinear_arith)
                        requires
                            d == p * q + rest,
                            rest < p,
                            q + 1 <= n,
                            p >= 1,
                    ;
                } else {
                    assert(d >= n * p) by (nonlinear_arith)
                        requires
                            d == p * q + rest,
                            rest >= 0,
                            q >= n,
                            p >= 1,
                    ;
                }
            }
            self.digits / p < n as u128
        } else {
            proof {
                lemma_pow10_values();
                assert(pow10(39) == 10 * pow10(38));
                lemma_pow10_monotone(39, (-k) as nat);
                assert(self.digits < n * pow10((-k) as nat)) by (nonlinear_arith)
                    requires
                        self.digits < pow10((-k) as nat),
                        n >= 1,
                ;
            }
            true
        }
    }

    /// The number rounded towards zero.
    pub open spec fn rounded_to_zero(self) -> int {
        let m = if self.exponent >= 0 {
            self.digits * pow10(self.exponent as nat)
        } else {
            self.digits as int / pow10((-self.exponent) as nat) as int
        };
        if self.negative {
            -m
        } else {
            m
        }
    }

    /// The number rounded towards zero, brought into the range of `i64`.
    pub fn to_word(self) -> (r: i64)
        ensures
            r == clamped(self.rounded_to_zero()),
    {
        let m: u128 = if self.digits == 0 {
            proof {
                if self.exponent >= 0 {
                    assert(0 * pow10(self.exponent as nat) == 0) by (nonlinear_arith);
                } else {
                    lemma_pow10_monotone(0, (-self.exponent) as nat);
                    vstd::arithmetic::div_mod::lemma_basic_div(
                        0,
                        pow10((-self.exponent) as nat) as int,
                    );
                }
            }
            0
        } else if self.exponent > 19 {
            proof {
                lemma_pow10_values();
                lemma_pow10_monotone(20, self.exponent as nat);
                assert(self.digits * pow10(self.exponent as nat) >= 100000000000000000000)
                    by (nonlinear_arith)
                    requires
                        self.digits >= 1,
                        pow10(self.exponent as nat) >= 100000000000000000000,
                ;
            }
            return if self.negative {
                i64::MIN
            } else {
                i64::MAX
            };
        } else if self.exponent >= 0 {
            let p: u128 = power_of_ten(self.exponent as u32);
            proof {
                lemma_pow10_values();
                lemma_pow10_monotone(0, self.exponent as nat);
                lemma_pow10_monotone(self.exponent as nat, 19);
            }
            if self.digits > 9223372036854775808 {
                proof {
                    assert(self.digits * p >= 9223372036854775809) by (nonlinear_arith)
                        requires
                            self.digits >= 9223372036854775809,
                            p >= 1,
                    ;
                }
                return if self.negative {
                    i64::MIN
                } else {
                    i64::MAX
                };
            }
            proof {
                assert(self.digits * p <= 9223372036854775808 * 10000000000000000000)
                    by (nonlinear_arith)
                    requires
                        self.digits <= 9223372036854775808,
                        p <= 10000000000000000000,
                ;
            }
            self.digits * p
        } else if self.exponent >= -38 {
            proof {
                lemma_pow10_monotone(0, (-self.exponent) as nat);
            }
            self.digits / power_of_ten((-self.exponent) as u32)
        } else {
            proof {
                lemma_pow10_values();
                assert(pow10(39) == 10 * pow10(38));
                lemma_pow10_monotone(39, (-self.exponent) as nat);
                vstd::arithmetic::div_mod::lemma_basic_div(
                    self.digits as int,
                    pow10((-self.exponent) as nat) as int,
                );
            }
            0
        };
        if self.negative {
            if m > 9223372036854775807 {
                i64::MIN
            } else {
                -(m as i64)
            }
        } else if m > 9223372036854775807 {
            i64::MAX
        } else {
            m as i64
        }
    }
}

/// The value a GLONASS field states for a group delay that is not known, 999999999.999.
pub open spec fn delay_unknown() -> Decimal {
    positive(999999999999, -3)
}

/// The word a GLONASS flag field states: the value converted to the nearest integer, as RINEX 3.05
/// section 6.9 reads a bitwise field. `None` when blank, not known (`999999999999`), or not a
/// non-negative value that fits `u32`.
pub open spec fn flags_word(value: Option<Decimal>) -> Option<u32> {
    match value {
        Some(d) => if d == positive(999999999999, 0) {
            None
        } else {
            d.nearest_word()
        },
        None => None,
    }
}

/// The word a GLONASS flag field states (see [`flags_word`]).
fn glonass_flags_word(value: Option<Decimal>) -> (r: Option<u32>)
    ensures
        r == flags_word(value),
{
    match value {
        Some(d) => {
            if d == (Decimal { negative: false, digits: 999999999999, exponent: 0 }) {
                None
            } else {
                d.to_nearest_word()
            }
        },
        None => None,
    }
}

/// Whether a GLONASS record reports its satellite healthy: health, the MSB of `Bn`, is 0; where the
/// health flags are stated with `AC` (bit 1) set, the almanac health `C` (bit 0) is 1; and where
/// they are stated, `l(3)` (bit 2) is 0, unless the status flags state a type (bits 7-8) other than
/// `01`.
pub open spec fn glonass_healthy(record: GlonassRecord) -> bool {
    &&& record.sv_health.digits == 0
    &&& match flags_word(record.health_flags) {
        None => true,
        Some(flags) => {
            &&& flags & 2 != 0 ==> flags & 1 != 0
            &&& flags & 4 != 0 ==> (flags_word(record.status_flags) matches Some(status) && (status
                >> 7) & 3 != 1)
        },
    }
}

/// The single-frequency (G1) group delay of a GLONASS record.
pub open spec fn glonass_delay(record: GlonassRecord) -> Option<GroupDelay> {
    match record.l1_l2_group_delay_field_s {
        Some(d) => if d == delay_unknown() {
            None
        } else {
            Some(GroupDelay::GlonassG1(d))
        },
        None => None,
    }
}

impl GlonassRecord {
    /// The L1/L2 group delay difference in seconds, or `None` when the record has no fourth orbit
    /// line, leaves the field blank, or states it as not known (`.999999999999E+09`).
    pub fn l1_l2_group_delay_s(&self) -> (r: Option<Decimal>)
        ensures
            r == (if self.l1_l2_group_delay_field_s == Some(delay_unknown()) {
                None
            } else {
                self.l1_l2_group_delay_field_s
            }),
    {
        match self.l1_l2_group_delay_field_s {
            Some(value) => {
                if value == (Decimal { negative: false, digits: 999999999999, exponent: -3 }) {
                    None
                } else {
                    Some(value)
                }
            },
            None => None,
        }
    }

    /// Single-frequency (G1) group delay; `None` where [`Self::l1_l2_group_delay_s`] is `None`.
    pub fn single_frequency_group_delay_s(&self) -> (r: Option<GroupDelay>)
        ensures
            r == glonass_delay(*self),
    {
        match self.l1_l2_group_delay_s() {
            Some(d) => Some(GroupDelay::GlonassG1(d)),
            None => None,
        }
    }

    /// The status flags as a word (see [`flags_word`]).
    pub fn status_flags_word(&self) -> (r: Option<u32>)
        ensures
            r == flags_word(self.status_flags),
    {
        glonass_flags_word(self.status_flags)
    }

    /// The health flags as a word (see [`flags_word`]).
    pub fn health_flags_word(&self) -> (r: Option<u32>)
        ensures
            r == flags_word(self.health_flags),
    {
        glonass_flags_word(self.health_flags)
    }

    /// Whether the record reports the satellite healthy (see [`glonass_healthy`]).
    pub fn is_healthy(&self) -> (r: bool)
        ensures
            r == glonass_healthy(*self),
    {
        if self.sv_health.digits != 0 {
            return false;
        }
        let flags: u32 = match self.health_flags_word() {
            Some(flags) => flags,
            None => {
                return true;
            },
        };
        if flags & 2 != 0 && flags & 1 == 0 {
            return false;
        }
        let l3_valid: bool = match self.status_flags_word() {
            Some(status) => (status >> 7) & 3 == 1,
            None => true,
        };
        !(flags & 4 != 0 && l3_valid)
    }
}

/// The URA values of indices 0-14 in hundredths of a meter; 6144 m past the table.
pub open spec fn ura_value(index: int) -> nat {
    if index == 0 {
        240
    } else if index == 1 {
        340
    } else if index == 2 {
        485
    } else if index == 3 {
        685
    } else if index == 4 {
        965
    } else if index == 5 {
        1365
    } else if index == 6 {
        2400
    } else if index == 7 {
        4800
    } else if index == 8 {
        9600
    } else if index == 9 {
        19200
    } else if index == 10 {
        38400
    } else if index == 11 {
        76800
    } else if index == 12 {
        153600
    } else if index == 13 {
        307200
    } else {
        614400
    }
}

/// The URA value of an index (see [`ura_value`]).
fn ura_hundredths(index: u8) -> (r: u64)
    ensures
        r == ura_value(index as int),
        r <= 614400,
{
    match index {
        0 => 240,
        1 => 340,
        2 => 485,
        3 => 685,
        4 => 965,
        5 => 1365,
        6 => 2400,
        7 => 4800,
        8 => 9600,
        9 => 19200,
        10 => 38400,
        11 => 76800,
        12 => 153600,
        13 => 307200,
        _ => 614400,
    }
}

/// The nominal GPS user range accuracy in meters for a 4-bit URA index; `None` for index 15, which
/// carries no accuracy prediction, and outside the index range.
pub fn gps_ura_index_to_meters(index: i64) -> (r: Option<Decimal>)
    ensures
        r == (if 0 <= index <= 14 {
            Some(scaled_number(ura_value(index as int) as int, 2))
        } else {
            None
        }),
{
    if 0 <= index && index <= 14 {
        Some(number_of(ura_hundredths(index as u8), 2))
    } else {
        None
    }
}

/// `n` times ten to the minus `places`.
pub open spec fn scaled_number(n: int, places: nat) -> Decimal {
    let d = decimal_of(n);
    if n == 0 {
        d
    } else {
        Decimal { exponent: (d.exponent - places) as i32, ..d }
    }
}

/// `n` times ten to the minus `places` (see [`scaled_number`]).
fn number_of(n: u64, places: u32) -> (r: Decimal)
    requires
        n <= 1000000000000000,
        places <= 10,
    ensures
        r == scaled_number(n as int, places as nat),
{
    let d = Decimal::from_integer(n as i64);
    if n == 0 {
        d
    } else {
        Decimal { negative: d.negative, digits: d.digits, exponent: d.exponent - places as i32 }
    }
}

/// The first URA index from `from` whose value is at least `value`, 15 past the table.
pub open spec fn ura_index_from(value: Decimal, from: int) -> int
    decreases 15 - from,
{
    if from >= 15 || value.at_most(ura_value(from), 2) {
        from
    } else {
        ura_index_from(value, from + 1)
    }
}

/// The URA index of an accuracy: the first whose value is at least it, 15 past the table.
pub open spec fn ura_index_of(value: Decimal) -> int {
    ura_index_from(value, 0)
}

/// The URA index of an accuracy (see [`ura_index_of`]).
pub fn ura_index(value: Decimal) -> (r: u8)
    ensures
        r == ura_index_of(value),
        r <= 15,
{
    let mut i: u8 = 0;
    while i < 15 && !value.is_at_most(ura_hundredths(i), 2)
        invariant
            i <= 15,
            ura_index_of(value) == ura_index_from(value, i as int),
        decreases 15 - i,
    {
        i = i + 1;
    }
    i
}

/// The standard deviation of an accuracy by its URA index, hundredths of a meter.
pub open spec fn ura_deviation(value: Decimal) -> nat {
    ura_value(ura_index_of(value))
}

/// The first number of steps from `from` whose upper midpoint is above `value`, where the steps
/// start at `start` and are `step` wide, hundredths of a meter.
pub open spec fn nearest_step(value: Decimal, start: int, step: int, from: int, last: int) -> int
    decreases last - from,
{
    if from >= last || !at_least_midpoint(value, start, step, from) {
        from
    } else {
        nearest_step(value, start, step, from + 1, last)
    }
}

/// Whether `value` is at least the midpoint above the step `n`.
pub open spec fn at_least_midpoint(value: Decimal, start: int, step: int, n: int) -> bool {
    !value.below((10 * start + 10 * step * n + 5 * step) as nat, 3)
}

/// The standard deviation of a Galileo SISA in hundredths of a meter, to the resolution of the SISA
/// index: 1 cm up to 0.49 m, 2 cm up to 0.98 m, 4 cm up to 1.96 m and 16 cm up to 6 m; 500 m for a
/// SISA below 0 or above 6 m, which is no accurate prediction.
pub open spec fn sisa_deviation(value: Decimal) -> nat {
    (if value.below_zero() || !value.at_most(600, 2) {
        50000
    } else if value.at_most(49, 2) {
        nearest_step(value, 0, 1, 0, 49)
    } else if value.at_most(98, 2) {
        50 + 2 * nearest_step(value, 50, 2, 0, 24)
    } else if value.at_most(196, 2) {
        100 + 4 * nearest_step(value, 100, 4, 0, 24)
    } else {
        200 + 16 * nearest_step(value, 200, 16, 0, 25)
    }) as nat
}

/// The nearest step (see [`nearest_step`]).
fn find_step(value: Decimal, start: u64, step: u64, last: u64) -> (r: u64)
    requires
        start <= 1000,
        1 <= step <= 100,
        last <= 100,
    ensures
        r == nearest_step(value, start as int, step as int, 0, last as int),
        r <= last,
{
    let mut n: u64 = 0;
    let mut up: bool = true;
    while n < last && up
        invariant
            n <= last,
            start <= 1000,
            1 <= step <= 100,
            last <= 100,
            up ==> nearest_step(value, start as int, step as int, 0, last as int) == nearest_step(
                value,
                start as int,
                step as int,
                n as int,
                last as int,
            ),
            !up ==> nearest_step(value, start as int, step as int, 0, last as int) == n,
        decreases
                last - n,
                if up {
                    1int
                } else {
                    0
                },
    {
        assert(step * n <= 10000) by (nonlinear_arith)
            requires
                step <= 100,
                n <= 100,
        ;
        let midpoint: u64 = 10 * start + 10 * (step * n) + 5 * step;
        assert(10 * step * n == 10 * (step * n)) by (nonlinear_arith);
        let above: bool = !value.is_below(midpoint, 3);
        if above {
            n = n + 1;
        } else {
            up = false;
        }
    }
    n
}

/// The standard deviation of a Galileo SISA (see [`sisa_deviation`]).
fn sisa_hundredths(value: Decimal) -> (r: u64)
    ensures
        r == sisa_deviation(value),
        r <= 50000,
{
    if (value.negative && value.digits > 0) || !value.is_at_most(600, 2) {
        50000
    } else if value.is_at_most(49, 2) {
        find_step(value, 0, 1, 49)
    } else if value.is_at_most(98, 2) {
        50 + 2 * find_step(value, 50, 2, 24)
    } else if value.is_at_most(196, 2) {
        100 + 4 * find_step(value, 100, 4, 24)
    } else {
        200 + 16 * find_step(value, 200, 16, 25)
    }
}

/// The standard deviation of a Keplerian record's accuracy in hundredths of a meter: the Galileo
/// SISA to the resolution of its index, the value of the URA index of any other accuracy.
pub open spec fn deviation(system: GnssSystem, accuracy: Decimal) -> nat {
    if system == GnssSystem::Galileo {
        sisa_deviation(accuracy)
    } else {
        ura_deviation(accuracy)
    }
}

/// The standard deviation of an accuracy (see [`deviation`]).
fn deviation_of(system: GnssSystem, accuracy: Decimal) -> (r: u64)
    ensures
        r == deviation(system, accuracy),
        r <= 614400,
{
    if system == GnssSystem::Galileo {
        sisa_hundredths(accuracy)
    } else {
        ura_hundredths(ura_index(accuracy))
    }
}

/// The square of a deviation in hundredths of a meter, in square meters.
pub open spec fn variance(deviation: nat) -> Decimal {
    scaled_number((deviation * deviation) as int, 4)
}

/// An accuracy or zero.
pub open spec fn accuracy_or_zero(accuracy: Option<Decimal>) -> Decimal {
    match accuracy {
        Some(a) => a,
        None => zero(),
    }
}

/// The square of a deviation (see [`variance`]).
fn variance_of(deviation: u64) -> (r: Decimal)
    requires
        deviation <= 614400,
    ensures
        r == variance(deviation as nat),
{
    assert(deviation * deviation <= 614400 * 614400) by (nonlinear_arith)
        requires
            deviation <= 614400,
    ;
    number_of(deviation * deviation, 4)
}

/// The ephemeris variance of a Keplerian record, square meters (see [`deviation`]); a blank
/// accuracy counts as 0.
pub fn keplerian_variance_m2(record: &BroadcastRecord) -> (r: Decimal)
    ensures
        r == variance(
            deviation(record.satellite_id.system, accuracy_or_zero(record.sv_accuracy_m)),
        ),
{
    let accuracy: Decimal = match record.sv_accuracy_m {
        Some(a) => a,
        None => Decimal::zero(),
    };
    variance_of(deviation_of(record.satellite_id.system, accuracy))
}

/// The ephemeris variance of an SBAS record, square meters, by the URA index of its accuracy; a
/// blank accuracy counts as 0.
pub fn sbas_variance_m2(record: &SbasRecord) -> (r: Decimal)
    ensures
        r == variance(ura_deviation(accuracy_or_zero(record.ura_m))),
{
    let accuracy: Decimal = match record.ura_m {
        Some(a) => a,
        None => Decimal::zero(),
    };
    variance_of(ura_hundredths(ura_index(accuracy)))
}

/// The ephemeris variance of a GLONASS record, square meters: the square of 5 m.
pub fn glonass_variance_m2() -> (r: Decimal)
    ensures
        r == variance(500),
{
    variance_of(500)
}

/// Whether a Keplerian record's health excludes it: the health word, read as an integer, is not 0,
/// with the lowest bit of a QZSS word (the L1C/A flag) left out.
pub open spec fn health_excluded(record: BroadcastRecord) -> bool {
    let word = clamped(record.sv_health.rounded_to_zero()) as i64;
    if record.satellite_id.system == GnssSystem::Qzss {
        word & 0xfe != 0
    } else {
        word != 0
    }
}

/// Whether a Keplerian record's health excludes it (see [`health_excluded`]).
pub fn keplerian_health_excluded(record: &BroadcastRecord) -> (r: bool)
    ensures
        r == health_excluded(*record),
{
    let word: i64 = record.sv_health.to_word();
    if record.satellite_id.system == GnssSystem::Qzss {
        word & 0xfe != 0
    } else {
        word != 0
    }
}

/// Whether a deviation in hundredths of a meter exceeds the largest accepted, 300 m.
pub open spec fn too_inaccurate(deviation: nat) -> bool {
    deviation > 30000
}

/// Whether a Keplerian record is excluded: by its health; a CNAV record with no URA prediction; or
/// by an accuracy whose deviation exceeds 300 m. An accuracy the record leaves blank excludes
/// nothing.
pub open spec fn excluded(record: BroadcastRecord) -> bool {
    ||| health_excluded(record)
    ||| record.message.cnav_family() && (match record.cnav {
        Some(cnav) => ura_nominal(cnav.ura_ed_index as int) is None,
        None => true,
    })
    ||| match record.sv_accuracy_m {
        Some(accuracy) => too_inaccurate(deviation(record.satellite_id.system, accuracy)),
        None => false,
    }
}

/// Whether a Keplerian record is excluded (see [`excluded`]).
pub fn keplerian_excluded(record: &BroadcastRecord) -> (r: bool)
    ensures
        r == excluded(*record),
{
    if keplerian_health_excluded(record) {
        return true;
    }
    if record.message.is_cnav_family() {
        let predicted: bool = match record.cnav {
            Some(cnav) => cnav_ura_nominal_m(cnav.ura_ed_index).is_some(),
            None => false,
        };
        if !predicted {
            return true;
        }
    }
    match record.sv_accuracy_m {
        Some(accuracy) => deviation_of(record.satellite_id.system, accuracy) > 30000,
        None => false,
    }
}

/// Whether an SBAS record is excluded: its health is not 0, or the deviation of its accuracy
/// exceeds 300 m.
pub open spec fn sbas_is_excluded(record: SbasRecord) -> bool {
    ||| clamped(record.health.rounded_to_zero()) != 0
    ||| match record.ura_m {
        Some(accuracy) => too_inaccurate(ura_deviation(accuracy)),
        None => false,
    }
}

/// Whether an SBAS record is excluded (see [`sbas_is_excluded`]).
pub fn sbas_excluded(record: &SbasRecord) -> (r: bool)
    ensures
        r == sbas_is_excluded(*record),
{
    record.health.to_word() != 0 || match record.ura_m {
        Some(accuracy) => ura_hundredths(ura_index(accuracy)) > 30000,
        None => false,
    }
}

} // verus!

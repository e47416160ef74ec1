//! CNAV-family records read back from what is written of them.

use vstd::prelude::*;

use crate::cnav::{
    cnav_bad_field, cnav_bad_status_field, cnav_delay, cnav_delay_at, cnav_delays, cnav_elements,
    cnav_lines, cnav_parameters, cnav_record, cnav_tail, cnav_top, int_at, optional_word,
    unavailable,
};
use crate::decimal::{
    decimal_of, digit_count, leading_exponent, lemma_digit_count, lemma_digit_count_between,
    lemma_formatted, lemma_pow10_add, lemma_pow10_monotone, lemma_pow10_values, lemma_strip_zeros,
    magnitude, pow10, rounded_exponent, strip_zeros, zero, Decimal,
};
use crate::error::Fault;
use crate::fields::{
    extra_departures, given, more_text, raw_at, record_epoch, stated_value, value_at, Layout,
};
use crate::id::GnssSatelliteId;
use crate::instant::{clock_civil, lemma_written_digits, settled, written, written_digits};
use crate::keplerian::clock_time;
use crate::lines::{cnav_lines_of, field_text, first_text, orbit_text, RecordColumns};
use crate::record::{BroadcastRecord, CnavParameters};
use crate::reread::{
    field_ok, lemma_clock_reads_back, lemma_field_text, lemma_first_text, lemma_orbit_text,
    lemma_raw_short, lemma_stated_wf, lemma_strip_value, plain_civil, printable, record_shape,
    thirteen_digits,
};
use crate::restate::lemma_v3_columns_clock;
use crate::time::{seconds_of, GnssWeekTow, Seconds, TimeScale, QUECTOS_PER_SECOND};

verus! {

/// A number of at most thirteen digits keeps the power of its first digit.
proof fn lemma_rounded_exponent(d: nat, e: int)
    requires
        0 < d < pow10(13),
    ensures
        rounded_exponent(d, e, 13) == leading_exponent(d, e),
        digit_count(d) <= 13,
{
    lemma_formatted(d, e, 13, false);
    lemma_digit_count(d);
    if digit_count(d) > 13 {
        lemma_pow10_monotone(13, (digit_count(d) - 1) as nat);
    }
}

/// An integer of at most ten digits is a number of at most thirteen.
pub proof fn lemma_integer_thirteen(n: int)
    requires
        -10000000000 < n < 10000000000,
    ensures
        thirteen_digits(decimal_of(n)),
        decimal_of(n).integer() == Some(n),
{
    lemma_pow10_values();
    let m = magnitude(n);
    if n == 0 {
        assert(pow10(0) == 1);
        assert(zero().signed_digits() * pow10(0) == 0);
    } else {
        lemma_strip_zeros(m, 0);
        lemma_strip_value(m, 0);
        let (d, e) = strip_zeros(m, 0);
        lemma_rounded_exponent(d, e);
        lemma_digit_count(m);
        if digit_count(m) > 13 {
            lemma_pow10_monotone(13, (digit_count(m) - 1) as nat);
        }
        lemma_digit_count(d);
        assert(leading_exponent(d, e) == leading_exponent(m, 0));
        assert(0 <= e <= 12);
        assert(-(d as int) * pow10(e as nat) == -(d * pow10(e as nat))) by (nonlinear_arith);
    }
}

/// A time is written in at most thirteen digits.
#[verifier::spinoff_prover]
#[verifier::rlimit(50)]
proof fn lemma_written_thirteen(s: Seconds)
    ensures
        thirteen_digits(written(s)),
{
    lemma_pow10_values();
    let n = magnitude(s.total());
    if n > 0 {
        lemma_written_digits(n);
        let (m, e) = written_digits(n);
        lemma_strip_zeros(m, e);
        let (d, x) = strip_zeros(m, e);
        lemma_rounded_exponent(d, x);
        lemma_digit_count(n);
        let c = digit_count(n);
        assert(c <= 58) by {
            if c > 58 {
                lemma_pow10_add(38, 20);
                lemma_pow10_monotone(58, (c - 1) as nat);
                assert(s.whole * QUECTOS_PER_SECOND <= 9223372036854775808 * QUECTOS_PER_SECOND)
                    by (nonlinear_arith)
                    requires
                        s.whole <= 9223372036854775808,
                ;
                assert(s.whole * QUECTOS_PER_SECOND >= -9223372036854775808 * QUECTOS_PER_SECOND)
                    by (nonlinear_arith)
                    requires
                        s.whole >= -9223372036854775808,
                ;
            }
        }
        lemma_digit_count_between(m, 13);
        assert(leading_exponent(m, e) == e + 12);
        assert(-42 <= e <= 16);
        lemma_digit_count(d);
    } else {
        assert(rounded_exponent(0, 0, 13) == 0);
    }
}

/// The value the writer states in the field `index` of a CNAV-family record.
pub open spec fn written_cnav(record: BroadcastRecord, cnav: CnavParameters, index: int) -> Option<
    Decimal,
> {
    let e = record.elements;
    let gd = record.group_delays;
    let tail = cnav_tail(record.message.cnav2());
    let top = settled(cnav.top, 3);
    if index == 0 {
        Some(record.clock.af0)
    } else if index == 1 {
        Some(record.clock.af1)
    } else if index == 2 {
        Some(record.clock.af2)
    } else if index == 3 {
        Some(cnav.adot_m_s)
    } else if index == 4 {
        Some(e.crs)
    } else if index == 5 {
        Some(e.delta_n)
    } else if index == 6 {
        Some(e.m0)
    } else if index == 7 {
        Some(e.cuc)
    } else if index == 8 {
        Some(e.e)
    } else if index == 9 {
        Some(e.cus)
    } else if index == 10 {
        Some(e.sqrt_a)
    } else if index == 11 {
        Some(written(top.tow_s))
    } else if index == 12 {
        Some(e.cic)
    } else if index == 13 {
        Some(e.omega0)
    } else if index == 14 {
        Some(e.cis)
    } else if index == 15 {
        Some(e.i0)
    } else if index == 16 {
        Some(e.crc)
    } else if index == 17 {
        Some(e.omega)
    } else if index == 18 {
        Some(e.omega_dot)
    } else if index == 19 {
        Some(e.idot)
    } else if index == 20 {
        Some(cnav.delta_n0_dot_rad_s2)
    } else if index == 21 {
        Some(decimal_of(cnav.ura_ned0_index as int))
    } else if index == 22 {
        Some(decimal_of(cnav.ura_ned1_index as int))
    } else if index == 23 {
        Some(decimal_of(cnav.ura_ed_index as int))
    } else if index == 24 {
        Some(record.sv_health)
    } else if index == 25 {
        gd.gps_tgd_s
    } else if index == 26 {
        Some(decimal_of(cnav.ura_ned2_index as int))
    } else if index == 27 {
        gd.cnav_isc_l1ca_s
    } else if index == 28 {
        gd.cnav_isc_l2c_s
    } else if index == 29 {
        gd.cnav_isc_l5i5_s
    } else if index == 30 {
        gd.cnav_isc_l5q5_s
    } else if index == tail {
        Some(cnav.transmission_time_sow)
    } else if index == tail + 1 {
        Some(decimal_of(top.week as int))
    } else if index == tail + 2 {
        match cnav.flags {
            Some(flags) => Some(decimal_of(flags as int)),
            None => None,
        }
    } else if index == 31 {
        gd.cnav_isc_l1cd_s
    } else if index == 32 {
        gd.cnav_isc_l1cp_s
    } else {
        None
    }
}

/// The number of fields of a CNAV-family record.
pub open spec fn cnav_fields(record: BroadcastRecord) -> int {
    cnav_tail(record.message.cnav2()) + 4
}

/// Whether the values of a CNAV-family record are written in their columns.
pub open spec fn cnav_fields_ok(record: BroadcastRecord, cnav: CnavParameters) -> bool {
    forall|i: int|
        0 <= i < cnav_fields(record) ==> field_ok(#[trigger] written_cnav(record, cnav, i))
}

/// The orbit line `k` of a CNAV-family record states four fields.
#[verifier::spinoff_prover]
#[verifier::rlimit(50)]
proof fn lemma_cnav_line(record: BroadcastRecord, cnav: CnavParameters, k: int)
    requires
        1 <= k < cnav_lines(record.message.cnav2()),
    ensures
        cnav_lines_of(record, cnav).len() == cnav_lines(record.message.cnav2()),
        cnav_lines_of(record, cnav)[k] == orbit_text(
            4,
            written_cnav(record, cnav, 4 * k - 1),
            written_cnav(record, cnav, 4 * k),
            written_cnav(record, cnav, 4 * k + 1),
            written_cnav(record, cnav, 4 * k + 2),
        ),
{
    if k == 1 {
    } else if k == 2 {
    } else if k == 3 {
    } else if k == 4 {
    } else if k == 5 {
    } else if k == 6 {
    } else if k == 7 {
    } else if k == 8 {
    } else {
        assert(k == 9);
    }
}

/// The fields of an orbit line of a CNAV-family record.
#[verifier::spinoff_prover]
#[verifier::rlimit(50)]
proof fn lemma_cnav_line_fields(record: BroadcastRecord, cnav: CnavParameters, k: int)
    requires
        1 <= k < cnav_lines(record.message.cnav2()),
        cnav_fields_ok(record, cnav),
    ensures
        ({
            let lines = cnav_lines_of(record, cnav);
            &&& printable(lines[k])
            &&& lines[k].len() == 80
            &&& lines[k][0] == 32
            &&& forall|i: int|
                4 * k - 1 <= i < 4 * k + 3 ==> #[trigger] raw_at(lines, Layout::V3, i)
                    == field_text(written_cnav(record, cnav, i))
        }),
{
    reveal(raw_at);
    let lines = cnav_lines_of(record, cnav);
    let a = written_cnav(record, cnav, 4 * k - 1);
    let b = written_cnav(record, cnav, 4 * k);
    let c = written_cnav(record, cnav, 4 * k + 1);
    let d = written_cnav(record, cnav, 4 * k + 2);
    lemma_cnav_line(record, cnav, k);
    lemma_orbit_text(a, b, c, d);
    assert forall|i: int| 4 * k - 1 <= i < 4 * k + 3 implies #[trigger] raw_at(
        lines,
        Layout::V3,
        i,
    ) == field_text(written_cnav(record, cnav, i)) by {
        vstd::arithmetic::div_mod::lemma_fundamental_div_mod_converse(
            i - 3,
            4,
            k - 1,
            i - (4 * k - 1),
        );
        assert(Layout::V3.field_at(i) == (k, 4 + 19 * (i - (4 * k - 1))));
    }
}

/// The fields of the lines a CNAV-family record is written in.
#[verifier::spinoff_prover]
#[verifier::rlimit(50)]
proof fn lemma_cnav_fields(record: BroadcastRecord, cnav: CnavParameters, second: nat)
    requires
        record.satellite_id.wf(),
        plain_civil(clock_civil(record.toc), second),
        cnav_fields_ok(record, cnav),
    ensures
        ({
            let lines = cnav_lines_of(record, cnav);
            &&& record_shape(lines, record.satellite_id)
            &&& lines.len() == cnav_lines(record.message.cnav2())
            &&& forall|i: int|
                0 <= i < cnav_fields(record) ==> #[trigger] raw_at(lines, Layout::V3, i)
                    == field_text(written_cnav(record, cnav, i))
            &&& lines[0] == first_text(
                RecordColumns::V3,
                record.satellite_id,
                clock_civil(record.toc),
                record.clock.af0,
                record.clock.af1,
                Some(record.clock.af2),
            )
        }),
{
    let lines = cnav_lines_of(record, cnav);
    lemma_cnav_line(record, cnav, 1);
    assert(field_ok(written_cnav(record, cnav, 0)));
    assert(field_ok(written_cnav(record, cnav, 1)));
    assert(field_ok(written_cnav(record, cnav, 2)));
    lemma_first_text(
        record.satellite_id,
        clock_civil(record.toc),
        second,
        record.clock.af0,
        record.clock.af1,
        Some(record.clock.af2),
    );
    assert forall|i: int| 0 <= i < cnav_fields(record) implies #[trigger] raw_at(
        lines,
        Layout::V3,
        i,
    ) == field_text(written_cnav(record, cnav, i)) by {
        if i >= 3 {
            lemma_cnav_line_fields(record, cnav, 1 + (i - 3) / 4);
        } else {
            reveal(raw_at);
        }
    }
    assert forall|k: int| 1 <= k < lines.len() implies printable(#[trigger] lines[k])
        && lines[k].len() == 80 && lines[k][0] == 32 by {
        lemma_cnav_line_fields(record, cnav, k);
    }
}

/// Whether a CNAV-family record read from lines reads back from what is written of it: it was read
/// without a departure, its values have at most thirteen digits, and its propagation epoch is one
/// that thirteen digits state.
pub open spec fn restatable_cnav(
    lines: Seq<Seq<u8>>,
    sat: GnssSatelliteId,
    token: Seq<u8>,
    record: BroadcastRecord,
) -> bool {
    &&& record.message.cnav_family()
    &&& cnav_record(lines, sat, token, record.message) == Ok::<
        (BroadcastRecord, Seq<Fault>),
        Fault,
    >((record, Seq::empty()))
    &&& sat.wf()
    &&& forall|i: int|
        0 <= i < 39 ==> (#[trigger] value_at(lines, Layout::V3, i) matches Some(d) ==> d.digits
            < pow10(13))
    &&& record.cnav matches Some(cnav) ==> seconds_of(written(cnav.top.tow_s)) == cnav.top.tow_s
}

/// What a CNAV-family record that is read holds.
proof fn lemma_cnav_read(
    lines: Seq<Seq<u8>>,
    sat: GnssSatelliteId,
    token: Seq<u8>,
    record: BroadcastRecord,
) -> (r: (u32, Seconds))
    requires
        record.message.cnav_family(),
        cnav_record(lines, sat, token, record.message) == Ok::<
            (BroadcastRecord, Seq<Fault>),
            Fault,
        >((record, Seq::empty())),
    ensures
        record.satellite_id == sat,
        clock_time(lines[0], Layout::V3, TimeScale::Gpst) == Some(r),
        record.toc == (GnssWeekTow { system: TimeScale::Gpst, week: r.0, tow_s: r.1 }),
        cnav_bad_field(lines, record.message.cnav2()) is None,
        record.cnav == Some(cnav_parameters(lines, record.message.cnav2())),
        record.elements == cnav_elements(lines, r.1),
        record.group_delays == cnav_delays(lines, record.message.cnav2()),
        record.sv_health == decimal_of(
            int_at(lines, 24, 0, if record.message.cnav2() { 1 } else { 7 })->0,
        ),
        record.clock.af0 == given(lines, Layout::V3, 0),
        record.clock.af1 == given(lines, Layout::V3, 1),
        record.clock.af2 == given(lines, Layout::V3, 2),
        record.clock.toc_sow == r.1,
{
    reveal(cnav_record);
    clock_time(lines[0], Layout::V3, TimeScale::Gpst)->0
}

/// A delay of a CNAV-family record is a value of its field, and not the value for none.
proof fn lemma_cnav_delay(lines: Seq<Seq<u8>>, index: int)
    ensures
        cnav_delay_at(lines, index) matches Some(d) ==> value_at(lines, Layout::V3, index) == Some(
            d,
        ) && !unavailable(d),
{
}

/// Each value written of a CNAV-family record has at most thirteen digits.
#[verifier::spinoff_prover]
#[verifier::rlimit(50)]
proof fn lemma_cnav_fields_ok(
    lines: Seq<Seq<u8>>,
    sat: GnssSatelliteId,
    token: Seq<u8>,
    record: BroadcastRecord,
)
    requires
        restatable_cnav(lines, sat, token, record),
    ensures
        record.cnav is Some,
        cnav_fields_ok(record, record.cnav->0),
        settled(record.cnav->0.top, 3) == record.cnav->0.top,
{
    let (week, tow) = lemma_cnav_read(lines, sat, token, record);
    let cnav2 = record.message.cnav2();
    let cnav = record.cnav->0;
    let v = |i: int| value_at(lines, Layout::V3, i);
    assert forall|i: int| 0 <= i < 39 implies field_ok(#[trigger] v(i)) by {
        lemma_raw_short(lines, Layout::V3, i);
        lemma_stated_wf(raw_at(lines, Layout::V3, i));
        assert(value_at(lines, Layout::V3, i) matches Some(d) ==> d.digits < pow10(13));
    }
    assert(cnav.top.in_week());
    assert(settled(cnav.top, 3) == cnav.top);
    lemma_written_thirteen(cnav.top.tow_s);
    lemma_integer_thirteen(cnav.ura_ned0_index as int);
    lemma_integer_thirteen(cnav.ura_ned1_index as int);
    lemma_integer_thirteen(cnav.ura_ned2_index as int);
    lemma_integer_thirteen(cnav.ura_ed_index as int);
    lemma_integer_thirteen(int_at(lines, 24, 0, if cnav2 { 1 } else { 7 })->0);
    lemma_integer_thirteen(cnav.top.week as int);
    if let Some(flags) = cnav.flags {
        lemma_integer_thirteen(flags as int);
    }
    lemma_cnav_delay(lines, 25);
    lemma_cnav_delay(lines, 27);
    lemma_cnav_delay(lines, 28);
    lemma_cnav_delay(lines, 29);
    lemma_cnav_delay(lines, 30);
    lemma_cnav_delay(lines, 31);
    lemma_cnav_delay(lines, 32);
    let tail = cnav_tail(cnav2);
    assert forall|i: int| 0 <= i < cnav_fields(record) implies field_ok(
        #[trigger] written_cnav(record, cnav, i),
    ) by {
        assert(field_ok(v(i)));
    }
}

/// A delay written as it was read is read as the same.
proof fn lemma_delay_again(
    lines: Seq<Seq<u8>>,
    record: BroadcastRecord,
    cnav: CnavParameters,
    written: Seq<Seq<u8>>,
    index: int,
)
    requires
        0 <= index < cnav_fields(record),
        cnav_fields_ok(record, cnav),
        raw_at(written, Layout::V3, index) == field_text(written_cnav(record, cnav, index)),
        written_cnav(record, cnav, index) == cnav_delay_at(lines, index),
    ensures
        cnav_delay(raw_at(written, Layout::V3, index)) is Ok,
        cnav_delay_at(written, index) == cnav_delay_at(lines, index),
{
    assert(field_ok(written_cnav(record, cnav, index)));
    lemma_field_text(written_cnav(record, cnav, index));
    lemma_cnav_delay(lines, index);
}

/// An integer written is read as the same.
proof fn lemma_int_again(
    record: BroadcastRecord,
    cnav: CnavParameters,
    written: Seq<Seq<u8>>,
    index: int,
    n: int,
    min: int,
    max: int,
)
    requires
        raw_at(written, Layout::V3, index) == field_text(written_cnav(record, cnav, index)),
        written_cnav(record, cnav, index) == Some(decimal_of(n)),
        -10000000000 < n < 10000000000,
        min <= n <= max,
    ensures
        int_at(written, index, min, max) == Some(n),
{
    lemma_integer_thirteen(n);
    lemma_field_text(written_cnav(record, cnav, index));
}

/// The parts of a CNAV-family record written are read as they were.
#[verifier::spinoff_prover]
#[verifier::rlimit(50)]
proof fn lemma_cnav_parts(
    lines: Seq<Seq<u8>>,
    sat: GnssSatelliteId,
    token: Seq<u8>,
    record: BroadcastRecord,
    written: Seq<Seq<u8>>,
)
    requires
        restatable_cnav(lines, sat, token, record),
        forall|i: int|
            0 <= i < cnav_fields(record) ==> #[trigger] raw_at(written, Layout::V3, i)
                == field_text(written_cnav(record, record.cnav->0, i)),
    ensures
        ({
            let cnav2 = record.message.cnav2();
            &&& cnav_bad_status_field(written, cnav2) is None
            &&& cnav_parameters(written, cnav2) == cnav_parameters(lines, cnav2)
            &&& cnav_delays(written, cnav2) == cnav_delays(lines, cnav2)
            &&& cnav_top(written, cnav2) == cnav_top(lines, cnav2)
            &&& cnav_top(lines, cnav2) is Some
            &&& int_at(written, cnav_tail(cnav2) + 1, 0, u32::MAX as int) is Some
            &&& int_at(written, 24, 0, if cnav2 { 1 } else { 7 }) == int_at(
                lines,
                24,
                0,
                if cnav2 { 1 } else { 7 },
            )
        }),
{
    let (week, tow) = lemma_cnav_read(lines, sat, token, record);
    lemma_cnav_fields_ok(lines, sat, token, record);
    let cnav = record.cnav->0;
    let cnav2 = record.message.cnav2();
    let tail = cnav_tail(cnav2);
    assert(cnav_bad_status_field(lines, cnav2) is None);
    lemma_delay_again(lines, record, cnav, written, 25);
    lemma_delay_again(lines, record, cnav, written, 27);
    lemma_delay_again(lines, record, cnav, written, 28);
    lemma_delay_again(lines, record, cnav, written, 29);
    lemma_delay_again(lines, record, cnav, written, 30);
    if cnav2 {
        lemma_delay_again(lines, record, cnav, written, 31);
        lemma_delay_again(lines, record, cnav, written, 32);
    }
    lemma_int_again(record, cnav, written, 21, cnav.ura_ned0_index as int, -16, 15);
    lemma_int_again(record, cnav, written, 22, cnav.ura_ned1_index as int, 0, 7);
    lemma_int_again(record, cnav, written, 23, cnav.ura_ed_index as int, -16, 15);
    lemma_int_again(record, cnav, written, 26, cnav.ura_ned2_index as int, 0, 7);
    let top = if cnav2 { 1int } else { 7 };
    lemma_int_again(record, cnav, written, 24, int_at(lines, 24, 0, top)->0, 0, top);
    lemma_int_again(record, cnav, written, tail + 1, cnav.top.week as int, 0, u32::MAX as int);
    assert(field_ok(written_cnav(record, cnav, 3)));
    assert(field_ok(written_cnav(record, cnav, 11)));
    assert(field_ok(written_cnav(record, cnav, 20)));
    assert(field_ok(written_cnav(record, cnav, tail)));
    assert(field_ok(written_cnav(record, cnav, tail + 2)));
    lemma_field_text(written_cnav(record, cnav, 3));
    lemma_field_text(written_cnav(record, cnav, 11));
    lemma_field_text(written_cnav(record, cnav, 20));
    lemma_field_text(written_cnav(record, cnav, tail));
    lemma_field_text(written_cnav(record, cnav, tail + 2));
    assert(optional_word(raw_at(written, Layout::V3, tail + 2)) == Ok::<Option<u32>, ()>(
        cnav.flags,
    )) by {
        reveal(stated_value);
        if let Some(flags) = cnav.flags {
            lemma_integer_thirteen(flags as int);
        }
    }
    assert(cnav.top.in_week());
    assert(cnav.top.carried() == Some(cnav.top)) by {
        vstd::arithmetic::div_mod::lemma_fundamental_div_mod_converse(
            cnav.top.tow_s.whole as int,
            crate::time::SECONDS_PER_WEEK as int,
            0,
            cnav.top.tow_s.whole as int,
        );
    }
    assert(cnav_top(written, cnav2) == Some(cnav.top));
}

/// The elements of a CNAV-family record written are read as they were.
#[verifier::spinoff_prover]
#[verifier::rlimit(50)]
proof fn lemma_cnav_values(
    lines: Seq<Seq<u8>>,
    sat: GnssSatelliteId,
    token: Seq<u8>,
    record: BroadcastRecord,
    written: Seq<Seq<u8>>,
)
    requires
        restatable_cnav(lines, sat, token, record),
        forall|i: int|
            0 <= i < cnav_fields(record) ==> #[trigger] raw_at(written, Layout::V3, i)
                == field_text(written_cnav(record, record.cnav->0, i)),
    ensures
        forall|i: int|
            (0 <= i <= 2 || 4 <= i <= 10 || 12 <= i <= 19) ==> #[trigger] value_at(
                written,
                Layout::V3,
                i,
            ) == value_at(lines, Layout::V3, i) && value_at(lines, Layout::V3, i) is Some,
{
    let (week, tow) = lemma_cnav_read(lines, sat, token, record);
    lemma_cnav_fields_ok(lines, sat, token, record);
    let cnav = record.cnav->0;
    assert forall|i: int| (0 <= i <= 2 || 4 <= i <= 10 || 12 <= i <= 19) implies
        #[trigger] value_at(written, Layout::V3, i) == value_at(lines, Layout::V3, i)
        && value_at(lines, Layout::V3, i) is Some by {
        lemma_cnav_stated(lines, record.message.cnav2(), i);
        assert(field_ok(written_cnav(record, cnav, i)));
        lemma_field_text(written_cnav(record, cnav, i));
        assert(raw_at(written, Layout::V3, i) == field_text(written_cnav(record, cnav, i)));
        assert(written_cnav(record, cnav, i) == Some(given(lines, Layout::V3, i)));
    }
}

/// The elements of a CNAV-family record that is read are stated.
proof fn lemma_cnav_stated(lines: Seq<Seq<u8>>, cnav2: bool, i: int)
    requires
        cnav_bad_field(lines, cnav2) is None,
        0 <= i <= 2 || 4 <= i <= 10 || 12 <= i <= 19,
    ensures
        value_at(lines, Layout::V3, i) is Some,
{
}

/// A CNAV-family record that was read is written as lines that read back as the same record, without
/// a departure.
pub proof fn law_cnav_reads_back(
    lines: Seq<Seq<u8>>,
    sat: GnssSatelliteId,
    token: Seq<u8>,
    record: BroadcastRecord,
    other: Seq<u8>,
)
    requires
        restatable_cnav(lines, sat, token, record),
    ensures
        record.cnav is Some,
        record.satellite_id == sat,
        cnav_record(cnav_lines_of(record, record.cnav->0), sat, other, record.message) == Ok::<
            (BroadcastRecord, Seq<Fault>),
            Fault,
        >((record, Seq::empty())),
        record_shape(cnav_lines_of(record, record.cnav->0), sat),
        cnav_lines_of(record, record.cnav->0).len() == (if record.message.cnav2() {
            10int
        } else {
            9int
        }),
{
    let (week, tow) = lemma_cnav_read(lines, sat, token, record);
    lemma_cnav_fields_ok(lines, sat, token, record);
    let cnav = record.cnav->0;
    let written = cnav_lines_of(record, cnav);
    lemma_v3_columns_clock(lines[0], TimeScale::Gpst, week, tow);
    let second = lemma_clock_reads_back(lines[0], Layout::V3, TimeScale::Gpst, week, tow);
    lemma_cnav_fields(record, cnav, second);
    assert(field_ok(written_cnav(record, cnav, 0)));
    assert(field_ok(written_cnav(record, cnav, 1)));
    assert(field_ok(written_cnav(record, cnav, 2)));
    lemma_first_text(
        sat,
        clock_civil(record.toc),
        second,
        record.clock.af0,
        record.clock.af1,
        Some(record.clock.af2),
    );
    assert(clock_time(written[0], Layout::V3, TimeScale::Gpst) == clock_time(
        lines[0],
        Layout::V3,
        TimeScale::Gpst,
    )) by {
        reveal(record_epoch);
    }
    lemma_cnav_parts(lines, sat, token, record, written);
    lemma_cnav_values(lines, sat, token, record, written);
    lemma_cnav_built(lines, sat, token, record, other, written);
}

/// A CNAV-family record is built alike of parts that are the same.
#[verifier::spinoff_prover]
#[verifier::rlimit(50)]
proof fn lemma_cnav_built(
    lines: Seq<Seq<u8>>,
    sat: GnssSatelliteId,
    token: Seq<u8>,
    record: BroadcastRecord,
    other: Seq<u8>,
    written: Seq<Seq<u8>>,
)
    requires
        record.message.cnav_family(),
        cnav_record(lines, sat, token, record.message) == Ok::<
            (BroadcastRecord, Seq<Fault>),
            Fault,
        >((record, Seq::empty())),
        written.len() == cnav_lines(record.message.cnav2()),
        clock_time(written[0], Layout::V3, TimeScale::Gpst) == clock_time(
            lines[0],
            Layout::V3,
            TimeScale::Gpst,
        ),
        forall|i: int|
            (0 <= i <= 2 || 4 <= i <= 10 || 12 <= i <= 19) ==> #[trigger] value_at(
                written,
                Layout::V3,
                i,
            ) == value_at(lines, Layout::V3, i) && value_at(lines, Layout::V3, i) is Some,
        ({
            let cnav2 = record.message.cnav2();
            &&& cnav_bad_status_field(written, cnav2) is None
            &&& cnav_parameters(written, cnav2) == cnav_parameters(lines, cnav2)
            &&& cnav_delays(written, cnav2) == cnav_delays(lines, cnav2)
            &&& cnav_top(written, cnav2) == cnav_top(lines, cnav2)
            &&& cnav_top(lines, cnav2) is Some
            &&& int_at(written, cnav_tail(cnav2) + 1, 0, u32::MAX as int) is Some
            &&& int_at(written, 24, 0, if cnav2 { 1 } else { 7 }) == int_at(
                lines,
                24,
                0,
                if cnav2 { 1 } else { 7 },
            )
        }),
    ensures
        cnav_record(written, sat, other, record.message) == Ok::<
            (BroadcastRecord, Seq<Fault>),
            Fault,
        >((record, Seq::empty())),
{
    reveal(cnav_record);
    let cnav2 = record.message.cnav2();
    let v = |i: int| value_at(written, Layout::V3, i);
    assert(v(0) is Some && v(1) is Some && v(2) is Some && v(4) is Some && v(5) is Some && v(
        6,
    ) is Some && v(7) is Some && v(8) is Some && v(9) is Some && v(10) is Some);
    assert(v(12) is Some && v(13) is Some && v(14) is Some && v(15) is Some && v(16) is Some && v(
        17,
    ) is Some && v(18) is Some && v(19) is Some);
    assert(cnav_bad_field(written, cnav2) is None);
    let (week, tow) = clock_time(lines[0], Layout::V3, TimeScale::Gpst)->0;
    assert(cnav_elements(written, tow) == cnav_elements(lines, tow));
    assert(!more_text(written, cnav_lines(cnav2)));
    assert(extra_departures(written, cnav_lines(cnav2), other) =~= Seq::empty());
}

} // verus!

//! The fields and the epoch of a record's lines.

use vstd::prelude::*;

use crate::decimal::{decimal_of, field_number, integer_text, read_field, read_integer, Decimal};
use crate::error::{bad_field, faults, Fault, NavParseError};
use crate::text::{
    blank, columns, is_blank, no_text, raw_field, slice, texts, trim, trim_of, utf8, word_positions,
    words_of,
};
use crate::time::{
    day_number, seconds_of, valid_date, week_epoch_day, GnssWeekTow, NavEpoch, Seconds, TimeScale,
    QUECTOS_PER_SECOND, SECONDS_PER_DAY, SECONDS_PER_WEEK,
};

verus! {

/// Column layout of a record's lines.
#[derive(Debug, Clone, Copy, PartialEq, Eq, Structural)]
pub enum Layout {
    /// RINEX 3 and 4, and lettered RINEX 2 extensions: a four-column prefix, the epoch in columns
    /// 5-23, fields of 19 columns from column 24 on the first line and from column 5 on the
    /// others.
    V3,
    /// RINEX 2 with a numeric PRN: a three-column prefix, the epoch in columns 4-22 with a
    /// two-digit year and `F5.1` seconds, fields from column 23 on the first line and from column
    /// 4 on the others.
    V2,
    /// Lettered RINEX 2 extension records: the version 3 columns with the epoch read as six
    /// numbers, a two-digit year allowed.
    V2Lettered,
}

impl Layout {
    /// Where the first field of a record's first line starts.
    pub open spec fn first_line_start(self) -> int {
        if self == Layout::V2 {
            22
        } else {
            23
        }
    }

    /// Where the first field of a record's other lines starts.
    pub open spec fn orbit_start(self) -> int {
        if self == Layout::V2 {
            3
        } else {
            4
        }
    }

    /// The line and the first column of the field `index` of a record: three fields on the first
    /// line, four on each other line.
    pub open spec fn field_at(self, index: int) -> (int, int) {
        if index < 3 {
            (0, self.first_line_start() + 19 * index)
        } else {
            (1 + (index - 3) / 4, self.orbit_start() + 19 * ((index - 3) % 4))
        }
    }

    /// The columns of the fields of a record's first line.
    pub fn first_line_fields(self) -> (r: [(usize, usize); 3])
        ensures
            forall|k: int|
                0 <= k < 3 ==> (#[trigger] r@[k]).0 == self.field_at(k).1 && r@[k].1
                    == self.field_at(k).1 + 19,
    {
        match self {
            Layout::V2 => [(22, 41), (41, 60), (60, 79)],
            Layout::V3 | Layout::V2Lettered => [(23, 42), (42, 61), (61, 80)],
        }
    }

    /// The columns of the fields of a record's other lines.
    pub fn orbit_fields(self) -> (r: [(usize, usize); 4])
        ensures
            forall|k: int|
                0 <= k < 4 ==> (#[trigger] r@[k]).0 == self.field_at(3 + k).1 && r@[k].1
                    == self.field_at(3 + k).1 + 19,
    {
        match self {
            Layout::V2 => [(3, 22), (22, 41), (41, 60), (60, 79)],
            Layout::V3 | Layout::V2Lettered => [(4, 23), (23, 42), (42, 61), (61, 80)],
        }
    }
}

/// The number a field states that its columns can also be written with (see
/// [`Decimal::fits_d19_12`]).
#[verifier::opaque]
pub open spec fn stated_value(raw: Seq<u8>) -> Option<Decimal> {
    match field_number(raw) {
        Some(d) => if d.fits_d19_12() {
            Some(d)
        } else {
            None
        },
        None => None,
    }
}

/// The text of the field `index` of a record's lines.
#[verifier::opaque]
pub open spec fn raw_at(lines: Seq<Seq<u8>>, layout: Layout, index: int) -> Seq<u8> {
    let (line, start) = layout.field_at(index);
    if line < lines.len() {
        columns(lines[line], start, start + 19)
    } else {
        Seq::empty()
    }
}

/// The value of the field `index` of a record's lines.
pub open spec fn value_at(lines: Seq<Seq<u8>>, layout: Layout, index: int) -> Option<Decimal> {
    stated_value(raw_at(lines, layout, index))
}

/// The number of fields of a record's lines.
pub open spec fn field_count(lines: int) -> int {
    if lines <= 0 {
        0
    } else {
        3 + 4 * (lines - 1)
    }
}

/// The number the columns `start..end` of a line state (see [`stated_value`]).
pub fn parse_field(line: &str, start: usize, end: usize) -> (r: Option<Decimal>)
    requires
        start <= end <= start + 19,
    ensures
        r == stated_value(columns(utf8(line@), start as int, end as int)),
        r matches Some(d) ==> d.wf(),
{
    stated_number(raw_field(line, start, end))
}

/// The number a field states (see [`stated_value`]).
pub fn stated_number(raw: &str) -> (r: Option<Decimal>)
    requires
        utf8(raw@).len() <= 19,
    ensures
        r == stated_value(utf8(raw@)),
        r matches Some(d) ==> d.wf(),
{
    proof {
        reveal(stated_value);
    }
    match read_field(raw) {
        Some(d) => if d.is_d19_12() {
            Some(d)
        } else {
            None
        },
        None => None,
    }
}

/// The text of the field `index` of a record's lines (see [`raw_at`]).
pub fn raw_record_field<'a>(lines: &[&'a str], layout: Layout, index: usize) -> (r: &'a str)
    ensures
        utf8(r@) == raw_at(texts(lines@), layout, index as int),
        utf8(r@).len() <= 19,
{
    proof {
        reveal(raw_at);
    }
    if index < 3 {
        let (start, end): (usize, usize) = layout.first_line_fields()[index];
        if lines.len() == 0 {
            return no_text();
        }
        raw_field(lines[0], start, end)
    } else {
        let line: usize = 1 + (index - 3) / 4;
        let (start, end): (usize, usize) = layout.orbit_fields()[(index - 3) % 4];
        if line >= lines.len() {
            return no_text();
        }
        raw_field(lines[line], start, end)
    }
}

/// The value of the field `index` of a record's lines (see [`value_at`]).
pub fn record_field(lines: &[&str], layout: Layout, index: usize) -> (r: Option<Decimal>)
    ensures
        r == value_at(texts(lines@), layout, index as int),
        r matches Some(d) ==> d.wf(),
{
    stated_number(raw_record_field(lines, layout, index))
}

/// The values of all fields of a record's lines: three from the first line, then four from each
/// following line, `None` for a blank or unreadable field.
pub fn record_fields(lines: &[&str], layout: Layout) -> (r: Vec<Option<Decimal>>)
    requires
        lines@.len() <= usize::MAX / 4,
    ensures
        r@.len() == field_count(lines@.len() as int),
        forall|k: int|
            0 <= k < r@.len() ==> #[trigger] r@[k] == value_at(texts(lines@), layout, k),
        forall|k: int|
            0 <= k < r@.len() ==> (#[trigger] r@[k] matches Some(d) ==> d.wf()),
{
    let count: usize = if lines.len() == 0 {
        0
    } else {
        3 + 4 * (lines.len() - 1)
    };
    let mut data: Vec<Option<Decimal>> = Vec::new();
    let mut i: usize = 0;
    while i < count
        invariant
            count == field_count(lines@.len() as int),
            i <= count,
            data@.len() == i,
            forall|k: int|
                0 <= k < i ==> #[trigger] data@[k] == value_at(texts(lines@), layout, k),
            forall|k: int| 0 <= k < i ==> (#[trigger] data@[k] matches Some(d) ==> d.wf()),
        decreases count - i,
    {
        data.push(record_field(lines, layout, i));
        i = i + 1;
    }
    data
}

/// The departure an optional field is: one that is not blank and states no value.
pub open spec fn stated_departures(raw: Seq<u8>, satellite: Seq<u8>, field: &'static str) -> Seq<
    Fault,
> {
    if blank(raw) || stated_value(raw) is Some {
        Seq::empty()
    } else {
        seq![bad_field(satellite, field)]
    }
}

/// Read an optional field the models do not use: blank is `None`; a value that does not read, or
/// cannot be written back in the `D19.12` field, is `None` with a departure.
pub fn stated_field(
    raw: &str,
    field: &'static str,
    sat: &str,
    departures: &mut Vec<NavParseError>,
) -> (r: Option<Decimal>)
    requires
        utf8(raw@).len() <= 19,
    ensures
        r == stated_value(utf8(raw@)),
        r matches Some(d) ==> d.wf(),
        faults(final(departures)@) == faults(old(departures)@) + stated_departures(
            utf8(raw@),
            utf8(sat@),
            field,
        ),
{
    let value = stated_number(raw);
    if value.is_none() && !is_blank(raw) {
        departures.push(NavParseError::bad(sat, field));
    }
    proof {
        assert(faults(departures@) =~= faults(old(departures)@) + stated_departures(
            utf8(raw@),
            utf8(sat@),
            field,
        ));
    }
    value
}

/// Whether a line from `from` on is not blank.
pub open spec fn more_text(lines: Seq<Seq<u8>>, from: int) -> bool {
    exists|i: int| from <= i < lines.len() && !blank(#[trigger] lines[i])
}

/// The departure lines past `expected` are, where one is not blank.
pub open spec fn extra_departures(lines: Seq<Seq<u8>>, expected: int, satellite: Seq<u8>) -> Seq<
    Fault,
> {
    if more_text(lines, expected) {
        seq![Fault::ExtraRecordLines(satellite)]
    } else {
        Seq::empty()
    }
}

/// Lines past `expected` in a block: a non-blank one is a departure.
pub fn check_extra_lines(
    lines: &[&str],
    expected: usize,
    sat: &str,
    departures: &mut Vec<NavParseError>,
)
    ensures
        faults(final(departures)@) == faults(old(departures)@) + extra_departures(
            texts(lines@),
            expected as int,
            utf8(sat@),
        ),
{
    let mut i: usize = expected;
    let ghost all = texts(lines@);
    while i < lines.len()
        invariant
            all == texts(lines@),
            expected <= i,
            *departures == *old(departures),
            forall|k: int| expected <= k < i && k < all.len() ==> blank(#[trigger] all[k]),
        decreases lines@.len() - i,
    {
        assert(all[i as int] == utf8(lines@[i as int]@));
        if !is_blank(lines[i]) {
            departures.push(NavParseError::ExtraRecordLines { satellite: sat.to_owned() });
            assert(faults(departures@) =~= faults(old(departures)@) + extra_departures(
                all,
                expected as int,
                utf8(sat@),
            ));
            return ;
        }
        i = i + 1;
    }
    assert(!more_text(all, expected as int));
    assert(faults(departures@) =~= faults(old(departures)@) + extra_departures(
        all,
        expected as int,
        utf8(sat@),
    ));
}

/// How far the seconds of an epoch may run: below 60 in a continuous scale, below 61 in UTC,
/// which labels a leap second 60.
#[derive(Debug, Clone, Copy, PartialEq, Eq, Structural)]
pub enum CivilSecondPolicy {
    /// Seconds below 60.
    Continuous,
    /// Seconds below 61.
    UtcLike,
}

/// A two-digit RINEX 2 year: below 80 is 20xx.
pub open spec fn full_year(year: int) -> int {
    if year < 80 {
        year + 2000
    } else {
        year + 1900
    }
}

/// A two-digit RINEX 2 year: below 80 is 20xx.
pub fn two_digit_year(year: i64) -> (r: i64)
    requires
        year <= i64::MAX - 2000,
    ensures
        r == full_year(year as int),
{
    if year < 80 {
        year + 2000
    } else {
        year + 1900
    }
}

/// The epoch of six numbers, where they are one.
pub open spec fn civil_epoch(
    year: int,
    month: int,
    day: int,
    hour: int,
    minute: int,
    second: Decimal,
    policy: CivilSecondPolicy,
) -> Option<NavEpoch> {
    let limit = if policy == CivilSecondPolicy::Continuous { 60int } else { 61 };
    if i32::MIN <= year <= i32::MAX && valid_date(year, month, day) && 0 <= hour <= 23 && 0
        <= minute <= 59 && 0 <= seconds_of(second).whole < limit {
        Some(
            NavEpoch {
                year: year as i32,
                month: month as u8,
                day: day as u8,
                hour: hour as u8,
                minute: minute as u8,
                second,
            },
        )
    } else {
        None
    }
}

/// The integer the columns `start..end` of a line state.
pub open spec fn int_columns(line: Seq<u8>, start: int, end: int) -> Option<int> {
    integer_text(trim_of(columns(line, start, end)))
}

/// The epoch of six read numbers, where each of them was read.
pub open spec fn read_epoch(
    year: Option<int>,
    month: Option<int>,
    day: Option<int>,
    hour: Option<int>,
    minute: Option<int>,
    second: Option<Decimal>,
    policy: CivilSecondPolicy,
) -> Option<NavEpoch> {
    match (year, month, day, hour, minute, second) {
        (Some(y), Some(m), Some(d), Some(h), Some(n), Some(s)) => civil_epoch(
            y,
            m,
            d,
            h,
            n,
            s,
            policy,
        ),
        _ => None,
    }
}

/// The epoch a record's first line states in a layout.
#[verifier::opaque]
pub open spec fn record_epoch(line: Seq<u8>, layout: Layout, policy: CivilSecondPolicy) -> Option<
    NavEpoch,
> {
    match layout {
        Layout::V3 => read_epoch(
            int_columns(line, 4, 8),
            int_columns(line, 9, 11),
            int_columns(line, 12, 14),
            int_columns(line, 15, 17),
            int_columns(line, 18, 20),
            match int_columns(line, 21, 23) {
                Some(s) => Some(decimal_of(s)),
                None => None,
            },
            policy,
        ),
        Layout::V2 => read_epoch(
            match int_columns(line, 3, 5) {
                Some(y) => Some(full_year(y)),
                None => None,
            },
            int_columns(line, 6, 8),
            int_columns(line, 9, 11),
            int_columns(line, 12, 14),
            int_columns(line, 15, 17),
            field_number(columns(line, 17, 22)),
            policy,
        ),
        Layout::V2Lettered => six_word_epoch(words_of(columns(line, 4, 23)), policy),
    }
}

/// The epoch six words state, a year below 100 being a two-digit one.
pub open spec fn six_word_epoch(words: Seq<Seq<u8>>, policy: CivilSecondPolicy) -> Option<
    NavEpoch,
> {
    if words.len() != 6 {
        None
    } else {
        read_epoch(
            match integer_text(words[0]) {
                Some(y) => Some(
                    if y < 100 {
                        full_year(y)
                    } else {
                        y
                    },
                ),
                None => None,
            },
            integer_text(words[1]),
            integer_text(words[2]),
            integer_text(words[3]),
            integer_text(words[4]),
            field_number(words[5]),
            policy,
        )
    }
}

/// The integer the columns `start..end` of a line state.
fn record_int(line: &str, start: usize, end: usize) -> (r: Option<i64>)
    requires
        start <= end <= start + 19,
    ensures
        r is Some == int_columns(utf8(line@), start as int, end as int) is Some,
        r matches Some(n) ==> int_columns(utf8(line@), start as int, end as int) == Some(n as int),
{
    read_integer(trim(raw_field(line, start, end)))
}

/// The epoch of six numbers, where they are one (see [`civil_epoch`]).
fn make_epoch(
    year: i64,
    month: i64,
    day: i64,
    hour: i64,
    minute: i64,
    second: Decimal,
    policy: CivilSecondPolicy,
) -> (r: Option<NavEpoch>)
    ensures
        r == civil_epoch(
            year as int,
            month as int,
            day as int,
            hour as int,
            minute as int,
            second,
            policy,
        ),
{
    if year < -2147483648 || year > 2147483647 || month < 1 || month > 12 {
        return None;
    }
    let whole: i64 = Seconds::from_decimal(second).whole;
    let limit: i64 = match policy {
        CivilSecondPolicy::Continuous => 60,
        CivilSecondPolicy::UtcLike => 61,
    };
    if day < 1 || day > crate::time::month_days(year, month) || hour < 0 || hour > 23 || minute < 0
        || minute > 59 || whole < 0 || whole >= limit {
        return None;
    }
    Some(
        NavEpoch {
            year: year as i32,
            month: month as u8,
            day: day as u8,
            hour: hour as u8,
            minute: minute as u8,
            second,
        },
    )
}

/// The epoch of six read numbers (see [`read_epoch`]).
fn epoch_of(
    year: Option<i64>,
    month: Option<i64>,
    day: Option<i64>,
    hour: Option<i64>,
    minute: Option<i64>,
    second: Option<Decimal>,
    policy: CivilSecondPolicy,
) -> (r: Option<NavEpoch>)
    ensures
        r == read_epoch(
            int_of(year),
            int_of(month),
            int_of(day),
            int_of(hour),
            int_of(minute),
            second,
            policy,
        ),
{
    match (year, month, day, hour, minute, second) {
        (Some(y), Some(m), Some(d), Some(h), Some(n), Some(s)) => make_epoch(
            y,
            m,
            d,
            h,
            n,
            s,
            policy,
        ),
        _ => None,
    }
}

/// A machine integer as an integer.
pub open spec fn int_of(n: Option<i64>) -> Option<int> {
    match n {
        Some(n) => Some(n as int),
        None => None,
    }
}

/// The word `k` of a text with words at `spans`.
fn word<'a>(text: &'a str, spans: &Vec<(usize, usize)>, k: usize) -> (r: &'a str)
    requires
        k < spans@.len(),
        spans@.len() == crate::text::word_spans(utf8(text@), 0).len(),
        forall|i: int|
            0 <= i < spans@.len() ==> (spans@[i].0 as int, spans@[i].1 as int)
                == #[trigger] crate::text::word_spans(utf8(text@), 0)[i],
        forall|i: int|
            0 <= i < spans@.len() ==> (#[trigger] spans@[i]).0 < spans@[i].1 <= utf8(text@).len()
                && crate::text::boundary(utf8(text@), spans@[i].0 as int)
                && crate::text::boundary(utf8(text@), spans@[i].1 as int),
    ensures
        utf8(r@) == words_of(utf8(text@))[k as int],
        utf8(r@).len() <= utf8(text@).len(),
{
    assert(crate::text::word_spans(utf8(text@), 0)[k as int] == (
        spans@[k as int].0 as int,
        spans@[k as int].1 as int,
    ));
    slice(text, spans[k].0, spans[k].1)
}

/// The epoch of a lettered RINEX 2 record: six words.
fn lettered_epoch(text: &str, policy: CivilSecondPolicy) -> (r: Option<NavEpoch>)
    requires
        utf8(text@).len() <= 19,
    ensures
        r == six_word_epoch(words_of(utf8(text@)), policy),
{
    let spans = word_positions(text, 0);
    if spans.len() != 6 {
        return None;
    }
    let year = match read_integer(word(text, &spans, 0)) {
        Some(y) => Some(
            if y < 100 {
                two_digit_year(y)
            } else {
                y
            },
        ),
        None => None,
    };
    epoch_of(
        year,
        read_integer(word(text, &spans, 1)),
        read_integer(word(text, &spans, 2)),
        read_integer(word(text, &spans, 3)),
        read_integer(word(text, &spans, 4)),
        read_field(word(text, &spans, 5)),
        policy,
    )
}

/// Read the epoch of a record's first line in `layout` (see [`record_epoch`]).
pub fn parse_record_epoch(
    l0: &str,
    layout: Layout,
    sat: &str,
    field_name: &'static str,
    policy: CivilSecondPolicy,
) -> (r: Result<NavEpoch, NavParseError>)
    ensures
        r matches Ok(epoch) ==> record_epoch(utf8(l0@), layout, policy) == Some(epoch),
        r matches Err(e) ==> record_epoch(utf8(l0@), layout, policy) is None && e@ == bad_field(
            utf8(sat@),
            field_name,
        ),
{
    proof {
        reveal(record_epoch);
    }
    let epoch = match layout {
        Layout::V3 => {
            let second = match record_int(l0, 21, 23) {
                Some(s) => Some(Decimal::from_integer(s)),
                None => None,
            };
            epoch_of(
                record_int(l0, 4, 8),
                record_int(l0, 9, 11),
                record_int(l0, 12, 14),
                record_int(l0, 15, 17),
                record_int(l0, 18, 20),
                second,
                policy,
            )
        },
        Layout::V2 => {
            let year = match record_int(l0, 3, 5) {
                Some(y) => if y <= 9223372036854773807 {
                    Some(two_digit_year(y))
                } else {
                    None
                },
                None => None,
            };
            epoch_of(
                year,
                record_int(l0, 6, 8),
                record_int(l0, 9, 11),
                record_int(l0, 12, 14),
                record_int(l0, 15, 17),
                read_field(raw_field(l0, 17, 22)),
                policy,
            )
        },
        Layout::V2Lettered => lettered_epoch(raw_field(l0, 4, 23), policy),
    };
    match epoch {
        Some(epoch) => Ok(epoch),
        None => Err(NavParseError::bad(sat, field_name)),
    }
}

/// The week of a scale an epoch lies in and the time from the week's start; `None` for an epoch
/// before the first week, or past the last one a record can state.
#[verifier::opaque]
pub open spec fn week_and_tow(epoch: NavEpoch, scale: TimeScale) -> Option<(u32, Seconds)> {
    let days = day_number(epoch.year as int, epoch.month as int, epoch.day as int)
        - week_epoch_day(scale);
    let second = seconds_of(epoch.second);
    if days < 0 || days / 7 > u32::MAX {
        None
    } else {
        Some(
            (
                (days / 7) as u32,
                Seconds {
                    whole: (days % 7 * SECONDS_PER_DAY + epoch.hour * 3600 + epoch.minute * 60
                        + second.whole) as i64,
                    quectos: second.quectos,
                },
            ),
        )
    }
}

/// The week and the time of week of an epoch (see [`week_and_tow`]).
pub fn epoch_week_tow(epoch: &NavEpoch, scale: TimeScale) -> (r: Option<(u32, Seconds)>)
    ensures
        r == week_and_tow(*epoch, scale),
        r matches Some((week, tow)) ==> tow.wf(),
        r matches Some((week, tow)) ==> seconds_of(epoch.second).whole < 60 && 0 <= seconds_of(
            epoch.second,
        ).whole && epoch.hour < 24 && epoch.minute < 60 ==> 0 <= tow.whole < SECONDS_PER_WEEK,
{
    proof {
        reveal(week_and_tow);
    }
    let start: i64 = crate::time::week_epoch(scale);
    let days: i64 = crate::time::date_number(epoch.year as i64, epoch.month, epoch.day) - start;
    if days < 0 || days / 7 > 4294967295 {
        return None;
    }
    let second: Seconds = Seconds::from_decimal(epoch.second);
    let whole: i64 = days % 7 * SECONDS_PER_DAY + epoch.hour as i64 * 3600 + epoch.minute as i64
        * 60 + second.whole;
    Some(((days / 7) as u32, Seconds { whole, quectos: second.quectos }))
}

/// The scale the records of a system are dated in.
pub open spec fn scale_of(system: crate::id::GnssSystem) -> TimeScale {
    match system {
        crate::id::GnssSystem::Galileo => TimeScale::Gst,
        crate::id::GnssSystem::BeiDou => TimeScale::Bdt,
        _ => TimeScale::Gpst,
    }
}

/// The scale the records of a system are dated in.
pub fn broadcast_time_scale(system: crate::id::GnssSystem) -> (r: TimeScale)
    ensures
        r == scale_of(system),
{
    match system {
        crate::id::GnssSystem::Galileo => TimeScale::Gst,
        crate::id::GnssSystem::BeiDou => TimeScale::Bdt,
        _ => TimeScale::Gpst,
    }
}

/// Half a week in 10^-30 s.
pub open spec fn half_week() -> int {
    302400 * QUECTOS_PER_SECOND
}

/// The week that places a time of week within half a week of `toc`, one week up or down at most.
pub open spec fn adjusted_week(week: u32, tow: Seconds, toc: GnssWeekTow) -> u32 {
    let dt = (week - toc.week) * SECONDS_PER_WEEK * QUECTOS_PER_SECOND + tow.total()
        - toc.tow_s.total();
    if dt < -half_week() && week < u32::MAX {
        (week + 1) as u32
    } else if dt > half_week() && week > 0 {
        (week - 1) as u32
    } else {
        week
    }
}

/// Move a week so a time of week lies within half a week of `toc` (see [`adjusted_week`]).
pub fn adjust_week_to(week: u32, tow: Seconds, toc: GnssWeekTow) -> (r: u32)
    requires
        tow.wf(),
        toc.wf(),
    ensures
        r == adjusted_week(week, tow, toc),
{
    let whole: i128 = (week as i128 - toc.week as i128) * 604800 + tow.whole as i128
        - toc.tow_s.whole as i128;
    let early: bool = whole < -302400 || (whole == -302400 && tow.quectos < toc.tow_s.quectos);
    let late: bool = whole > 302400 || (whole == 302400 && tow.quectos > toc.tow_s.quectos);
    proof {
        let dt = (week - toc.week) * SECONDS_PER_WEEK * QUECTOS_PER_SECOND + tow.total()
            - toc.tow_s.total();
        assert(dt == whole * QUECTOS_PER_SECOND + tow.quectos - toc.tow_s.quectos);
        assert(early == (dt < -half_week()));
        assert(late == (dt > half_week()));
    }
    if early {
        if week < 4294967295 {
            week + 1
        } else {
            week
        }
    } else if late {
        if week > 0 {
            week - 1
        } else {
            week
        }
    } else {
        week
    }
}

/// The first field of `required`, given by index and name, that states no value.
pub open spec fn missing(
    lines: Seq<Seq<u8>>,
    layout: Layout,
    required: Seq<(usize, &'static str)>,
) -> Option<&'static str>
    decreases required.len(),
{
    if required.len() == 0 {
        None
    } else if value_at(lines, layout, required[0].0 as int) is None {
        Some(required[0].1)
    } else {
        missing(lines, layout, required.drop_first())
    }
}

/// Where none of the required fields is missing, each states a value.
pub proof fn lemma_missing_none(
    lines: Seq<Seq<u8>>,
    layout: Layout,
    required: Seq<(usize, &'static str)>,
    k: int,
)
    requires
        missing(lines, layout, required) is None,
        0 <= k < required.len(),
    ensures
        value_at(lines, layout, required[k].0 as int) is Some,
    decreases required.len(),
{
    if k > 0 {
        lemma_missing_none(lines, layout, required.drop_first(), k - 1);
        assert(required.drop_first()[k - 1] == required[k]);
    }
}

/// The first field of `required` that states no value (see [`missing`]).
pub fn first_missing(lines: &[&str], layout: Layout, required: &[(usize, &'static str)]) -> (r:
    Option<&'static str>)
    ensures
        r == missing(texts(lines@), layout, required@),
        r is None ==> forall|k: int|
            0 <= k < required@.len() ==> value_at(
                texts(lines@),
                layout,
                (#[trigger] required@[k]).0 as int,
            ) is Some,
{
    let mut i: usize = 0;
    let ghost all = texts(lines@);
    assert(required@.skip(0) =~= required@);
    while i < required.len()
        invariant
            all == texts(lines@),
            i <= required@.len(),
            missing(all, layout, required@) == missing(all, layout, required@.skip(i as int)),
        decreases required@.len() - i,
    {
        let (index, name): (usize, &'static str) = required[i];
        assert(required@.skip(i as int)[0] == required@[i as int]);
        assert(required@.skip(i as int).drop_first() =~= required@.skip(i + 1));
        if record_field(lines, layout, index).is_none() {
            return Some(name);
        }
        i = i + 1;
    }
    proof {
        assert(required@.skip(i as int).len() == 0);
        assert forall|k: int| 0 <= k < required@.len() implies value_at(
            all,
            layout,
            (#[trigger] required@[k]).0 as int,
        ) is Some by {
            lemma_missing_none(all, layout, required@, k);
        }
    }
    None
}

/// The value of a field that states one.
pub open spec fn given(lines: Seq<Seq<u8>>, layout: Layout, index: int) -> Decimal {
    value_at(lines, layout, index)->0
}

/// The value of a field that states one.
pub fn given_field(lines: &[&str], layout: Layout, index: usize) -> (r: Decimal)
    requires
        value_at(texts(lines@), layout, index as int) is Some,
    ensures
        r == given(texts(lines@), layout, index as int),
        r.wf(),
{
    match record_field(lines, layout, index) {
        Some(d) => d,
        None => Decimal::zero(),
    }
}

/// An optional delay field: blank is no delay; `Err` for a value that does not read or cannot be
/// written back.
pub open spec fn optional_value(raw: Seq<u8>) -> Result<Option<Decimal>, ()> {
    if blank(raw) {
        Ok(None)
    } else if stated_value(raw) is None {
        Err(())
    } else {
        Ok(stated_value(raw))
    }
}

/// An optional delay field (see [`optional_value`]).
pub fn optional_delay(raw: &str) -> (r: Result<Option<Decimal>, ()>)
    requires
        utf8(raw@).len() <= 19,
    ensures
        r == optional_value(utf8(raw@)),
        r matches Ok(Some(d)) ==> d.wf(),
{
    if is_blank(raw) {
        return Ok(None);
    }
    match stated_number(raw) {
        Some(d) => Ok(Some(d)),
        None => Err(()),
    }
}

} // verus!

//! RINEX navigation header records.
//!
//! A header record's label is in columns 61-80; it is matched there, so a label that appears in a
//! comment or a value field is not taken for a record.

use vstd::prelude::*;

use crate::decimal::{digit_run, field_number, integer_text, natural, read_field, Decimal};
use crate::error::{Fault, NavParseError};
use crate::record::{no_iono, GalileoNequickCoeffs, IonoCorrections, KlobucharAlphaBeta, NavVersion};
use crate::text::{
    blank, columns, copy_option, is_blank, opt_utf8, optional_text, own, own_lines, raw_field, same,
    same_lines, same_option, slice, slice_of, strings, text_at, texts, trim, trim_end, trim_end_of,
    trim_of, utf8,
};

verus! {

/// One ionosphere-coefficient header record: RINEX 3/4 `IONOSPHERIC CORR`, or RINEX 2 `ION ALPHA`
/// (read as `GPSA`) and `ION BETA` (read as `GPSB`).
#[derive(Debug, Clone, PartialEq, Eq)]
pub struct HeaderIonoRow {
    /// Correction type (`GPSA`, `GPSB`, `GAL`, `QZSA`, `QZSB`, `BDSA`, `BDSB`, `IRNA`, `IRNB`),
    /// trimmed.
    pub label: String,
    /// The four coefficient columns as stated, `None` when blank.
    pub values: [Option<Decimal>; 4],
    /// RINEX 3.04 transmission time mark (column 55), when stated.
    pub time_mark: Option<char>,
    /// RINEX 3.04 satellite identifier (columns 57-59), when stated.
    pub satellite: Option<String>,
}

/// One time system correction header record: RINEX 3 `TIME SYSTEM CORR`, or RINEX 2
/// `DELTA-UTC: A0,A1,T,W` (read as `GPUT`).
#[derive(Debug, Clone, PartialEq, Eq)]
pub struct TimeSystemCorrection {
    /// Correction type (`GPUT`, `GLUT`, `GLGP`, `GAUT`, `GAGP`, `QZUT`, `QZGP`, `BDUT`, `SBUT`,
    /// `IRUT`, `IRGP`, ...), trimmed.
    pub code: String,
    /// `a0`, seconds.
    pub a0_s: Decimal,
    /// `a1`, seconds per second; `None` when blank.
    pub a1_s_s: Option<Decimal>,
    /// Reference time for the polynomial `T`, seconds into the week; `None` when blank.
    pub reference_time_s: Option<Decimal>,
    /// Reference week number `W`; `None` when blank.
    pub reference_week: Option<Decimal>,
    /// Source of the parameters (`S`, columns 52-56), when stated.
    pub source: Option<String>,
    /// UTC identifier (`U`, columns 58-59), when stated.
    pub utc_id: Option<String>,
}

/// The `PGM / RUN BY / DATE` record.
#[derive(Debug, Clone, PartialEq, Eq)]
pub struct PgmRunByDate {
    /// The program.
    pub program: String,
    /// Who ran it.
    pub run_by: String,
    /// When.
    pub date: String,
}

/// The `LEAP SECONDS` record.
#[derive(Debug, Clone, PartialEq, Eq)]
pub struct ObsLeapSeconds {
    /// Current leap seconds.
    pub current: i64,
    /// Future or past leap seconds.
    pub delta_future: Option<i64>,
    /// The week of the change.
    pub week: Option<i64>,
    /// The day of the change.
    pub day: Option<i64>,
    /// The time system of the week and day.
    pub time_system: Option<String>,
}

/// The header of a RINEX navigation file.
#[derive(Debug, Clone, PartialEq, Eq)]
pub struct NavHeader {
    /// Format version.
    pub version: NavVersion,
    /// File type, column 21: `N` for navigation data; RINEX 2 `G` (GLONASS) and `H` (SBAS), and
    /// the `J`/`L` extensions.
    pub file_type: char,
    /// Satellite system, column 41, when stated.
    pub satellite_system: Option<char>,
    /// `PGM / RUN BY / DATE`.
    pub program: Option<PgmRunByDate>,
    /// `COMMENT` texts (columns 1-60, trailing blanks removed), in order.
    pub comments: Vec<String>,
    /// The ionosphere coefficient sets the rows form.
    pub iono: IonoCorrections,
    /// Every ionosphere coefficient row, in order, including repeated labels.
    pub iono_rows: Vec<HeaderIonoRow>,
    /// Time system correction records, in order.
    pub time_system_corrections: Vec<TimeSystemCorrection>,
    /// `LEAP SECONDS`.
    pub leap_seconds: Option<ObsLeapSeconds>,
    /// Header records not listed above (`MERGED FILE`, `DOI`, `LICENSE OF USE`,
    /// `STATION INFORMATION`, RINEX 2 `CORR TO SYSTEM TIME`, ...), and records whose values could
    /// not be read, verbatim, in order.
    pub other_records: Vec<String>,
    /// The header's lines as read, through `END OF HEADER`; empty for a header built in code. The
    /// writer restates them when they still read as this header.
    pub text: Vec<String>,
}

/// What a [`HeaderIonoRow`] states, its texts as bytes.
pub ghost struct IonoRow {
    /// The correction type.
    pub label: Seq<u8>,
    /// The four coefficients.
    pub values: Seq<Option<Decimal>>,
    /// The time mark.
    pub mark: Option<char>,
    /// The satellite identifier.
    pub satellite: Option<Seq<u8>>,
}

/// What a [`TimeSystemCorrection`] states, its texts as bytes.
pub ghost struct Correction {
    /// The correction type.
    pub code: Seq<u8>,
    /// `a0`.
    pub a0: Decimal,
    /// `a1`.
    pub a1: Option<Decimal>,
    /// The reference time.
    pub time: Option<Decimal>,
    /// The reference week.
    pub week: Option<Decimal>,
    /// The source.
    pub source: Option<Seq<u8>>,
    /// The UTC identifier.
    pub utc_id: Option<Seq<u8>>,
}

/// What a [`PgmRunByDate`] states, its texts as bytes.
pub ghost struct Program {
    /// The program.
    pub program: Seq<u8>,
    /// Who ran it.
    pub run_by: Seq<u8>,
    /// When.
    pub date: Seq<u8>,
}

/// What an [`ObsLeapSeconds`] states, its text as bytes.
pub ghost struct Leap {
    /// Current leap seconds.
    pub current: int,
    /// Future or past leap seconds.
    pub future: Option<int>,
    /// The week.
    pub week: Option<int>,
    /// The day.
    pub day: Option<int>,
    /// The time system.
    pub system: Option<Seq<u8>>,
}

/// What a [`NavHeader`] states apart from its source text, its texts as bytes.
pub ghost struct Header {
    /// The version.
    pub version: NavVersion,
    /// The file type.
    pub file_type: char,
    /// The satellite system.
    pub satellite_system: Option<char>,
    /// The program record.
    pub program: Option<Program>,
    /// The comments.
    pub comments: Seq<Seq<u8>>,
    /// The ionosphere coefficient sets.
    pub iono: IonoCorrections,
    /// The ionosphere coefficient rows.
    pub rows: Seq<IonoRow>,
    /// The time system corrections.
    pub corrections: Seq<Correction>,
    /// The leap seconds.
    pub leap: Option<Leap>,
    /// The other records.
    pub other: Seq<Seq<u8>>,
}

impl View for HeaderIonoRow {
    type V = IonoRow;

    open spec fn view(&self) -> IonoRow {
        IonoRow {
            label: utf8(self.label@),
            values: self.values@,
            mark: self.time_mark,
            satellite: opt_utf8(self.satellite),
        }
    }
}

impl View for TimeSystemCorrection {
    type V = Correction;

    open spec fn view(&self) -> Correction {
        Correction {
            code: utf8(self.code@),
            a0: self.a0_s,
            a1: self.a1_s_s,
            time: self.reference_time_s,
            week: self.reference_week,
            source: opt_utf8(self.source),
            utc_id: opt_utf8(self.utc_id),
        }
    }
}

impl View for PgmRunByDate {
    type V = Program;

    open spec fn view(&self) -> Program {
        Program {
            program: utf8(self.program@),
            run_by: utf8(self.run_by@),
            date: utf8(self.date@),
        }
    }
}

impl View for ObsLeapSeconds {
    type V = Leap;

    open spec fn view(&self) -> Leap {
        Leap {
            current: self.current as int,
            future: crate::fields::int_of(self.delta_future),
            week: crate::fields::int_of(self.week),
            day: crate::fields::int_of(self.day),
            system: opt_utf8(self.time_system),
        }
    }
}

/// What rows state.
pub open spec fn row_views(rows: Seq<HeaderIonoRow>) -> Seq<IonoRow> {
    rows.map_values(|row: HeaderIonoRow| row@)
}

/// What corrections state.
pub open spec fn correction_views(rows: Seq<TimeSystemCorrection>) -> Seq<Correction> {
    rows.map_values(|row: TimeSystemCorrection| row@)
}

/// What an optional program record states.
pub open spec fn program_view(program: Option<PgmRunByDate>) -> Option<Program> {
    match program {
        Some(p) => Some(p@),
        None => None,
    }
}

/// What an optional leap seconds record states.
pub open spec fn leap_view(leap: Option<ObsLeapSeconds>) -> Option<Leap> {
    match leap {
        Some(l) => Some(l@),
        None => None,
    }
}

impl View for NavHeader {
    type V = Header;

    open spec fn view(&self) -> Header {
        Header {
            version: self.version,
            file_type: self.file_type,
            satellite_system: self.satellite_system,
            program: program_view(self.program),
            comments: strings(self.comments@),
            iono: self.iono,
            rows: row_views(self.iono_rows@),
            corrections: correction_views(self.time_system_corrections@),
            leap: leap_view(self.leap_seconds),
            other: strings(self.other_records@),
        }
    }
}

/// A header for a version with no records beyond the version line.
pub open spec fn plain_header(version: NavVersion) -> Header {
    Header {
        version,
        file_type: 'N',
        satellite_system: Some('M'),
        program: None,
        comments: Seq::empty(),
        iono: no_iono(),
        rows: Seq::empty(),
        corrections: Seq::empty(),
        leap: None,
        other: Seq::empty(),
    }
}

impl NavHeader {
    /// A header for `version` with no records beyond the version line, written with the file type
    /// `N` and the satellite system `M` (mixed).
    pub fn new(version: NavVersion) -> (r: NavHeader)
        ensures
            r@ == plain_header(version),
            r.text@.len() == 0,
    {
        let r = NavHeader {
            version,
            file_type: 'N',
            satellite_system: Some('M'),
            program: None,
            comments: Vec::new(),
            iono: IonoCorrections::default(),
            iono_rows: Vec::new(),
            time_system_corrections: Vec::new(),
            leap_seconds: None,
            other_records: Vec::new(),
            text: Vec::new(),
        };
        proof {
            assert(r@.comments =~= Seq::empty());
            assert(r@.rows =~= Seq::empty());
            assert(r@.corrections =~= Seq::empty());
            assert(r@.other =~= Seq::empty());
        }
        r
    }
}

/// Which header record a problem concerns, so a strict helper can report the ones it reads.
#[derive(Debug, Clone, Copy, PartialEq, Eq, Structural)]
pub enum HeaderField {
    /// An ionosphere coefficient record.
    Ionosphere,
    /// A time system correction record.
    TimeSystemCorrection,
    /// The leap seconds record.
    LeapSeconds,
}

/// A header record whose values could not be read: the record is kept verbatim and its values are
/// absent.
#[derive(Debug, Clone, PartialEq, Eq)]
pub struct HeaderIssue {
    /// 1-based line number.
    pub line: usize,
    /// The record concerned.
    pub field: HeaderField,
    /// The problem.
    pub error: NavParseError,
}

/// What a [`HeaderIssue`] states.
pub ghost struct Issue {
    /// 1-based line number.
    pub line: int,
    /// The record concerned.
    pub field: HeaderField,
    /// The problem.
    pub fault: Fault,
}

impl View for HeaderIssue {
    type V = Issue;

    open spec fn view(&self) -> Issue {
        Issue { line: self.line as int, field: self.field, fault: self.error@ }
    }
}

/// What issues state.
pub open spec fn issue_views(issues: Seq<HeaderIssue>) -> Seq<Issue> {
    issues.map_values(|issue: HeaderIssue| issue@)
}

/// The label of a header line: columns 61-80 exactly, with the trailing blanks of a label shorter
/// than the field removed. Text past column 80 is not part of the label, and a label that does
/// not start in column 61 is not one.
pub open spec fn label_bytes(line: Seq<u8>) -> Seq<u8> {
    trim_end_of(columns(line, 60, 80))
}

/// The label of a header line (see [`label_bytes`]).
pub fn header_label<'a>(line: &'a str) -> (r: &'a str)
    ensures
        utf8(r@) == label_bytes(utf8(line@)),
{
    trim_end(raw_field(line, 60, 80))
}

/// The header records that are read.
#[derive(Debug, Clone, Copy, PartialEq, Eq, Structural)]
pub enum Label {
    /// `RINEX VERSION / TYPE`.
    Version,
    /// `END OF HEADER`.
    End,
    /// `PGM / RUN BY / DATE`.
    Program,
    /// `COMMENT`.
    Comment,
    /// `IONOSPHERIC CORR`.
    Iono,
    /// RINEX 2 `ION ALPHA`.
    IonAlpha,
    /// RINEX 2 `ION BETA`.
    IonBeta,
    /// `TIME SYSTEM CORR`.
    TimeSystem,
    /// RINEX 2 `DELTA-UTC: A0,A1,T,W`.
    DeltaUtc,
    /// `LEAP SECONDS`.
    Leap,
    /// Any other record.
    Other,
}

/// The record a header line is.
pub open spec fn label_of(line: Seq<u8>) -> Label {
    let label = label_bytes(line);
    if label == utf8("RINEX VERSION / TYPE"@) {
        Label::Version
    } else if label == utf8("END OF HEADER"@) {
        Label::End
    } else if label == utf8("PGM / RUN BY / DATE"@) {
        Label::Program
    } else if label == utf8("COMMENT"@) {
        Label::Comment
    } else if label == utf8("IONOSPHERIC CORR"@) {
        Label::Iono
    } else if label == utf8("ION ALPHA"@) {
        Label::IonAlpha
    } else if label == utf8("ION BETA"@) {
        Label::IonBeta
    } else if label == utf8("TIME SYSTEM CORR"@) {
        Label::TimeSystem
    } else if label == utf8("DELTA-UTC: A0,A1,T,W"@) {
        Label::DeltaUtc
    } else if label == utf8("LEAP SECONDS"@) {
        Label::Leap
    } else {
        Label::Other
    }
}

/// The record a header line is (see [`label_of`]).
fn read_label(line: &str) -> (r: Label)
    ensures
        r == label_of(utf8(line@)),
{
    let label = header_label(line);
    if same(label, "RINEX VERSION / TYPE") {
        Label::Version
    } else if same(label, "END OF HEADER") {
        Label::End
    } else if same(label, "PGM / RUN BY / DATE") {
        Label::Program
    } else if same(label, "COMMENT") {
        Label::Comment
    } else if same(label, "IONOSPHERIC CORR") {
        Label::Iono
    } else if same(label, "ION ALPHA") {
        Label::IonAlpha
    } else if same(label, "ION BETA") {
        Label::IonBeta
    } else if same(label, "TIME SYSTEM CORR") {
        Label::TimeSystem
    } else if same(label, "DELTA-UTC: A0,A1,T,W") {
        Label::DeltaUtc
    } else if same(label, "LEAP SECONDS") {
        Label::Leap
    } else {
        Label::Other
    }
}

/// The first position at or after `i` that holds a point, or the end of the text.
pub open spec fn point_at(b: Seq<u8>, i: int) -> int
    decreases b.len() - i,
{
    if 0 <= i < b.len() && b[i] != 46 {
        point_at(b, i + 1)
    } else {
        i
    }
}

/// The version a text states: a major number from 2 to 4, a point, and a minor number of digits,
/// 255 at most.
pub open spec fn version_of(b: Seq<u8>) -> Option<NavVersion> {
    let p = point_at(b, 0);
    let major = integer_text(trim_of(b.subrange(0, p)));
    let stop = digit_run(b, p + 1);
    let minor = natural(b.subrange(p + 1, stop));
    match major {
        Some(m) => if p >= b.len() || !(2 <= m <= 4) || stop == p + 1 || minor > 255 {
            None
        } else {
            Some(NavVersion { major: m as u8, minor: minor as u8 })
        },
        None => None,
    }
}

/// Parse a RINEX version field (`F9.2`, columns 1-9), majors 2, 3 and 4 (see [`version_of`]).
pub fn parse_rinex_version(version: &str) -> (r: Option<NavVersion>)
    requires
        utf8(version@).len() <= 9,
    ensures
        r == version_of(utf8(version@)),
{
    let b = version.as_bytes();
    let mut p: usize = 0;
    while p < b.len() && b[p] != 46
        invariant
            b@ == utf8(version@),
            p <= b@.len(),
            point_at(b@, p as int) == point_at(b@, 0),
        decreases b@.len() - p,
    {
        p = p + 1;
    }
    if p >= b.len() {
        return None;
    }
    proof {
        crate::text::lemma_ascii_boundary(version@, p as int);
    }
    let major: i64 = match crate::decimal::read_integer(trim(slice(version, 0, p))) {
        Some(m) => m,
        None => {
            return None;
        },
    };
    if major < 2 || major > 4 {
        return None;
    }
    let stop: usize = crate::decimal::digits_end(b, p + 1);
    if stop == p + 1 {
        return None;
    }
    let minor: u128 = crate::decimal::natural_at(b, p + 1, stop);
    if minor > 255 {
        return None;
    }
    Some(NavVersion { major: major as u8, minor: minor as u8 })
}

/// The character in one column of a line.
pub open spec fn column_char(line: Seq<u8>, column: int) -> Option<char> {
    let t = slice_of(line, column, column + 1);
    if t.len() == 0 {
        None
    } else {
        Some(t[0] as char)
    }
}

/// The character in one column of a line that is not white space.
pub open spec fn column_mark(line: Seq<u8>, column: int) -> Option<char> {
    let t = slice_of(line, column, column + 1);
    if t.len() == 0 || crate::text::space_at(t, 0) > 0 {
        None
    } else {
        Some(t[0] as char)
    }
}

/// The byte in one column of a line; a text of one byte is an ASCII character.
fn column_byte(line: &str, column: usize) -> (r: Option<u8>)
    requires
        column < 100,
    ensures
        r is Some == (slice_of(utf8(line@), column as int, column + 1).len() > 0),
        r matches Some(b) ==> slice_of(utf8(line@), column as int, column + 1) == seq![b] && b
            < 0x80,
{
    let t = slice(line, column, column + 1);
    let b = t.as_bytes();
    if b.len() == 0 {
        None
    } else {
        assert(b@.len() == 1);
        proof {
            vstd::utf8::encode_utf8_valid_utf8(t@);
            assert(vstd::utf8::valid_first_scalar(b@));
        }
        assert(b@ =~= seq![b@[0]]);
        Some(b[0])
    }
}

/// The character in one column of a line (see [`column_char`]).
fn read_column(line: &str, column: usize) -> (r: Option<char>)
    requires
        column < 100,
    ensures
        r == column_char(utf8(line@), column as int),
{
    match column_byte(line, column) {
        Some(b) => Some(b as char),
        None => None,
    }
}

/// The character in one column of a line that is not white space (see [`column_mark`]).
fn read_mark(line: &str, column: usize) -> (r: Option<char>)
    requires
        column < 100,
    ensures
        r == column_mark(utf8(line@), column as int),
{
    match column_byte(line, column) {
        Some(b) => if (9 <= b && b <= 13) || b == 32 {
            None
        } else {
            Some(b as char)
        },
        None => None,
    }
}

/// Whether a version holds files of a type: `N` in every version, and RINEX 2 `G` (GLONASS), `H`
/// (SBAS) and the `J`/`L` extensions.
pub open spec fn supported_type(version: NavVersion, file_type: char) -> bool {
    file_type == 'N' || (version.major == 2 && (file_type == 'G' || file_type == 'H' || file_type
        == 'J' || file_type == 'L'))
}

/// The file types a version holds (see [`supported_type`]).
pub fn file_type_supported(version: NavVersion, file_type: char) -> (r: bool)
    ensures
        r == supported_type(version, file_type),
{
    match version.major {
        2 => file_type == 'N' || file_type == 'G' || file_type == 'H' || file_type == 'J'
            || file_type == 'L',
        _ => file_type == 'N',
    }
}

/// The version, file type and satellite system a `RINEX VERSION / TYPE` line states, where they
/// are supported.
pub open spec fn version_line(line: Seq<u8>) -> Option<(NavVersion, char, Option<char>)> {
    match (version_of(trim_of(columns(line, 0, 9))), column_char(line, 20)) {
        (Some(version), Some(file_type)) => if supported_type(version, file_type) {
            Some((version, file_type, column_mark(line, 40)))
        } else {
            None
        },
        _ => None,
    }
}

/// The version, file type and satellite system of a version line (see [`version_line`]).
fn read_version_line(line: &str) -> (r: Option<(NavVersion, char, Option<char>)>)
    ensures
        r == version_line(utf8(line@)),
{
    match (parse_rinex_version(trim(raw_field(line, 0, 9))), read_column(line, 20)) {
        (Some(version), Some(file_type)) => if file_type_supported(version, file_type) {
            Some((version, file_type, read_mark(line, 40)))
        } else {
            None
        },
        _ => None,
    }
}

/// An optional number of a header record: blank is none; `Err` for one that does not read.
pub open spec fn header_number(line: Seq<u8>, start: int, end: int) -> Result<Option<Decimal>, ()> {
    let raw = columns(line, start, end);
    if blank(raw) {
        Ok(None)
    } else {
        match field_number(raw) {
            Some(d) => Ok(Some(d)),
            None => Err(()),
        }
    }
}

/// An optional number of a header record (see [`header_number`]).
pub fn optional_header_number(line: &str, start: usize, end: usize) -> (r: Result<
    Option<Decimal>,
    (),
>)
    requires
        start <= end <= start + 19,
    ensures
        r == header_number(utf8(line@), start as int, end as int),
{
    let raw = raw_field(line, start, end);
    if is_blank(raw) {
        return Ok(None);
    }
    match read_field(raw) {
        Some(d) => Ok(Some(d)),
        None => Err(()),
    }
}

/// A coefficient row of a line with a label: four columns of twelve from `start` on, and the time
/// mark (column 55) and satellite (columns 57-59) of a RINEX 3.04 row.
pub open spec fn iono_row(line: Seq<u8>, label: Seq<u8>, start: int, marked: bool) -> IonoRow {
    IonoRow {
        label,
        values: Seq::new(
            4,
            |k: int| field_number(columns(line, start + 12 * k, start + 12 * k + 12)),
        ),
        mark: if marked {
            match text_at(line, 54, 55) {
                Some(t) => Some(t[0] as char),
                None => None,
            }
        } else {
            None
        },
        satellite: if marked {
            text_at(line, 56, 59)
        } else {
            None
        },
    }
}

/// Whether the fourth column of a coefficient row is not blank and states no number.
pub open spec fn fourth_unread(line: Seq<u8>, start: int) -> bool {
    let raw = columns(line, start + 36, start + 48);
    !blank(raw) && field_number(raw) is None
}

/// A coefficient row as read, with its 1-based line number and whether its fourth column does not
/// read.
pub struct NumberedIonoRow {
    /// 1-based line number.
    pub line: usize,
    /// The row.
    pub row: HeaderIonoRow,
    /// Whether the fourth column is not blank and does not read.
    pub fourth_unread: bool,
}

/// What a [`NumberedIonoRow`] states.
pub ghost struct ReadRow {
    /// 1-based line number.
    pub line: int,
    /// The row.
    pub row: IonoRow,
    /// Whether the fourth column is not blank and does not read.
    pub fourth_unread: bool,
}

impl View for NumberedIonoRow {
    type V = ReadRow;

    open spec fn view(&self) -> ReadRow {
        ReadRow { line: self.line as int, row: self.row@, fourth_unread: self.fourth_unread }
    }
}

/// What read rows state.
pub open spec fn read_rows(rows: Seq<NumberedIonoRow>) -> Seq<ReadRow> {
    rows.map_values(|row: NumberedIonoRow| row@)
}

/// The rows themselves.
pub open spec fn rows_only(rows: Seq<ReadRow>) -> Seq<IonoRow> {
    rows.map_values(|row: ReadRow| row.row)
}

/// Read a coefficient row (see [`iono_row`]).
fn read_iono_row(line: &str, line_no: usize, label: &str, start: usize, marked: bool) -> (r:
    NumberedIonoRow)
    requires
        start <= 5,
    ensures
        r@ == (ReadRow {
            line: line_no as int,
            row: iono_row(utf8(line@), utf8(label@), start as int, marked),
            fourth_unread: fourth_unread(utf8(line@), start as int),
        }),
{
    let values = [
        read_field(raw_field(line, start, start + 12)),
        read_field(raw_field(line, start + 12, start + 24)),
        read_field(raw_field(line, start + 24, start + 36)),
        read_field(raw_field(line, start + 36, start + 48)),
    ];
    let fourth_unread: bool = values[3].is_none() && !is_blank(
        raw_field(line, start + 36, start + 48),
    );
    let mut time_mark: Option<char> = None;
    let mut satellite: Option<String> = None;
    if marked {
        let t = trim(raw_field(line, 54, 55));
        let tb = t.as_bytes();
        if tb.len() > 0 {
            assert(tb@.len() == 1);
            proof {
                vstd::utf8::encode_utf8_valid_utf8(t@);
                assert(vstd::utf8::valid_first_scalar(tb@));
            }
            time_mark = Some(tb[0] as char);
        }
        satellite = optional_text(line, 56, 59);
    }
    let row = HeaderIonoRow { label: own(label), values, time_mark, satellite };
    proof {
        let stated = iono_row(utf8(line@), utf8(label@), start as int, marked);
        assert(row@.values =~= stated.values);
    }
    NumberedIonoRow { line: line_no, row, fourth_unread }
}

/// The last row of a label.
pub open spec fn last_row(rows: Seq<ReadRow>, label: Seq<u8>) -> Option<ReadRow>
    decreases rows.len(),
{
    if rows.len() == 0 {
        None
    } else if rows.last().row.label == label {
        Some(rows.last())
    } else {
        last_row(rows.drop_last(), label)
    }
}

/// Whether a row states its first `count` coefficients.
pub open spec fn row_given(row: IonoRow, count: int) -> bool {
    forall|k: int| 0 <= k < count ==> (#[trigger] row.values[k]) is Some
}

/// The four coefficients of the last row of a label, where it states them all.
pub open spec fn klobuchar_row(rows: Seq<ReadRow>, label: Seq<u8>) -> Option<[Decimal; 4]> {
    match last_row(rows, label) {
        Some(r) => if row_given(r.row, 4) {
            Some([r.row.values[0]->0, r.row.values[1]->0, r.row.values[2]->0, r.row.values[3]->0])
        } else {
            None
        },
        None => None,
    }
}

/// The Klobuchar set two rows form.
pub open spec fn klobuchar_pair(alpha: Option<[Decimal; 4]>, beta: Option<[Decimal; 4]>) -> Option<
    KlobucharAlphaBeta,
> {
    match (alpha, beta) {
        (Some(alpha), Some(beta)) => Some(KlobucharAlphaBeta { alpha, beta }),
        _ => None,
    }
}

/// Whether a Galileo row forms a set: its first three columns are stated and the fourth is stated
/// or blank.
pub open spec fn galileo_complete(row: ReadRow) -> bool {
    row_given(row.row, 3) && !row.fourth_unread
}

/// The last Galileo row, where it forms a set.
pub open spec fn galileo_row(rows: Seq<ReadRow>) -> Option<IonoRow> {
    match last_row(rows, utf8("GAL"@)) {
        Some(r) => if galileo_complete(r) {
            Some(r.row)
        } else {
            None
        },
        None => None,
    }
}

/// The coefficient sets rows form. GPS, QZSS, BeiDou and NavIC Klobuchar rows need all four
/// columns; Galileo needs the first three, and the fourth is the disturbance flags. A later row
/// of a label replaces an earlier one, also where it does not read and forms no set.
pub open spec fn iono_of(rows: Seq<ReadRow>) -> IonoCorrections {
    IonoCorrections {
        gps: klobuchar_pair(
            klobuchar_row(rows, utf8("GPSA"@)),
            klobuchar_row(rows, utf8("GPSB"@)),
        ),
        beidou: klobuchar_pair(
            klobuchar_row(rows, utf8("BDSA"@)),
            klobuchar_row(rows, utf8("BDSB"@)),
        ),
        galileo: match galileo_row(rows) {
            Some(row) => Some(
                GalileoNequickCoeffs {
                    ai0: row.values[0]->0,
                    ai1: row.values[1]->0,
                    ai2: row.values[2]->0,
                },
            ),
            None => None,
        },
        galileo_disturbance_flags: match galileo_row(rows) {
            Some(row) => row.values[3],
            None => None,
        },
        qzss: klobuchar_pair(
            klobuchar_row(rows, utf8("QZSA"@)),
            klobuchar_row(rows, utf8("QZSB"@)),
        ),
        navic: klobuchar_pair(
            klobuchar_row(rows, utf8("IRNA"@)),
            klobuchar_row(rows, utf8("IRNB"@)),
        ),
        beidou_bdgim: None,
    }
}

/// Whether a label is one of the Klobuchar rows.
pub open spec fn klobuchar_label(label: Seq<u8>) -> bool {
    ||| label == utf8("GPSA"@)
    ||| label == utf8("GPSB"@)
    ||| label == utf8("QZSA"@)
    ||| label == utf8("QZSB"@)
    ||| label == utf8("BDSA"@)
    ||| label == utf8("BDSB"@)
    ||| label == utf8("IRNA"@)
    ||| label == utf8("IRNB"@)
}

/// Whether a row of a known label forms no set.
pub open spec fn row_incomplete(row: ReadRow) -> bool {
    if klobuchar_label(row.row.label) {
        !row_given(row.row, 4)
    } else {
        row.row.label == utf8("GAL"@) && !galileo_complete(row)
    }
}

/// The problems of rows: one for each row of a known label that forms no set.
pub open spec fn iono_issues(rows: Seq<ReadRow>) -> Seq<Issue>
    decreases rows.len(),
{
    if rows.len() == 0 {
        Seq::empty()
    } else {
        let head = iono_issues(rows.drop_last());
        if row_incomplete(rows.last()) {
            head.push(
                Issue {
                    line: rows.last().line,
                    field: HeaderField::Ionosphere,
                    fault: Fault::BadHeaderField(utf8("ionospheric correction"@)),
                },
            )
        } else {
            head
        }
    }
}

/// The last row of a label.
fn find_row<'a>(rows: &'a Vec<NumberedIonoRow>, label: &str) -> (r: Option<&'a NumberedIonoRow>)
    ensures
        match r {
            Some(row) => last_row(read_rows(rows@), utf8(label@)) == Some(row@),
            None => last_row(read_rows(rows@), utf8(label@)) is None,
        },
{
    let ghost all = read_rows(rows@);
    let mut i: usize = rows.len();
    assert(all.subrange(0, i as int) =~= all);
    while i > 0
        invariant
            all == read_rows(rows@),
            i <= rows@.len(),
            last_row(all, utf8(label@)) == last_row(all.subrange(0, i as int), utf8(label@)),
        decreases i,
    {
        assert(all.subrange(0, i as int).last() == rows@[i - 1]@);
        assert(all.subrange(0, i as int).drop_last() =~= all.subrange(0, i - 1));
        if same(rows[i - 1].row.label.as_str(), label) {
            return Some(&rows[i - 1]);
        }
        i = i - 1;
    }
    None
}

/// The four coefficients of a row, where it states them all.
fn four_of(row: &HeaderIonoRow) -> (r: Option<[Decimal; 4]>)
    ensures
        r == (if row_given(row@, 4) {
            Some(
                [
                    row@.values[0]->0,
                    row@.values[1]->0,
                    row@.values[2]->0,
                    row@.values[3]->0,
                ],
            )
        } else {
            None
        }),
{
    assert(row@.values[0] == row.values@[0] && row@.values[1] == row.values@[1] && row@.values[2]
        == row.values@[2] && row@.values[3] == row.values@[3]);
    match (row.values[0], row.values[1], row.values[2], row.values[3]) {
        (Some(a), Some(b), Some(c), Some(d)) => Some([a, b, c, d]),
        _ => None,
    }
}

/// The four coefficients of the last row of a label (see [`klobuchar_row`]).
fn klobuchar_of(rows: &Vec<NumberedIonoRow>, label: &str) -> (r: Option<[Decimal; 4]>)
    ensures
        r == klobuchar_row(read_rows(rows@), utf8(label@)),
{
    match find_row(rows, label) {
        Some(row) => four_of(&row.row),
        None => None,
    }
}

/// The Klobuchar set two rows form (see [`klobuchar_pair`]).
fn pair_of(alpha: Option<[Decimal; 4]>, beta: Option<[Decimal; 4]>) -> (r: Option<
    KlobucharAlphaBeta,
>)
    ensures
        r == klobuchar_pair(alpha, beta),
{
    match (alpha, beta) {
        (Some(alpha), Some(beta)) => Some(KlobucharAlphaBeta { alpha, beta }),
        _ => None,
    }
}

/// The coefficients of a Galileo row that forms a set.
fn galileo_of(row: &NumberedIonoRow) -> (r: Option<(GalileoNequickCoeffs, Option<Decimal>)>)
    ensures
        r == (if galileo_complete(row@) {
            Some(
                (
                    GalileoNequickCoeffs {
                        ai0: row@.row.values[0]->0,
                        ai1: row@.row.values[1]->0,
                        ai2: row@.row.values[2]->0,
                    },
                    row@.row.values[3],
                ),
            )
        } else {
            None
        }),
{
    assert(row@.row.values[0] == row.row.values@[0] && row@.row.values[1] == row.row.values@[1]
        && row@.row.values[2] == row.row.values@[2] && row@.row.values[3] == row.row.values@[3]);
    match (row.row.values[0], row.row.values[1], row.row.values[2]) {
        (Some(ai0), Some(ai1), Some(ai2)) if !row.fourth_unread => Some(
            (GalileoNequickCoeffs { ai0, ai1, ai2 }, row.row.values[3]),
        ),
        _ => None,
    }
}

/// Whether a row of a known label forms no set (see [`row_incomplete`]).
fn is_incomplete(row: &NumberedIonoRow) -> (r: bool)
    ensures
        r == row_incomplete(row@),
{
    let label = row.row.label.as_str();
    if same(label, "GPSA") || same(label, "GPSB") || same(label, "QZSA") || same(label, "QZSB")
        || same(label, "BDSA") || same(label, "BDSB") || same(label, "IRNA") || same(
        label,
        "IRNB",
    ) {
        four_of(&row.row).is_none()
    } else {
        same(label, "GAL") && galileo_of(row).is_none()
    }
}

/// The coefficient sets the rows form (see [`iono_of`]), with a report of each row of a known
/// label that forms none.
pub fn iono_sets(rows: &Vec<NumberedIonoRow>, issues: &mut Vec<HeaderIssue>) -> (r: IonoCorrections)
    ensures
        r == iono_of(read_rows(rows@)),
        issue_views(final(issues)@) == issue_views(old(issues)@) + iono_issues(read_rows(rows@)),
{
    let ghost all = read_rows(rows@);
    let ghost before = issue_views(issues@);
    let mut i: usize = 0;
    assert(before + iono_issues(all.subrange(0, 0)) =~= before);
    while i < rows.len()
        invariant
            all == read_rows(rows@),
            i <= rows@.len(),
            issue_views(issues@) == before + iono_issues(all.subrange(0, i as int)),
        decreases rows@.len() - i,
    {
        let ghost now = issues@;
        assert(all.subrange(0, i + 1).drop_last() =~= all.subrange(0, i as int));
        assert(all.subrange(0, i + 1).last() == rows@[i as int]@);
        if is_incomplete(&rows[i]) {
            issues.push(
                HeaderIssue {
                    line: rows[i].line,
                    field: HeaderField::Ionosphere,
                    error: NavParseError::BadHeaderField { field: "ionospheric correction" },
                },
            );
            assert(issue_views(issues@) =~= issue_views(now).push(
                Issue {
                    line: rows@[i as int].line as int,
                    field: HeaderField::Ionosphere,
                    fault: Fault::BadHeaderField(utf8("ionospheric correction"@)),
                },
            ));
        }
        assert(issue_views(issues@) =~= before + iono_issues(all.subrange(0, i + 1)));
        i = i + 1;
    }
    assert(all.subrange(0, i as int) =~= all);
    let galileo = match find_row(rows, "GAL") {
        Some(row) => galileo_of(row),
        None => None,
    };
    let (coefficients, flags): (Option<GalileoNequickCoeffs>, Option<Decimal>) = match galileo {
        Some((coefficients, flags)) => (Some(coefficients), flags),
        None => (None, None),
    };
    IonoCorrections {
        gps: pair_of(klobuchar_of(rows, "GPSA"), klobuchar_of(rows, "GPSB")),
        beidou: pair_of(klobuchar_of(rows, "BDSA"), klobuchar_of(rows, "BDSB")),
        galileo: coefficients,
        galileo_disturbance_flags: flags,
        qzss: pair_of(klobuchar_of(rows, "QZSA"), klobuchar_of(rows, "QZSB")),
        navic: pair_of(klobuchar_of(rows, "IRNA"), klobuchar_of(rows, "IRNB")),
        beidou_bdgim: None,
    }
}

/// The correction a `TIME SYSTEM CORR` line states: `A4,1X,D17.10,D16.9,I7,I5,1X,A5,1X,I2,1X`.
pub open spec fn v3_correction(line: Seq<u8>) -> Option<Correction> {
    match (
        header_number(line, 5, 22),
        header_number(line, 22, 38),
        header_number(line, 38, 45),
        header_number(line, 45, 50),
    ) {
        (Ok(Some(a0)), Ok(a1), Ok(time), Ok(week)) => Some(
            Correction {
                code: trim_of(columns(line, 0, 4)),
                a0,
                a1,
                time,
                week,
                source: text_at(line, 51, 56),
                utc_id: text_at(line, 57, 59),
            },
        ),
        _ => None,
    }
}

/// The correction a RINEX 2 `DELTA-UTC: A0,A1,T,W` line states: `3X,2D19.12,2I9`, as `GPUT`.
pub open spec fn v2_correction(line: Seq<u8>) -> Option<Correction> {
    match (
        header_number(line, 3, 22),
        header_number(line, 22, 41),
        header_number(line, 41, 50),
        header_number(line, 50, 59),
    ) {
        (Ok(Some(a0)), Ok(a1), Ok(time), Ok(week)) => Some(
            Correction {
                code: utf8("GPUT"@),
                a0,
                a1,
                time,
                week,
                source: None,
                utc_id: None,
            },
        ),
        _ => None,
    }
}

/// Read a `TIME SYSTEM CORR` line (see [`v3_correction`]).
fn v3_time_system_correction(line: &str) -> (r: Option<TimeSystemCorrection>)
    ensures
        match r {
            Some(c) => v3_correction(utf8(line@)) == Some(c@),
            None => v3_correction(utf8(line@)) is None,
        },
{
    match (
        optional_header_number(line, 5, 22),
        optional_header_number(line, 22, 38),
        optional_header_number(line, 38, 45),
        optional_header_number(line, 45, 50),
    ) {
        (Ok(Some(a0_s)), Ok(a1_s_s), Ok(reference_time_s), Ok(reference_week)) => Some(
            TimeSystemCorrection {
                code: own(trim(raw_field(line, 0, 4))),
                a0_s,
                a1_s_s,
                reference_time_s,
                reference_week,
                source: optional_text(line, 51, 56),
                utc_id: optional_text(line, 57, 59),
            },
        ),
        _ => None,
    }
}

/// Read a `DELTA-UTC: A0,A1,T,W` line (see [`v2_correction`]).
fn v2_delta_utc(line: &str) -> (r: Option<TimeSystemCorrection>)
    ensures
        match r {
            Some(c) => v2_correction(utf8(line@)) == Some(c@),
            None => v2_correction(utf8(line@)) is None,
        },
{
    match (
        optional_header_number(line, 3, 22),
        optional_header_number(line, 22, 41),
        optional_header_number(line, 41, 50),
        optional_header_number(line, 50, 59),
    ) {
        (Ok(Some(a0_s)), Ok(a1_s_s), Ok(reference_time_s), Ok(reference_week)) => Some(
            TimeSystemCorrection {
                code: own("GPUT"),
                a0_s,
                a1_s_s,
                reference_time_s,
                reference_week,
                source: None,
                utc_id: None,
            },
        ),
        _ => None,
    }
}

/// An optional integer of a header record, of magnitude 10^15 at most; `Err` for anything else.
pub open spec fn header_int(line: Seq<u8>, start: int, end: int) -> Result<Option<int>, ()> {
    match header_number(line, start, end) {
        Ok(None) => Ok(None),
        Ok(Some(d)) => match d.integer_within(-1000000000000000, 1000000000000000) {
            Some(n) => Ok(Some(n)),
            None => Err(()),
        },
        Err(()) => Err(()),
    }
}

/// The record a `LEAP SECONDS` line states: `4I6,A3`, current, future, week, day and time system.
pub open spec fn leap_record(line: Seq<u8>) -> Option<Leap> {
    match (
        header_int(line, 0, 6),
        header_int(line, 6, 12),
        header_int(line, 12, 18),
        header_int(line, 18, 24),
    ) {
        (Ok(Some(current)), Ok(future), Ok(week), Ok(day)) => Some(
            Leap { current, future, week, day, system: text_at(line, 24, 27) },
        ),
        _ => None,
    }
}

/// An optional integer of a header record (see [`header_int`]).
fn optional_header_int(line: &str, start: usize, end: usize) -> (r: Result<Option<i64>, ()>)
    requires
        start <= end <= start + 19,
    ensures
        match r {
            Ok(n) => header_int(utf8(line@), start as int, end as int) == Ok::<Option<int>, ()>(
                crate::fields::int_of(n),
            ),
            Err(()) => header_int(utf8(line@), start as int, end as int) is Err,
        },
{
    match optional_header_number(line, start, end) {
        Ok(None) => Ok(None),
        Ok(Some(d)) => match d.to_integer(-1000000000000000, 1000000000000000) {
            Some(n) => Ok(Some(n)),
            None => Err(()),
        },
        Err(()) => Err(()),
    }
}

/// Read a `LEAP SECONDS` line (see [`leap_record`]).
pub fn leap_seconds_record(line: &str) -> (r: Option<ObsLeapSeconds>)
    ensures
        match r {
            Some(l) => leap_record(utf8(line@)) == Some(l@),
            None => leap_record(utf8(line@)) is None,
        },
{
    match (
        optional_header_int(line, 0, 6),
        optional_header_int(line, 6, 12),
        optional_header_int(line, 12, 18),
        optional_header_int(line, 18, 24),
    ) {
        (Ok(Some(current)), Ok(delta_future), Ok(week), Ok(day)) => Some(
            ObsLeapSeconds {
                current,
                delta_future,
                week,
                day,
                time_system: optional_text(line, 24, 27),
            },
        ),
        _ => None,
    }
}

/// What the header lines read so far state.
pub ghost struct Scan {
    /// The version line.
    pub version: Option<(NavVersion, char, Option<char>)>,
    /// The program record.
    pub program: Option<Program>,
    /// The comments.
    pub comments: Seq<Seq<u8>>,
    /// The ionosphere coefficient rows.
    pub rows: Seq<ReadRow>,
    /// The time system corrections.
    pub corrections: Seq<Correction>,
    /// The leap seconds.
    pub leap: Option<Leap>,
    /// The other records.
    pub other: Seq<Seq<u8>>,
    /// The records that could not be read.
    pub issues: Seq<Issue>,
}

/// Nothing read yet.
pub open spec fn empty_scan() -> Scan {
    Scan {
        version: None,
        program: None,
        comments: Seq::empty(),
        rows: Seq::empty(),
        corrections: Seq::empty(),
        leap: None,
        other: Seq::empty(),
        issues: Seq::empty(),
    }
}

/// A record that could not be read, kept among the others.
pub open spec fn refused(scan: Scan, line: Seq<u8>, number: int, field: HeaderField, name: Seq<u8>) -> Scan {
    Scan {
        other: scan.other.push(line),
        issues: scan.issues.push(
            Issue { line: number, field, fault: Fault::BadHeaderField(name) },
        ),
        ..scan
    }
}

/// Whether a line is an ionosphere coefficient record.
pub open spec fn iono_line(line: Seq<u8>) -> bool {
    let label = label_of(line);
    label == Label::Iono || label == Label::IonAlpha || label == Label::IonBeta
}

/// The row of an ionosphere coefficient record: RINEX 3 and 4 `IONOSPHERIC CORR` names its label,
/// RINEX 2 `ION ALPHA` and `ION BETA` are the GPS rows.
pub open spec fn row_of_line(line: Seq<u8>, number: int) -> ReadRow {
    if label_of(line) == Label::Iono {
        ReadRow {
            line: number,
            row: iono_row(line, trim_of(columns(line, 0, 4)), 5, true),
            fourth_unread: fourth_unread(line, 5),
        }
    } else {
        ReadRow {
            line: number,
            row: iono_row(
                line,
                if label_of(line) == Label::IonAlpha {
                    utf8("GPSA"@)
                } else {
                    utf8("GPSB"@)
                },
                2,
                false,
            ),
            fourth_unread: fourth_unread(line, 2),
        }
    }
}

/// Whether a line is an ionosphere coefficient record whose values could not be read.
pub open spec fn unread_row(line: Seq<u8>) -> bool {
    iono_line(line) && row_incomplete(row_of_line(line, 0))
}

/// What header lines state with one more ionosphere coefficient record. One whose values could not
/// be read is kept among the others too.
pub open spec fn with_row(scan: Scan, line: Seq<u8>, number: int) -> Scan {
    let row = row_of_line(line, number);
    Scan {
        rows: scan.rows.push(row),
        other: if row_incomplete(row) {
            scan.other.push(line)
        } else {
            scan.other
        },
        ..scan
    }
}

/// What header lines state with one more line that is not `END OF HEADER`. A version line that is
/// not supported is an error where one is required, and among the other records where not.
#[verifier::opaque]
pub open spec fn scanned(scan: Scan, line: Seq<u8>, number: int, require: bool) -> Result<
    Scan,
    Fault,
> {
    match label_of(line) {
        Label::Version => match version_line(line) {
            Some(version) => Ok(Scan { version: Some(version), ..scan }),
            None => if require {
                Err(Fault::UnsupportedHeader(trim_end_of(line)))
            } else {
                Ok(Scan { other: scan.other.push(line), ..scan })
            },
        },
        Label::Program => Ok(
            Scan {
                program: Some(
                    Program {
                        program: trim_of(columns(line, 0, 20)),
                        run_by: trim_of(columns(line, 20, 40)),
                        date: trim_of(columns(line, 40, 60)),
                    },
                ),
                ..scan
            },
        ),
        Label::Comment => Ok(
            Scan { comments: scan.comments.push(trim_end_of(columns(line, 0, 60))), ..scan },
        ),
        Label::Iono | Label::IonAlpha | Label::IonBeta => Ok(with_row(scan, line, number)),
        Label::TimeSystem => Ok(
            match v3_correction(line) {
                Some(c) => Scan { corrections: scan.corrections.push(c), ..scan },
                None => refused(
                    scan,
                    line,
                    number,
                    HeaderField::TimeSystemCorrection,
                    utf8("time system correction"@),
                ),
            },
        ),
        Label::DeltaUtc => Ok(
            match v2_correction(line) {
                Some(c) => Scan { corrections: scan.corrections.push(c), ..scan },
                None => refused(
                    scan,
                    line,
                    number,
                    HeaderField::TimeSystemCorrection,
                    utf8("time system correction"@),
                ),
            },
        ),
        Label::Leap => Ok(
            match leap_record(line) {
                Some(l) => Scan { leap: Some(l), ..scan },
                None => refused(
                    scan,
                    line,
                    number,
                    HeaderField::LeapSeconds,
                    utf8("leap seconds"@),
                ),
            },
        ),
        _ => Ok(Scan { other: scan.other.push(line), ..scan }),
    }
}

/// What the lines up to `END OF HEADER` state, with the number of lines read and whether that
/// line was met.
pub open spec fn scan_lines(
    lines: Seq<Seq<u8>>,
    from: int,
    scan: Scan,
    require: bool,
) -> Result<(Scan, int, bool), Fault>
    decreases lines.len() - from,
{
    if !(0 <= from < lines.len()) {
        Ok((scan, from, false))
    } else if label_of(lines[from]) == Label::End {
        Ok((scan, from + 1, true))
    } else {
        match scanned(scan, lines[from], from + 1, require) {
            Err(fault) => Err(fault),
            Ok(next) => scan_lines(lines, from + 1, next, require),
        }
    }
}

/// The header a scan states.
pub open spec fn scanned_header(scan: Scan) -> Header {
    let (version, file_type, satellite_system) = match scan.version {
        Some(v) => v,
        None => (NavVersion { major: 3, minor: 4 }, 'N', None),
    };
    Header {
        version,
        file_type,
        satellite_system,
        program: scan.program,
        comments: scan.comments,
        iono: iono_of(scan.rows),
        rows: rows_only(scan.rows),
        corrections: scan.corrections,
        leap: scan.leap,
        other: scan.other,
    }
}

/// The header lines state, the number of lines it takes, and the records in it that could not be
/// read. Where a version is required, a missing or unsupported one is an error, and so is a
/// missing `END OF HEADER`; where not, the header ends with the lines, and its version is 3.04.
pub open spec fn header_of(lines: Seq<Seq<u8>>, require: bool) -> Result<
    (Header, int, Seq<Issue>),
    Fault,
> {
    match scan_lines(lines, 0, empty_scan(), require) {
        Err(fault) => Err(fault),
        Ok((scan, stop, ended)) => if require && !ended {
            Err(Fault::MissingHeaderEnd)
        } else if require && scan.version is None {
            Err(Fault::UnsupportedHeader(utf8("no RINEX VERSION / TYPE"@)))
        } else {
            Ok((scanned_header(scan), stop, scan.issues + iono_issues(scan.rows)))
        },
    }
}

/// The row of an ionosphere coefficient record (see [`row_of_line`]).
fn read_row_of(line: &str, number: usize) -> (r: NumberedIonoRow)
    ensures
        r@ == row_of_line(utf8(line@), number as int),
{
    match read_label(line) {
        Label::Iono => read_iono_row(line, number, trim(raw_field(line, 0, 4)), 5, true),
        Label::IonAlpha => read_iono_row(line, number, "GPSA", 2, false),
        _ => read_iono_row(line, number, "GPSB", 2, false),
    }
}

/// Whether a line is an ionosphere coefficient record whose values could not be read (see
/// [`unread_row`]).
pub fn is_unread_row(line: &str) -> (r: bool)
    ensures
        r == unread_row(utf8(line@)),
{
    match read_label(line) {
        Label::Iono | Label::IonAlpha | Label::IonBeta => is_incomplete(&read_row_of(line, 0)),
        _ => false,
    }
}

/// Whether a row is one that could not be read, and is kept among other records as its line.
pub open spec fn kept_as_line(row: IonoRow, other: Seq<Seq<u8>>) -> bool {
    exists|k: int|
        0 <= k < other.len() && unread_row(#[trigger] other[k]) && row_of_line(other[k], 0).row
            == row
}

/// The rows that are not kept as their lines.
pub open spec fn rows_left(rows: Seq<IonoRow>, other: Seq<Seq<u8>>) -> Seq<IonoRow>
    decreases rows.len(),
{
    if rows.len() == 0 {
        rows
    } else if kept_as_line(rows.last(), other) {
        rows_left(rows.drop_last(), other)
    } else {
        rows_left(rows.drop_last(), other).push(rows.last())
    }
}

/// Whether a row is kept as its line (see [`kept_as_line`]).
fn is_kept_as_line(row: &HeaderIonoRow, other: &Vec<String>) -> (r: bool)
    ensures
        r == kept_as_line(row@, strings(other@)),
{
    let ghost all = strings(other@);
    let mut i: usize = 0;
    while i < other.len()
        invariant
            all == strings(other@),
            i <= other@.len(),
            forall|k: int|
                0 <= k < i ==> !(unread_row(#[trigger] all[k]) && row_of_line(all[k], 0).row
                    == row@),
        decreases other@.len() - i,
    {
        let line = other[i].as_str();
        assert(all[i as int] == utf8(line@));
        if is_unread_row(line) && read_row_of(line, 0).row.same_as(row) {
            return true;
        }
        i = i + 1;
    }
    false
}

/// The rows that are not kept as their lines (see [`rows_left`]).
pub fn rows_not_kept(rows: &Vec<HeaderIonoRow>, other: &Vec<String>) -> (r: Vec<HeaderIonoRow>)
    ensures
        row_views(r@) == rows_left(row_views(rows@), strings(other@)),
{
    let ghost all = row_views(rows@);
    let ghost kept = strings(other@);
    let mut out: Vec<HeaderIonoRow> = Vec::new();
    let mut i: usize = 0;
    assert(row_views(out@) =~= rows_left(all.subrange(0, 0), kept));
    while i < rows.len()
        invariant
            all == row_views(rows@),
            kept == strings(other@),
            i <= rows@.len(),
            row_views(out@) == rows_left(all.subrange(0, i as int), kept),
        decreases rows@.len() - i,
    {
        let ghost before = out@;
        assert(all.subrange(0, i + 1).drop_last() =~= all.subrange(0, i as int));
        assert(all.subrange(0, i + 1).last() == rows@[i as int]@);
        if !is_kept_as_line(&rows[i], other) {
            out.push(rows[i].copy());
            assert(row_views(out@) =~= row_views(before).push(rows@[i as int]@));
        }
        i = i + 1;
    }
    assert(all.subrange(0, i as int) =~= all);
    out
}

/// Whether each problem of a scan is that of a line which is among the other records.
pub open spec fn issues_kept(lines: Seq<Seq<u8>>, scan: Scan) -> bool {
    &&& forall|k: int|
        0 <= k < scan.issues.len() ==> 1 <= (#[trigger] scan.issues[k]).line <= lines.len()
            && scan.other.contains(lines[scan.issues[k].line - 1])
    &&& forall|k: int|
        0 <= k < scan.rows.len() ==> (row_incomplete(#[trigger] scan.rows[k]) ==> 1
            <= scan.rows[k].line <= lines.len() && scan.other.contains(
            lines[scan.rows[k].line - 1],
        ))
}

/// What is among the other records stays there.
proof fn lemma_kept_grows(lines: Seq<Seq<u8>>, scan: Scan, next: Scan)
    requires
        issues_kept(lines, scan),
        next.other == scan.other || next.other.len() == scan.other.len() + 1
            && next.other.drop_last() == scan.other,
        next.issues == scan.issues || next.issues.len() == scan.issues.len() + 1
            && next.issues.drop_last() == scan.issues && 1 <= next.issues.last().line
            <= lines.len() && next.other.contains(lines[next.issues.last().line - 1]),
        next.rows == scan.rows || next.rows.len() == scan.rows.len() + 1 && next.rows.drop_last()
            == scan.rows && (row_incomplete(next.rows.last()) ==> 1 <= next.rows.last().line
            <= lines.len() && next.other.contains(lines[next.rows.last().line - 1])),
    ensures
        issues_kept(lines, next),
{
    assert forall|line: Seq<u8>| scan.other.contains(line) implies next.other.contains(line) by {
        let i = choose|i: int| 0 <= i < scan.other.len() && scan.other[i] == line;
        if next.other != scan.other {
            assert(next.other.drop_last()[i] == next.other[i]);
        }
        assert(next.other[i] == line);
    }
    assert forall|k: int| 0 <= k < next.issues.len() implies 1 <= (#[trigger] next.issues[k]).line
        <= lines.len() && next.other.contains(lines[next.issues[k].line - 1]) by {
        if k < scan.issues.len() {
            if next.issues != scan.issues {
                assert(next.issues.drop_last()[k] == next.issues[k]);
            }
            assert(next.issues[k] == scan.issues[k]);
        }
    }
    assert forall|k: int|
        0 <= k < next.rows.len() && row_incomplete(#[trigger] next.rows[k]) implies 1
        <= next.rows[k].line <= lines.len() && next.other.contains(
        lines[next.rows[k].line - 1],
    ) by {
        if k < scan.rows.len() {
            if next.rows != scan.rows {
                assert(next.rows.drop_last()[k] == next.rows[k]);
            }
            assert(next.rows[k] == scan.rows[k]);
        }
    }
}

/// A line that could not be read is kept.
proof fn lemma_line_kept(lines: Seq<Seq<u8>>, from: int, scan: Scan, require: bool)
    requires
        0 <= from < lines.len(),
        issues_kept(lines, scan),
    ensures
        scanned(scan, lines[from], from + 1, require) matches Ok(next) ==> issues_kept(lines, next),
{
    reveal(scanned);
    if let Ok(next) = scanned(scan, lines[from], from + 1, require) {
        if next.other != scan.other {
            assert(next.other.drop_last() =~= scan.other);
            assert(next.other[next.other.len() - 1] == lines[from]);
        }
        if next.issues != scan.issues {
            assert(next.issues.drop_last() =~= scan.issues);
            assert(next.other =~= scan.other.push(lines[from]));
            assert(next.other[next.other.len() - 1] == lines[from]);
        }
        if next.rows != scan.rows {
            assert(next.rows.drop_last() =~= scan.rows);
            if row_incomplete(next.rows.last()) {
                assert(next.other =~= scan.other.push(lines[from]));
                assert(next.other[next.other.len() - 1] == lines[from]);
            }
        }
        lemma_kept_grows(lines, scan, next);
    }
}

/// The lines of a header that could not be read are kept.
proof fn lemma_scan_kept(lines: Seq<Seq<u8>>, from: int, scan: Scan, require: bool)
    requires
        0 <= from <= lines.len(),
        issues_kept(lines, scan),
    ensures
        scan_lines(lines, from, scan, require) matches Ok(read) ==> issues_kept(lines, read.0),
    decreases lines.len() - from,
{
    if from < lines.len() && label_of(lines[from]) != Label::End {
        lemma_line_kept(lines, from, scan, require);
        if let Ok(next) = scanned(scan, lines[from], from + 1, require) {
            lemma_scan_kept(lines, from + 1, next, require);
        }
    }
}

/// A problem of rows is that of a row that could not be read.
proof fn lemma_row_issue(rows: Seq<ReadRow>, k: int)
    requires
        0 <= k < iono_issues(rows).len(),
    ensures
        exists|i: int|
            0 <= i < rows.len() && row_incomplete(#[trigger] rows[i]) && rows[i].line
                == iono_issues(rows)[k].line,
    decreases rows.len(),
{
    let head = rows.drop_last();
    if k < iono_issues(head).len() {
        lemma_row_issue(head, k);
        let i = choose|i: int|
            0 <= i < head.len() && row_incomplete(#[trigger] head[i]) && head[i].line
                == iono_issues(head)[k].line;
        assert(rows[i] == head[i]);
    } else {
        assert(row_incomplete(rows[rows.len() - 1]));
    }
}

/// Every header record whose values could not be read is kept, verbatim, among the other records.
pub proof fn law_unread_records_kept(lines: Seq<Seq<u8>>, require: bool)
    ensures
        header_of(lines, require) matches Ok((h, _, issues)) ==> forall|k: int|
            0 <= k < issues.len() ==> 1 <= (#[trigger] issues[k]).line <= lines.len()
                && h.other.contains(lines[issues[k].line - 1]),
{
    lemma_scan_kept(lines, 0, empty_scan(), require);
    if let Ok((h, _, issues)) = header_of(lines, require) {
        let (scan, stop, ended) = scan_lines(lines, 0, empty_scan(), require)->Ok_0;
        assert forall|k: int| 0 <= k < issues.len() implies 1 <= (#[trigger] issues[k]).line
            <= lines.len() && h.other.contains(lines[issues[k].line - 1]) by {
            if k < scan.issues.len() {
                assert(issues[k] == scan.issues[k]);
            } else {
                let j = k - scan.issues.len();
                lemma_row_issue(scan.rows, j);
                let i = choose|i: int|
                    0 <= i < scan.rows.len() && row_incomplete(#[trigger] scan.rows[i])
                        && scan.rows[i].line == iono_issues(scan.rows)[j].line;
                assert(issues[k] == iono_issues(scan.rows)[j]);
            }
        }
    }
}

/// The header lines read so far.
struct Scanned {
    version: Option<(NavVersion, char, Option<char>)>,
    program: Option<PgmRunByDate>,
    comments: Vec<String>,
    rows: Vec<NumberedIonoRow>,
    corrections: Vec<TimeSystemCorrection>,
    leap: Option<ObsLeapSeconds>,
    other: Vec<String>,
    issues: Vec<HeaderIssue>,
}

impl View for Scanned {
    type V = Scan;

    closed spec fn view(&self) -> Scan {
        Scan {
            version: self.version,
            program: program_view(self.program),
            comments: strings(self.comments@),
            rows: read_rows(self.rows@),
            corrections: correction_views(self.corrections@),
            leap: leap_view(self.leap),
            other: strings(self.other@),
            issues: issue_views(self.issues@),
        }
    }
}

impl Scanned {
    fn new() -> (r: Scanned)
        ensures
            r@ == empty_scan(),
    {
        let r = Scanned {
            version: None,
            program: None,
            comments: Vec::new(),
            rows: Vec::new(),
            corrections: Vec::new(),
            leap: None,
            other: Vec::new(),
            issues: Vec::new(),
        };
        proof {
            assert(r@.comments =~= Seq::empty());
            assert(r@.rows =~= Seq::empty());
            assert(r@.corrections =~= Seq::empty());
            assert(r@.other =~= Seq::empty());
            assert(r@.issues =~= Seq::empty());
        }
        r
    }

    fn keep(&mut self, line: &str)
        ensures
            final(self)@ == (Scan { other: old(self)@.other.push(utf8(line@)), ..old(self)@ }),
    {
        let ghost before = self.other@;
        self.other.push(own(line));
        assert(strings(self.other@) =~= strings(before).push(utf8(line@)));
    }

    fn keep_row(&mut self, row: NumberedIonoRow)
        ensures
            final(self)@ == (Scan { rows: old(self)@.rows.push(row@), ..old(self)@ }),
    {
        let ghost before = self.rows@;
        self.rows.push(row);
        assert(read_rows(self.rows@) =~= read_rows(before).push(row@));
    }

    fn keep_correction(&mut self, correction: TimeSystemCorrection)
        ensures
            final(self)@ == (Scan {
                corrections: old(self)@.corrections.push(correction@),
                ..old(self)@
            }),
    {
        let ghost before = self.corrections@;
        self.corrections.push(correction);
        assert(correction_views(self.corrections@) =~= correction_views(before).push(correction@));
    }

    fn refuse(&mut self, line: &str, number: usize, field: HeaderField, name: &'static str)
        ensures
            final(self)@ == refused(
                old(self)@,
                utf8(line@),
                number as int,
                field,
                utf8(name@),
            ),
    {
        let ghost before = self.issues@;
        self.keep(line);
        self.issues.push(
            HeaderIssue {
                line: number,
                field,
                error: NavParseError::BadHeaderField { field: name },
            },
        );
        assert(issue_views(self.issues@) =~= issue_views(before).push(
            Issue { line: number as int, field, fault: Fault::BadHeaderField(utf8(name@)) },
        ));
    }

    /// Read one more line (see [`scanned`]).
    fn scan(&mut self, line: &str, number: usize, require: bool) -> (r: Result<(), NavParseError>)
        ensures
            match r {
                Ok(()) => scanned(old(self)@, utf8(line@), number as int, require) == Ok::<
                    Scan,
                    Fault,
                >(final(self)@),
                Err(e) => scanned(old(self)@, utf8(line@), number as int, require) == Err::<
                    Scan,
                    Fault,
                >(e@),
            },
    {
        reveal(scanned);
        match read_label(line) {
            Label::Version => match read_version_line(line) {
                Some(version) => {
                    self.version = Some(version);
                },
                None => {
                    if require {
                        return Err(NavParseError::UnsupportedHeader(own(trim_end(line))));
                    }
                    self.keep(line);
                },
            },
            Label::Program => {
                self.program = Some(
                    PgmRunByDate {
                        program: own(trim(raw_field(line, 0, 20))),
                        run_by: own(trim(raw_field(line, 20, 40))),
                        date: own(trim(raw_field(line, 40, 60))),
                    },
                );
            },
            Label::Comment => {
                let ghost before = self.comments@;
                self.comments.push(own(trim_end(raw_field(line, 0, 60))));
                assert(strings(self.comments@) =~= strings(before).push(
                    trim_end_of(columns(utf8(line@), 0, 60)),
                ));
            },
            Label::Iono | Label::IonAlpha | Label::IonBeta => {
                let row = read_row_of(line, number);
                if is_incomplete(&row) {
                    self.keep(line);
                }
                self.keep_row(row);
            },
            Label::TimeSystem => match v3_time_system_correction(line) {
                Some(c) => {
                    self.keep_correction(c);
                },
                None => {
                    self.refuse(
                        line,
                        number,
                        HeaderField::TimeSystemCorrection,
                        "time system correction",
                    );
                },
            },
            Label::DeltaUtc => match v2_delta_utc(line) {
                Some(c) => {
                    self.keep_correction(c);
                },
                None => {
                    self.refuse(
                        line,
                        number,
                        HeaderField::TimeSystemCorrection,
                        "time system correction",
                    );
                },
            },
            Label::Leap => match leap_seconds_record(line) {
                Some(l) => {
                    self.leap = Some(l);
                },
                None => {
                    self.refuse(line, number, HeaderField::LeapSeconds, "leap seconds");
                },
            },
            _ => {
                self.keep(line);
            },
        }
        Ok(())
    }
}

/// A read header and where the body starts.
pub struct HeaderRead {
    /// The header.
    pub header: NavHeader,
    /// Index of the first body line.
    pub body_start: usize,
    /// The records that could not be read.
    pub issues: Vec<HeaderIssue>,
}

/// The rows without their line numbers.
fn rows_of(rows: Vec<NumberedIonoRow>) -> (r: Vec<HeaderIonoRow>)
    ensures
        row_views(r@) == rows_only(read_rows(rows@)),
{
    let mut rest = rows;
    let mut out: Vec<HeaderIonoRow> = Vec::new();
    let ghost all = rows_only(read_rows(rows@));
    let ghost mut done: int = 0;
    assert(row_views(out@) =~= all.subrange(0, 0));
    while rest.len() > 0
        invariant
            0 <= done <= all.len(),
            rest@.len() == all.len() - done,
            rows_only(read_rows(rest@)) == all.subrange(done, all.len() as int),
            row_views(out@) == all.subrange(0, done),
        decreases rest@.len(),
    {
        let ghost before = rest@;
        let ghost out_before = out@;
        let first = rest.remove(0);
        proof {
            assert(before[0] == first);
            assert(rows_only(read_rows(before))[0] == first.row@);
            assert(all[done] == first.row@);
            assert forall|k: int| 0 <= k < rest@.len() implies #[trigger] rows_only(
                read_rows(rest@),
            )[k] == all[done + 1 + k] by {
                assert(rest@[k] == before[k + 1]);
                assert(rows_only(read_rows(before))[k + 1] == before[k + 1].row@);
            }
            assert(rows_only(read_rows(rest@)) =~= all.subrange(done + 1, all.len() as int));
        }
        out.push(first.row);
        proof {
            assert(row_views(out@) =~= row_views(out_before).push(first.row@));
            assert(all.subrange(0, done + 1) =~= all.subrange(0, done).push(all[done]));
            done = done + 1;
        }
    }
    assert(all.subrange(0, done) =~= all);
    out
}

/// Read a header (see [`header_of`]).
pub fn read_header_inner(lines: &Vec<&str>, require_version: bool) -> (r: Result<
    HeaderRead,
    NavParseError,
>)
    ensures
        match r {
            Ok(read) => {
                &&& header_of(texts(lines@), require_version) == Ok::<
                    (Header, int, Seq<Issue>),
                    Fault,
                >((read.header@, read.body_start as int, issue_views(read.issues@)))
                &&& read.body_start <= lines@.len()
                &&& strings(read.header.text@) == texts(lines@).subrange(
                    0,
                    read.body_start as int,
                )
            },
            Err(e) => header_of(texts(lines@), require_version) == Err::<
                (Header, int, Seq<Issue>),
                Fault,
            >(e@),
        },
{
    let ghost all = texts(lines@);
    let mut scan = Scanned::new();
    let mut i: usize = 0;
    let mut ended: bool = false;
    while i < lines.len() && !ended
        invariant
            all == texts(lines@),
            i <= lines@.len(),
            !ended ==> scan_lines(all, 0, empty_scan(), require_version) == scan_lines(
                all,
                i as int,
                scan@,
                require_version,
            ),
            ended ==> scan_lines(all, 0, empty_scan(), require_version) == Ok::<
                (Scan, int, bool),
                Fault,
            >((scan@, i as int, true)),
        decreases lines@.len() - i,
    {
        assert(all[i as int] == utf8(lines@[i as int]@));
        if read_label(lines[i]) == Label::End {
            ended = true;
        } else {
            match scan.scan(lines[i], i + 1, require_version) {
                Ok(()) => {},
                Err(e) => {
                    return Err(e);
                },
            }
        }
        i = i + 1;
    }
    if require_version && !ended {
        return Err(NavParseError::MissingHeaderEnd);
    }
    if require_version && scan.version.is_none() {
        return Err(NavParseError::UnsupportedHeader(own("no RINEX VERSION / TYPE")));
    }
    let (version, file_type, satellite_system): (NavVersion, char, Option<char>) =
        match scan.version {
        Some(version) => version,
        None => (NavVersion::new(3, 4), 'N', None),
    };
    let ghost before = scan@;
    let mut issues = scan.issues;
    let iono = iono_sets(&scan.rows, &mut issues);
    let iono_rows = rows_of(scan.rows);
    let header = NavHeader {
        version,
        file_type,
        satellite_system,
        program: scan.program,
        comments: scan.comments,
        iono,
        iono_rows,
        time_system_corrections: scan.corrections,
        leap_seconds: scan.leap,
        other_records: scan.other,
        text: own_lines(lines, 0, i),
    };
    assert(header@ == scanned_header(before));
    Ok(HeaderRead { header, body_start: i, issues })
}

/// Read the header from `lines` (line terminators removed), which needs a supported
/// `RINEX VERSION / TYPE` record and an `END OF HEADER`.
pub fn read_header(lines: &Vec<&str>) -> (r: Result<HeaderRead, NavParseError>)
    ensures
        match r {
            Ok(read) => {
                &&& header_of(texts(lines@), true) == Ok::<(Header, int, Seq<Issue>), Fault>(
                    (read.header@, read.body_start as int, issue_views(read.issues@)),
                )
                &&& read.body_start <= lines@.len()
                &&& strings(read.header.text@) == texts(lines@).subrange(
                    0,
                    read.body_start as int,
                )
            },
            Err(e) => header_of(texts(lines@), true) == Err::<(Header, int, Seq<Issue>), Fault>(
                e@,
            ),
        },
{
    read_header_inner(lines, true)
}

/// Without a required version the reader returns no error.
pub proof fn lemma_scan_succeeds(lines: Seq<Seq<u8>>, from: int, scan: Scan)
    ensures
        scan_lines(lines, from, scan, false) is Ok,
        0 <= from <= lines.len() ==> from <= scan_lines(lines, from, scan, false)->Ok_0.1
            <= lines.len(),
    decreases lines.len() - from,
{
    reveal(scanned);
    if 0 <= from < lines.len() && label_of(lines[from]) != Label::End {
        match scanned(scan, lines[from], from + 1, false) {
            Err(fault) => {},
            Ok(next) => {
                lemma_scan_succeeds(lines, from + 1, next);
            },
        }
    }
}

/// Read the header records from `lines` as the header-only helpers read them: through
/// `END OF HEADER`, or every line when there is none, whether or not a supported
/// `RINEX VERSION / TYPE` record is present.
pub fn scan_header(lines: &Vec<&str>) -> (r: HeaderRead)
    ensures
        header_of(texts(lines@), false) == Ok::<(Header, int, Seq<Issue>), Fault>(
            (r.header@, r.body_start as int, issue_views(r.issues@)),
        ),
        r.body_start <= lines@.len(),
        strings(r.header.text@) == texts(lines@).subrange(0, r.body_start as int),
{
    proof {
        lemma_scan_succeeds(texts(lines@), 0, empty_scan());
    }
    match read_header_inner(lines, false) {
        Ok(read) => read,
        Err(_) => HeaderRead {
            header: NavHeader::new(NavVersion::new(3, 4)),
            body_start: 0,
            issues: Vec::new(),
        },
    }
}

/// Rows as read rows, for a header built in code.
pub open spec fn rows_as_read(rows: Seq<IonoRow>) -> Seq<ReadRow> {
    rows.map_values(|row: IonoRow| ReadRow { line: 0, row, fourth_unread: false })
}

impl HeaderIonoRow {
    /// A copy of the row.
    pub fn copy(&self) -> (r: HeaderIonoRow)
        ensures
            r@ == self@,
    {
        HeaderIonoRow {
            label: own(self.label.as_str()),
            values: self.values,
            time_mark: self.time_mark,
            satellite: copy_option(&self.satellite),
        }
    }

    /// Whether two rows state the same.
    fn same_as(&self, other: &HeaderIonoRow) -> (r: bool)
        ensures
            r == (self@ == other@),
    {
        let values: bool = same_number(self.values[0], other.values[0]) && same_number(
            self.values[1],
            other.values[1],
        ) && same_number(self.values[2], other.values[2]) && same_number(
            self.values[3],
            other.values[3],
        );
        proof {
            if values {
                assert(self.values@ =~= other.values@);
            }
        }
        values && same(self.label.as_str(), other.label.as_str()) && same_mark(
            self.time_mark,
            other.time_mark,
        ) && same_option(&self.satellite, &other.satellite)
    }
}

/// The ionosphere sets `rows` form, for a header built in code.
pub fn iono_from_rows(rows: &Vec<HeaderIonoRow>) -> (r: IonoCorrections)
    ensures
        r == iono_of(rows_as_read(row_views(rows@))),
{
    let mut read: Vec<NumberedIonoRow> = Vec::new();
    let mut i: usize = 0;
    while i < rows.len()
        invariant
            i <= rows@.len(),
            read@.len() == i,
            forall|k: int|
                0 <= k < i ==> (#[trigger] read@[k])@ == (ReadRow {
                    line: 0,
                    row: rows@[k]@,
                    fourth_unread: false,
                }),
        decreases rows@.len() - i,
    {
        let row = rows[i].copy();
        read.push(NumberedIonoRow { line: 0, row, fourth_unread: false });
        i = i + 1;
    }
    assert(read_rows(read@) =~= rows_as_read(row_views(rows@)));
    let mut issues: Vec<HeaderIssue> = Vec::new();
    iono_sets(&read, &mut issues)
}

/// Whether two optional numbers are the same.
pub fn same_number(a: Option<Decimal>, b: Option<Decimal>) -> (r: bool)
    ensures
        r == (a == b),
{
    match (a, b) {
        (Some(a), Some(b)) => a == b,
        (None, None) => true,
        _ => false,
    }
}

/// Whether two optional characters are the same.
fn same_mark(a: Option<char>, b: Option<char>) -> (r: bool)
    ensures
        r == (a == b),
{
    match (a, b) {
        (Some(a), Some(b)) => a == b,
        (None, None) => true,
        _ => false,
    }
}

/// Whether two optional integers are the same.
fn same_count(a: Option<i64>, b: Option<i64>) -> (r: bool)
    ensures
        r == (crate::fields::int_of(a) == crate::fields::int_of(b)),
{
    match (a, b) {
        (Some(a), Some(b)) => a == b,
        (None, None) => true,
        _ => false,
    }
}

/// Whether two sets of four coefficients are the same.
fn same_four(a: &[Decimal; 4], b: &[Decimal; 4]) -> (r: bool)
    ensures
        r == (*a == *b),
{
    let r: bool = a[0] == b[0] && a[1] == b[1] && a[2] == b[2] && a[3] == b[3];
    proof {
        if r {
            assert(a@ =~= b@);
            assert(*a =~= *b);
        }
    }
    r
}

/// Whether two Klobuchar sets are the same.
pub fn same_klobuchar(a: &KlobucharAlphaBeta, b: &KlobucharAlphaBeta) -> (r: bool)
    ensures
        r == (*a == *b),
{
    same_four(&a.alpha, &b.alpha) && same_four(&a.beta, &b.beta)
}

/// Whether two optional Klobuchar sets are the same.
fn same_optional_klobuchar(a: &Option<KlobucharAlphaBeta>, b: &Option<KlobucharAlphaBeta>) -> (r:
    bool)
    ensures
        r == (*a == *b),
{
    match (a, b) {
        (Some(a), Some(b)) => same_klobuchar(a, b),
        (None, None) => true,
        _ => false,
    }
}

/// Whether two sets of nine coefficients are the same.
pub fn same_nine(a: &[Decimal; 9], b: &[Decimal; 9]) -> (r: bool)
    ensures
        r == (*a == *b),
{
    let mut i: usize = 0;
    while i < 9
        invariant
            i <= 9,
            forall|k: int| 0 <= k < i ==> a@[k] == b@[k],
        decreases 9 - i,
    {
        if a[i] != b[i] {
            return false;
        }
        i = i + 1;
    }
    assert(a@ =~= b@);
    assert(*a =~= *b);
    true
}

/// Whether two ionosphere corrections are the same.
pub fn same_iono(a: &IonoCorrections, b: &IonoCorrections) -> (r: bool)
    ensures
        r == (*a == *b),
{
    let bdgim: bool = match (&a.beidou_bdgim, &b.beidou_bdgim) {
        (Some(a), Some(b)) => same_nine(a, b),
        (None, None) => true,
        _ => false,
    };
    let galileo: bool = match (a.galileo, b.galileo) {
        (Some(a), Some(b)) => a == b,
        (None, None) => true,
        _ => false,
    };
    bdgim && galileo && same_optional_klobuchar(&a.gps, &b.gps) && same_optional_klobuchar(
        &a.beidou,
        &b.beidou,
    ) && same_number(a.galileo_disturbance_flags, b.galileo_disturbance_flags)
        && same_optional_klobuchar(&a.qzss, &b.qzss) && same_optional_klobuchar(&a.navic, &b.navic)
}

/// Whether two lists of rows state the same.
fn same_rows(a: &Vec<HeaderIonoRow>, b: &Vec<HeaderIonoRow>) -> (r: bool)
    ensures
        r == (row_views(a@) == row_views(b@)),
{
    let ghost x = row_views(a@);
    let ghost y = row_views(b@);
    if a.len() != b.len() {
        assert(x.len() != y.len());
        return false;
    }
    let mut i: usize = 0;
    while i < a.len()
        invariant
            x == row_views(a@),
            y == row_views(b@),
            a@.len() == b@.len(),
            i <= a@.len(),
            forall|k: int| 0 <= k < i ==> x[k] == y[k],
        decreases a@.len() - i,
    {
        if !a[i].same_as(&b[i]) {
            assert(x[i as int] != y[i as int]);
            return false;
        }
        assert(x[i as int] == y[i as int]);
        i = i + 1;
    }
    assert(x =~= y);
    true
}

impl TimeSystemCorrection {
    /// Whether two corrections state the same.
    fn same_as(&self, other: &TimeSystemCorrection) -> (r: bool)
        ensures
            r == (self@ == other@),
    {
        same(self.code.as_str(), other.code.as_str()) && self.a0_s == other.a0_s && same_number(
            self.a1_s_s,
            other.a1_s_s,
        ) && same_number(self.reference_time_s, other.reference_time_s) && same_number(
            self.reference_week,
            other.reference_week,
        ) && same_option(&self.source, &other.source) && same_option(&self.utc_id, &other.utc_id)
    }
}

/// Whether two lists of corrections state the same.
fn same_corrections(a: &Vec<TimeSystemCorrection>, b: &Vec<TimeSystemCorrection>) -> (r: bool)
    ensures
        r == (correction_views(a@) == correction_views(b@)),
{
    let ghost x = correction_views(a@);
    let ghost y = correction_views(b@);
    if a.len() != b.len() {
        assert(x.len() != y.len());
        return false;
    }
    let mut i: usize = 0;
    while i < a.len()
        invariant
            x == correction_views(a@),
            y == correction_views(b@),
            a@.len() == b@.len(),
            i <= a@.len(),
            forall|k: int| 0 <= k < i ==> x[k] == y[k],
        decreases a@.len() - i,
    {
        if !a[i].same_as(&b[i]) {
            assert(x[i as int] != y[i as int]);
            return false;
        }
        assert(x[i as int] == y[i as int]);
        i = i + 1;
    }
    assert(x =~= y);
    true
}

impl NavHeader {
    /// Whether two headers state the same, whatever text they were read from.
    pub fn same_as(&self, other: &NavHeader) -> (r: bool)
        ensures
            r == (self@ == other@),
    {
        let program: bool = match (&self.program, &other.program) {
            (Some(a), Some(b)) => same(a.program.as_str(), b.program.as_str()) && same(
                a.run_by.as_str(),
                b.run_by.as_str(),
            ) && same(a.date.as_str(), b.date.as_str()),
            (None, None) => true,
            _ => false,
        };
        let leap: bool = match (&self.leap_seconds, &other.leap_seconds) {
            (Some(a), Some(b)) => a.current == b.current && same_count(
                a.delta_future,
                b.delta_future,
            ) && same_count(a.week, b.week) && same_count(a.day, b.day) && same_option(
                &a.time_system,
                &b.time_system,
            ),
            (None, None) => true,
            _ => false,
        };
        assert(program == (program_view(self.program) == program_view(other.program)));
        assert(leap == (leap_view(self.leap_seconds) == leap_view(other.leap_seconds)));
        self.version == other.version && self.file_type == other.file_type && same_mark(
            self.satellite_system,
            other.satellite_system,
        ) && program && same_lines(&self.comments, &other.comments) && same_iono(
            &self.iono,
            &other.iono,
        ) && same_rows(&self.iono_rows, &other.iono_rows) && same_corrections(
            &self.time_system_corrections,
            &other.time_system_corrections,
        ) && leap && same_lines(&self.other_records, &other.other_records)
    }
}

} // verus!

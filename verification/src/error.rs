//! Errors and diagnostics of the readers.

use vstd::prelude::*;

use crate::decimal::{count_digits, digit_count, digits_text, push_digits};
use crate::text::{push, same, utf8};

verus! {

/// Why a RINEX NAV file, or one block of it, could not be read as the format lays it out.
#[derive(Debug, PartialEq, Eq)]
pub enum NavParseError {
    /// The header did not declare a supported RINEX navigation file.
    UnsupportedHeader(String),
    /// No `END OF HEADER` line was found.
    MissingHeaderEnd,
    /// A record was shorter than its message layout requires.
    TruncatedRecord(String),
    /// A required numeric field was missing or unparseable.
    BadField {
        /// The satellite whose record holds the bad field.
        satellite: String,
        /// Which field failed.
        field: &'static str,
    },
    /// A required header numeric field was malformed, non-finite, or out of range.
    BadHeaderField {
        /// Which header field failed.
        field: &'static str,
    },
    /// A non-blank body line that belongs to no record.
    UnexpectedLine {
        /// 1-based line number.
        line: usize,
    },
    /// A record followed by non-blank lines beyond its layout.
    ExtraRecordLines {
        /// The satellite whose record the lines follow.
        satellite: String,
    },
}

/// What a [`NavParseError`] states, its texts as bytes.
pub ghost enum Fault {
    /// The header did not declare a supported RINEX navigation file.
    UnsupportedHeader(Seq<u8>),
    /// No `END OF HEADER` line was found.
    MissingHeaderEnd,
    /// A record was shorter than its message layout requires.
    TruncatedRecord(Seq<u8>),
    /// A field of a satellite's record is bad.
    BadField(Seq<u8>, Seq<u8>),
    /// A header field is bad.
    BadHeaderField(Seq<u8>),
    /// A line belongs to no record.
    UnexpectedLine(int),
    /// Lines follow a satellite's record.
    ExtraRecordLines(Seq<u8>),
}

impl View for NavParseError {
    type V = Fault;

    open spec fn view(&self) -> Fault {
        match *self {
            NavParseError::UnsupportedHeader(s) => Fault::UnsupportedHeader(utf8(s@)),
            NavParseError::MissingHeaderEnd => Fault::MissingHeaderEnd,
            NavParseError::TruncatedRecord(s) => Fault::TruncatedRecord(utf8(s@)),
            NavParseError::BadField { satellite, field } => Fault::BadField(
                utf8(satellite@),
                utf8(field@),
            ),
            NavParseError::BadHeaderField { field } => Fault::BadHeaderField(utf8(field@)),
            NavParseError::UnexpectedLine { line } => Fault::UnexpectedLine(line as int),
            NavParseError::ExtraRecordLines { satellite } => Fault::ExtraRecordLines(
                utf8(satellite@),
            ),
        }
    }
}

/// A bad field of a record of `satellite`.
pub open spec fn bad_field(satellite: Seq<u8>, field: &'static str) -> Fault {
    Fault::BadField(satellite, utf8(field@))
}

/// A number in decimal digits.
pub open spec fn count_text(n: nat) -> Seq<u8> {
    digits_text(n, digit_count(n))
}

/// The text of an error.
pub open spec fn fault_text(fault: Fault) -> Seq<u8> {
    match fault {
        Fault::UnsupportedHeader(s) => utf8("unsupported RINEX NAV header: "@) + s,
        Fault::MissingHeaderEnd => utf8("no END OF HEADER line"@),
        Fault::TruncatedRecord(s) => utf8("truncated navigation record for "@) + s,
        Fault::BadField(satellite, field) => utf8("bad/missing "@) + field + utf8(
            " field in record for "@,
        ) + satellite,
        Fault::BadHeaderField(field) => utf8("bad/missing "@) + field + utf8(
            " field in navigation header"@,
        ),
        Fault::UnexpectedLine(line) => utf8("line "@) + count_text(line as nat) + utf8(
            " belongs to no navigation record"@,
        ),
        Fault::ExtraRecordLines(satellite) => utf8("navigation record for "@) + satellite + utf8(
            " is followed by lines beyond its layout"@,
        ),
    }
}

impl Clone for NavParseError {
    fn clone(&self) -> (r: NavParseError)
        ensures
            r@ == self@,
    {
        match self {
            NavParseError::UnsupportedHeader(s) => NavParseError::UnsupportedHeader(s.clone()),
            NavParseError::MissingHeaderEnd => NavParseError::MissingHeaderEnd,
            NavParseError::TruncatedRecord(s) => NavParseError::TruncatedRecord(s.clone()),
            NavParseError::BadField { satellite, field } => NavParseError::BadField {
                satellite: satellite.clone(),
                field: *field,
            },
            NavParseError::BadHeaderField { field } => NavParseError::BadHeaderField {
                field: *field,
            },
            NavParseError::UnexpectedLine { line } => NavParseError::UnexpectedLine { line: *line },
            NavParseError::ExtraRecordLines { satellite } => NavParseError::ExtraRecordLines {
                satellite: satellite.clone(),
            },
        }
    }
}

impl NavParseError {
    /// A bad field of a record of `satellite`.
    pub fn bad(satellite: &str, field: &'static str) -> (r: NavParseError)
        ensures
            r@ == bad_field(utf8(satellite@), field),
    {
        NavParseError::BadField { satellite: satellite.to_owned(), field }
    }

    /// A truncated record of `satellite`.
    pub fn truncated(satellite: &str) -> (r: NavParseError)
        ensures
            r@ == Fault::TruncatedRecord(utf8(satellite@)),
    {
        NavParseError::TruncatedRecord(satellite.to_owned())
    }

    /// Whether two errors state the same.
    pub fn same_as(&self, other: &NavParseError) -> (r: bool)
        ensures
            r == (self@ == other@),
    {
        match (self, other) {
            (NavParseError::UnsupportedHeader(a), NavParseError::UnsupportedHeader(b)) => same(
                a.as_str(),
                b.as_str(),
            ),
            (NavParseError::MissingHeaderEnd, NavParseError::MissingHeaderEnd) => true,
            (NavParseError::TruncatedRecord(a), NavParseError::TruncatedRecord(b)) => same(
                a.as_str(),
                b.as_str(),
            ),
            (
                NavParseError::BadField { satellite: a, field: f },
                NavParseError::BadField { satellite: b, field: g },
            ) => same(a.as_str(), b.as_str()) && same(f, g),
            (
                NavParseError::BadHeaderField { field: f },
                NavParseError::BadHeaderField { field: g },
            ) => same(f, g),
            (
                NavParseError::UnexpectedLine { line: a },
                NavParseError::UnexpectedLine { line: b },
            ) => *a == *b,
            (
                NavParseError::ExtraRecordLines { satellite: a },
                NavParseError::ExtraRecordLines { satellite: b },
            ) => same(a.as_str(), b.as_str()),
            _ => false,
        }
    }

    /// The text of the error (see [`fault_text`]).
    pub fn text(&self) -> (r: String)
        ensures
            utf8(r@) == fault_text(self@),
    {
        let mut out = String::new();
        assert(utf8(out@) =~= Seq::empty());
        match self {
            NavParseError::UnsupportedHeader(s) => {
                push(&mut out, "unsupported RINEX NAV header: ");
                push(&mut out, s.as_str());
            },
            NavParseError::MissingHeaderEnd => {
                push(&mut out, "no END OF HEADER line");
            },
            NavParseError::TruncatedRecord(s) => {
                push(&mut out, "truncated navigation record for ");
                push(&mut out, s.as_str());
            },
            NavParseError::BadField { satellite, field } => {
                push(&mut out, "bad/missing ");
                push(&mut out, field);
                push(&mut out, " field in record for ");
                push(&mut out, satellite.as_str());
            },
            NavParseError::BadHeaderField { field } => {
                push(&mut out, "bad/missing ");
                push(&mut out, field);
                push(&mut out, " field in navigation header");
            },
            NavParseError::UnexpectedLine { line } => {
                push(&mut out, "line ");
                push_digits(&mut out, *line as u128, count_digits(*line as u128));
                push(&mut out, " belongs to no navigation record");
            },
            NavParseError::ExtraRecordLines { satellite } => {
                push(&mut out, "navigation record for ");
                push(&mut out, satellite.as_str());
                push(&mut out, " is followed by lines beyond its layout");
            },
        }
        assert(utf8(out@) =~= fault_text(self@));
        out
    }
}

/// The views of a list of errors.
pub open spec fn faults(errors: Seq<NavParseError>) -> Seq<Fault> {
    errors.map_values(|e: NavParseError| e@)
}

/// A block that lenient reading could not decode or validate.
#[derive(Debug, Clone, PartialEq, Eq)]
pub struct SkippedNavBlock {
    /// Satellite token of the block.
    pub satellite: String,
    /// Text of the [`NavParseError`] met while reading the block.
    pub message: String,
    /// 1-based line number of the block's first line (the frame marker in RINEX 4).
    pub line: usize,
}

/// A departure from the format that a lenient reader read through: the record or header value
/// it concerns is kept, and the strict reader refuses it with [`Self::error`].
#[derive(Debug, Clone, PartialEq, Eq)]
pub struct NavDiagnostic {
    /// 1-based line number of the record (or header line) concerned.
    pub line: usize,
    /// Satellite token of the record concerned; empty for a header line.
    pub satellite: String,
    /// The departure, as the strict reader reports it.
    pub error: NavParseError,
}

/// A GLONASS record left out because its slot token names no satellite: the token range is
/// `R01` to `R99`.
#[derive(Debug, Clone, PartialEq, Eq)]
pub struct SkippedGlonass {
    /// The satellite token as it appeared in the file (`R00`).
    pub token: String,
    /// 1-based line number of the record's first line.
    pub line: usize,
}

/// What a block that the lenient Keplerian reader read but does not return holds.
#[derive(Debug, Clone, Copy, PartialEq, Eq, Structural)]
pub enum OtherNavBlockKind {
    /// A GLONASS record.
    Glonass,
    /// An SBAS record.
    Sbas,
    /// A RINEX 4 system time offset frame (`> STO`).
    SystemTimeOffset,
    /// A RINEX 4 Earth orientation frame (`> EOP`).
    EarthOrientation,
    /// A RINEX 4 ionosphere frame (`> ION`).
    Ionosphere,
    /// A message that is recognized and not decoded (BeiDou CNAV-1/2/3, NavIC L1).
    NotDecoded,
}

/// A block that the lenient Keplerian reader read but does not return as a record.
#[derive(Debug, Clone, PartialEq, Eq)]
pub struct OtherNavBlock {
    /// 1-based line number of the block's first line.
    pub line: usize,
    /// Satellite token of the block.
    pub satellite: String,
    /// The RINEX 4 message token, where the block has one.
    pub message_token: Option<String>,
    /// What the block holds.
    pub kind: OtherNavBlockKind,
}

} // verus!

//! RINEX navigation serialization, the inverse of [`crate::file::parse_nav_file`].
//!
//! Pure and deterministic: a given input always produces byte-identical text and no I/O is
//! performed.
//!
//! [`encode_nav_file`] writes a [`NavFile`]: the header and each entry are restated from the text
//! they were read from when that text still reads as the value held, so a file read and written
//! unchanged comes back byte for byte; anything built or changed in code is formatted from its
//! fields in the file's version. [`encode_nav`] writes a set of Keplerian records as a RINEX 3.04
//! file, or RINEX 4.02 frames when a CNAV-family record is present.

use vstd::prelude::*;

use crate::body::{
    block_of, content, contents, decode_block, ended_in_cr, groups, law_groups_partition,
    law_groups_start, lines_of, strip_first, Content, Entry, NavEntry, NavEntryKind, NavItem,
    UndecodedReason,
};
use crate::decimal::Decimal;
use crate::error::{faults, NavParseError};
use crate::file::{body_entries, file_of, File, NavFile};
use crate::format::{
    count_field, exp_field, exp_text, int_string, int_text, label_line, labelled, left,
    optional_exp, optional_exp_text, push_count, push_int, push_left, push_line, push_point,
    push_right, push_zero_filled, right, truncate, truncated, zero_filled,
};
use crate::frames::{EarthOrientation, IonosphereFrame, IonosphereModel, SystemTimeOffset};
use crate::header::{
    empty_scan, header_of, iono_from_rows, iono_of, is_unread_row, label_of, read_header, row_views,
    rows_as_read, rows_left, rows_not_kept, same_iono, same_klobuchar, same_nine, same_number,
    scan_lines, scanned, unread_row, Correction, Header, HeaderIonoRow, IonoRow, Label, NavHeader,
    PgmRunByDate, TimeSystemCorrection,
};
use crate::id::{GnssSatelliteId, GnssSystem};
use crate::lines::{
    cnav_lines_of, glonass_lines_of, ion_lines_of, keplerian_lines, marker_line, marker_text,
    offset_lines, orientation_lines, push_optional_left, sbas_lines_of, text_or_empty,
    write_cnav_record, write_eop_frame, write_glonass_record, write_ion_frame, write_record,
    write_sbas_record, write_sto_frame, RecordColumns,
};
use crate::marker::{frame_marker, is_v4_frame_marker};
use crate::record::{
    BroadcastRecord, GlonassRecord, IonoCorrections, KlobucharAlphaBeta, NavMessage, NavVersion,
    SbasRecord,
};
use crate::text::{
    extend_lines, join_lf, lemma_join_split, lemma_split_lf, no_text, own, push, push_char,
    push_spaces, same, same_option, spaces, split_lf, strings, texts, utf8,
};

verus! {

/// Why a navigation file cannot be written.
#[derive(Debug, Clone, PartialEq, Eq)]
pub enum NavWriteError {
    /// An entry the file's version cannot hold: a CNAV-family record or a RINEX 4 frame in RINEX 2
    /// or 3, a record of another system than a RINEX 2 file's type, or a Galileo record whose
    /// message is unclassified in RINEX 4, whose frame marker has to name the message.
    NotRepresentable {
        /// 1-based line of the entry in the file it was read from; 0 for an entry built in code.
        line: usize,
        /// What the version cannot hold.
        reason: &'static str,
    },
}

impl NavWriteError {
    /// The error in words.
    pub fn text(&self) -> (r: String)
        ensures
            utf8(r@) == (match *self {
                NavWriteError::NotRepresentable { line, reason } => utf8(
                    "navigation entry at line "@,
                ) + crate::error::count_text(line as nat) + utf8(" cannot be written: "@) + utf8(
                    reason@,
                ),
            }),
    {
        match self {
            NavWriteError::NotRepresentable { line, reason } => {
                let mut out = own("navigation entry at line ");
                let n: u128 = *line as u128;
                crate::decimal::push_digits(&mut out, n, crate::decimal::count_digits(n));
                push(&mut out, " cannot be written: ");
                push(&mut out, reason);
                out
            },
        }
    }
}

/// The header type text of a file.
pub open spec fn type_text(version: NavVersion, file_type: char) -> Seq<u8> {
    if version.major == 2 && file_type == 'N' {
        utf8("N: GPS NAV DATA"@)
    } else if version.major == 2 && file_type == 'G' {
        utf8("G: GLONASS NAV DATA"@)
    } else if version.major == 2 && file_type == 'H' {
        utf8("H: GEO NAV MSG DATA"@)
    } else {
        utf8(seq![file_type]) + utf8(": GNSS NAV DATA"@)
    }
}

/// The version as `major.minor`, the minor in two digits.
pub open spec fn version_number(version: NavVersion) -> Seq<u8> {
    int_text(version.major as int) + seq![46u8] + zero_filled(version.minor as int, 2)
}

impl NavVersion {
    /// The version as `major.minor`, the minor in two digits: `3.04`.
    pub fn text(&self) -> (r: String)
        ensures
            utf8(r@) == version_number(*self),
    {
        let mut number = int_string(self.major as i64);
        push_point(&mut number);
        push_zero_filled(&mut number, self.minor as i64, 2);
        assert(utf8(number@) =~= version_number(*self));
        number
    }
}

/// A character or nothing.
pub open spec fn mark_or_empty(mark: Option<char>) -> Seq<u8> {
    match mark {
        Some(c) => utf8(seq![c]),
        None => Seq::empty(),
    }
}

/// The `RINEX VERSION / TYPE` line.
#[verifier::opaque]
pub open spec fn version_text(h: Header) -> Seq<u8> {
    labelled(
        left(right(version_number(h.version), 9), 20) + left(
            type_text(h.version, h.file_type),
            20,
        ) + left(mark_or_empty(h.satellite_system), 20),
        utf8("RINEX VERSION / TYPE"@),
    )
}

/// The `PGM / RUN BY / DATE` line.
#[verifier::opaque]
pub open spec fn program_text(p: crate::header::Program) -> Seq<u8> {
    labelled(
        left(truncated(p.program, 20), 20) + left(truncated(p.run_by, 20), 20) + left(
            truncated(p.date, 20),
            20,
        ),
        utf8("PGM / RUN BY / DATE"@),
    )
}

/// The `COMMENT` lines.
pub open spec fn comment_lines(comments: Seq<Seq<u8>>) -> Seq<Seq<u8>> {
    comments.map_values(|c: Seq<u8>| labelled(truncated(c, 60), utf8("COMMENT"@)))
}

/// The two rows of a Klobuchar set.
pub open spec fn klobuchar_rows(a: Seq<u8>, b: Seq<u8>, set: Option<KlobucharAlphaBeta>) -> Seq<
    IonoRow,
> {
    match set {
        Some(set) => seq![
            IonoRow {
                label: a,
                values: set.alpha@.map_values(|d: Decimal| Some(d)),
                mark: None,
                satellite: None,
            },
            IonoRow {
                label: b,
                values: set.beta@.map_values(|d: Decimal| Some(d)),
                mark: None,
                satellite: None,
            },
        ],
        None => Seq::empty(),
    }
}

/// Header rows for coefficient sets built in code, in the order RINEX lists them.
pub open spec fn iono_rows_of(iono: IonoCorrections) -> Seq<IonoRow> {
    klobuchar_rows(utf8("GPSA"@), utf8("GPSB"@), iono.gps) + klobuchar_rows(
        utf8("QZSA"@),
        utf8("QZSB"@),
        iono.qzss,
    ) + klobuchar_rows(utf8("BDSA"@), utf8("BDSB"@), iono.beidou) + klobuchar_rows(
        utf8("IRNA"@),
        utf8("IRNB"@),
        iono.navic,
    ) + match iono.galileo {
        Some(gal) => seq![
            IonoRow {
                label: utf8("GAL"@),
                values: seq![
                    Some(gal.ai0),
                    Some(gal.ai1),
                    Some(gal.ai2),
                    iono.galileo_disturbance_flags,
                ],
                mark: None,
                satellite: None,
            },
        ],
        None => Seq::empty(),
    }
}

/// The coefficient rows to write: the rows held, less those kept as lines among the other records,
/// while they form the sets held, else rows for the sets.
#[verifier::opaque]
pub open spec fn rows_written(h: Header) -> Seq<IonoRow> {
    let rows = rows_left(h.rows, h.other);
    if rows.len() == 0 || iono_of(rows_as_read(rows)) != h.iono {
        iono_rows_of(h.iono)
    } else {
        rows
    }
}

/// The other records that are coefficient records whose values could not be read, or those that
/// are not.
pub open spec fn picked(other: Seq<Seq<u8>>, unread: bool) -> Seq<Seq<u8>>
    decreases other.len(),
{
    if other.len() == 0 {
        other
    } else if unread_row(other.last()) == unread {
        picked(other.drop_last(), unread).push(other.last())
    } else {
        picked(other.drop_last(), unread)
    }
}

/// Four coefficients in twelve columns each.
pub open spec fn coefficients_text(values: Seq<Option<Decimal>>) -> Seq<u8> {
    optional_exp_text(values[0], 4, 12) + optional_exp_text(values[1], 4, 12) + optional_exp_text(
        values[2],
        4,
        12,
    ) + optional_exp_text(values[3], 4, 12)
}

/// A coefficient row: RINEX 2 writes the GPS rows as `ION ALPHA`/`ION BETA`; every other row is an
/// `IONOSPHERIC CORR` record, which the reader takes in any version.
#[verifier::opaque]
pub open spec fn iono_row_text(row: IonoRow, version: NavVersion) -> Seq<u8> {
    let values = coefficients_text(row.values);
    if version.major == 2 && row.label == utf8("GPSA"@) {
        labelled(spaces(2) + values, utf8("ION ALPHA"@))
    } else if version.major == 2 && row.label == utf8("GPSB"@) {
        labelled(spaces(2) + values, utf8("ION BETA"@))
    } else {
        let tail = if row.mark is Some || row.satellite is Some {
            spaces(1) + (match row.mark {
                Some(c) => utf8(seq![c]),
                None => spaces(1),
            }) + spaces(1) + left(text_or_empty(row.satellite), 3)
        } else {
            Seq::empty()
        };
        labelled(left(row.label, 4) + spaces(1) + values + tail, utf8("IONOSPHERIC CORR"@))
    }
}

/// A time system correction line: RINEX 2 writes `GPUT` as `DELTA-UTC: A0,A1,T,W`.
#[verifier::opaque]
pub open spec fn correction_text(c: Correction, version: NavVersion) -> Seq<u8> {
    if version.major == 2 && c.code == utf8("GPUT"@) {
        labelled(
            spaces(3) + exp_text(c.a0, 12, 19) + optional_exp_text(c.a1, 12, 19) + count_field(
                c.time,
                9,
            ) + count_field(c.week, 9),
            utf8("DELTA-UTC: A0,A1,T,W"@),
        )
    } else {
        labelled(
            left(c.code, 4) + spaces(1) + exp_text(c.a0, 10, 17) + optional_exp_text(c.a1, 9, 16)
                + count_field(c.time, 7) + count_field(c.week, 5) + spaces(1) + left(
                text_or_empty(c.source),
                5,
            ) + spaces(1) + left(text_or_empty(c.utc_id), 2),
            utf8("TIME SYSTEM CORR"@),
        )
    }
}

/// An integer in six columns; blanks where there is none.
pub open spec fn leap_int(n: Option<int>) -> Seq<u8> {
    match n {
        Some(n) => right(int_text(n), 6),
        None => spaces(6),
    }
}

/// The `LEAP SECONDS` line.
#[verifier::opaque]
pub open spec fn leap_text(leap: crate::header::Leap) -> Seq<u8> {
    labelled(
        leap_int(Some(leap.current)) + leap_int(leap.future) + leap_int(leap.week) + leap_int(
            leap.day,
        ) + left(text_or_empty(leap.system), 3),
        utf8("LEAP SECONDS"@),
    )
}

/// The program line, where there is one.
pub open spec fn program_lines(program: Option<crate::header::Program>) -> Seq<Seq<u8>> {
    match program {
        Some(p) => seq![program_text(p)],
        None => Seq::empty(),
    }
}

/// The leap second line, where there is one.
pub open spec fn leap_lines(leap: Option<crate::header::Leap>) -> Seq<Seq<u8>> {
    match leap {
        Some(leap) => seq![leap_text(leap)],
        None => Seq::empty(),
    }
}

/// The coefficient lines.
pub open spec fn row_lines(rows: Seq<IonoRow>, version: NavVersion) -> Seq<Seq<u8>> {
    rows.map_values(|row: IonoRow| iono_row_text(row, version))
}

/// The time system correction lines.
pub open spec fn correction_lines(rows: Seq<Correction>, version: NavVersion) -> Seq<Seq<u8>> {
    rows.map_values(|c: Correction| correction_text(c, version))
}

/// The lines of a header formatted from its fields. The coefficient records whose values could not
/// be read stand before the rows, so that they replace none of them.
#[verifier::opaque]
pub open spec fn header_lines(h: Header) -> Seq<Seq<u8>> {
    seq![version_text(h)] + program_lines(h.program) + comment_lines(h.comments) + picked(
        h.other,
        true,
    ) + row_lines(rows_written(h), h.version) + correction_lines(h.corrections, h.version)
        + leap_lines(h.leap) + picked(h.other, false) + seq![
        labelled(Seq::empty(), utf8("END OF HEADER"@)),
    ]
}

/// Every other record is among those picked.
proof fn lemma_picked(other: Seq<Seq<u8>>, k: int)
    requires
        0 <= k < other.len(),
    ensures
        picked(other, unread_row(other[k])).contains(other[k]),
    decreases other.len(),
{
    let unread = unread_row(other[k]);
    let head = other.drop_last();
    let all = picked(other, unread);
    if k < head.len() {
        lemma_picked(head, k);
        let before = picked(head, unread);
        let i = choose|i: int| 0 <= i < before.len() && before[i] == other[k];
        assert(all[i] == other[k]);
    } else {
        assert(all[all.len() - 1] == other[k]);
    }
}

/// A header formatted from its fields states every other record verbatim, those whose values could
/// not be read among them.
pub proof fn law_other_records_written(h: Header)
    ensures
        forall|k: int| 0 <= k < h.other.len() ==> header_lines(h).contains(#[trigger] h.other[k]),
{
    reveal(header_lines);
    assert forall|k: int| 0 <= k < h.other.len() implies header_lines(h).contains(
        #[trigger] h.other[k],
    ) by {
        let unread = unread_row(h.other[k]);
        lemma_picked(h.other, k);
        let part = picked(h.other, unread);
        let i = choose|i: int| 0 <= i < part.len() && part[i] == h.other[k];
        let before = seq![version_text(h)] + program_lines(h.program) + comment_lines(h.comments);
        let rest = row_lines(rows_written(h), h.version) + correction_lines(
            h.corrections,
            h.version,
        ) + leap_lines(h.leap);
        let at = if unread {
            before.len() + i
        } else {
            before.len() + picked(h.other, true).len() + rest.len() + i
        };
        assert(header_lines(h)[at] == h.other[k]);
    }
}

/// Whether a header's text still reads as the header.
#[verifier::opaque]
pub open spec fn header_restated(h: Header, text: Seq<Seq<u8>>) -> bool {
    text.len() > 0 && match header_of(contents(text), true) {
        Ok((read, start, _)) => start == text.len() && read == h,
        Err(_) => false,
    }
}

/// Whether an entry's text still reads, in the file's version (which an edit may have changed), as
/// what the entry holds, with no departure from the format the entry did not already have. Lines
/// that belong to no block and blocks kept as text are restated.
#[verifier::opaque]
pub open spec fn entry_restated(entry: Entry, version: NavVersion, file_type: char) -> bool {
    let lines = contents(entry.text);
    let block = block_of(lines, version, file_type);
    entry.text.len() > 0 && (entry.block.content is Kept || entry.block.kind == NavEntryKind::Stray
        || ((version.major >= 4 ==> frame_marker(lines[0])) && block.content == entry.block.content
        && forall|k: int|
        0 <= k < block.departures.len() ==> entry.block.departures.contains(
            #[trigger] block.departures[k],
        )))
}

/// The message token of a RINEX 4 frame; an unclassified Galileo message has none.
pub open spec fn token_of_message(message: NavMessage) -> Option<Seq<u8>> {
    match message {
        NavMessage::GpsLnav | NavMessage::QzssLnav | NavMessage::NavicLnav => Some(utf8("LNAV"@)),
        NavMessage::GpsCnav | NavMessage::QzssCnav => Some(utf8("CNAV"@)),
        NavMessage::GpsCnav2 | NavMessage::QzssCnav2 => Some(utf8("CNV2"@)),
        NavMessage::GalileoInav => Some(utf8("INAV"@)),
        NavMessage::GalileoFnav => Some(utf8("FNAV"@)),
        NavMessage::BeidouD1 => Some(utf8("D1"@)),
        NavMessage::BeidouD2 => Some(utf8("D2"@)),
        NavMessage::GalileoUnclassified => None,
    }
}

/// The columns for a record of a satellite in a file before version 4: a numeric PRN in version 2
/// `N` (GPS, and QZSS as PRN 93-97), `G` and `H` files, the version 3 columns in version 3 and in
/// the lettered `J` and `L` extensions; `None` for a record of another system than the file type's.
pub open spec fn columns_for(sat: GnssSatelliteId, version: NavVersion, file_type: char) -> Option<
    RecordColumns,
> {
    if version.major != 2 {
        Some(RecordColumns::V3)
    } else if (file_type == 'N' && sat.system == GnssSystem::Gps) || (file_type == 'G' && sat.system
        == GnssSystem::Glonass) || (file_type == 'H' && sat.system == GnssSystem::Sbas) {
        Some(RecordColumns::V2 { prn: sat.prn })
    } else if file_type == 'N' && sat.system == GnssSystem::Qzss && 1 <= sat.prn <= 5 {
        Some(RecordColumns::V2 { prn: (sat.prn + 92) as u8 })
    } else if (file_type == 'J' && sat.system == GnssSystem::Qzss) || (file_type == 'L'
        && sat.system == GnssSystem::Galileo) {
        Some(RecordColumns::V3)
    } else {
        None
    }
}

/// The reason a record of another system is refused in RINEX 2.
pub open spec fn other_system() -> &'static str {
    "a RINEX 2 file holds records of its own file type's system"
}

/// The lines of a Keplerian record formatted from its fields, or why the version cannot hold it.
pub open spec fn ephemeris_lines(record: BroadcastRecord, version: NavVersion, file_type: char) -> Result<
    Seq<Seq<u8>>,
    &'static str,
> {
    if version.major >= 4 {
        match token_of_message(record.message) {
            None => Err("an unclassified Galileo message has no RINEX 4 token"),
            Some(token) => {
                let marker = seq![marker_text(utf8("> EPH "@), record.satellite_id, token)];
                if !record.message.cnav_family() {
                    Ok(marker + keplerian_lines(record, version, RecordColumns::V3))
                } else {
                    match record.cnav {
                        None => Err("a CNAV-family record without CNAV parameters"),
                        Some(cnav) => Ok(marker + cnav_lines_of(record, cnav)),
                    }
                }
            },
        }
    } else if record.message.cnav_family() {
        Err("a CNAV-family record needs RINEX 4")
    } else {
        match columns_for(record.satellite_id, version, file_type) {
            None => Err(other_system()),
            Some(columns) => Ok(keplerian_lines(record, version, columns)),
        }
    }
}

/// The lines of what an entry holds, formatted from its fields, or why the version cannot hold it.
#[verifier::opaque]
pub open spec fn entry_lines(entry: Entry, version: NavVersion, file_type: char) -> Result<
    Seq<Seq<u8>>,
    &'static str,
> {
    let needs_v4: Result<Seq<Seq<u8>>, &'static str> = Err("a RINEX 4 frame needs RINEX 4");
    match entry.block.content {
        Content::Ephemeris(record) => ephemeris_lines(record, version, file_type),
        Content::Glonass(record) => if version.major >= 4 {
            Ok(
                seq![marker_text(utf8("> EPH "@), record.satellite_id, utf8("FDMA"@))]
                    + glonass_lines_of(record, version, RecordColumns::V3),
            )
        } else {
            match columns_for(
                GnssSatelliteId { system: GnssSystem::Glonass, prn: record.satellite_id.prn },
                version,
                file_type,
            ) {
                None => Err(other_system()),
                Some(columns) => Ok(glonass_lines_of(record, version, columns)),
            }
        },
        Content::Sbas(record) => if version.major >= 4 {
            Ok(
                seq![marker_text(utf8("> EPH "@), record.satellite_id, utf8("SBAS"@))]
                    + sbas_lines_of(record, RecordColumns::V3),
            )
        } else {
            match columns_for(
                GnssSatelliteId { system: GnssSystem::Sbas, prn: record.satellite_id.prn },
                version,
                file_type,
            ) {
                None => Err(other_system()),
                Some(columns) => Ok(sbas_lines_of(record, columns)),
            }
        },
        Content::Offset(frame) => if version.major >= 4 {
            Ok(offset_lines(frame))
        } else {
            needs_v4
        },
        Content::Orientation(frame) => if version.major >= 4 {
            Ok(orientation_lines(frame))
        } else {
            needs_v4
        },
        Content::Ion(frame) => if version.major >= 4 {
            Ok(ion_lines_of(frame))
        } else {
            needs_v4
        },
        Content::Kept(..) => Ok(entry.text),
    }
}

/// The lines an entry is written in: its text while it is restated, else what is formatted from
/// its fields.
#[verifier::opaque]
pub open spec fn entry_written(entry: Entry, version: NavVersion, file_type: char) -> Result<
    Seq<Seq<u8>>,
    &'static str,
> {
    if entry_restated(entry, version, file_type) {
        Ok(entry.text)
    } else {
        entry_lines(entry, version, file_type)
    }
}

/// The lines entries are written in, in order, or the first entry that cannot be written and why.
pub open spec fn body_written(entries: Seq<Entry>, version: NavVersion, file_type: char) -> Result<
    Seq<Seq<u8>>,
    (int, &'static str),
>
    decreases entries.len(),
{
    if entries.len() == 0 {
        Ok(Seq::empty())
    } else {
        match body_written(entries.drop_last(), version, file_type) {
            Err(e) => Err(e),
            Ok(before) => match entry_written(entries.last(), version, file_type) {
                Err(reason) => Err((entries.last().line, reason)),
                Ok(lines) => Ok(before + lines),
            },
        }
    }
}

/// The lines a file is written in.
pub open spec fn lines_written(file: File) -> Result<Seq<Seq<u8>>, (int, &'static str)> {
    let head = if header_restated(file.header, file.header_text) {
        file.header_text
    } else {
        header_lines(file.header)
    };
    match body_written(file.entries, file.header.version, file.header.file_type) {
        Err(e) => Err(e),
        Ok(body) => Ok(head + body),
    }
}

/// A line terminator.
pub open spec fn terminator(crlf: bool) -> Seq<u8> {
    if crlf {
        seq![13u8, 10u8]
    } else {
        seq![10u8]
    }
}

/// Lines as one text: each ends with the terminator, the last only where `last` says so.
pub open spec fn joined(lines: Seq<Seq<u8>>, crlf: bool, last: bool) -> Seq<u8>
    decreases lines.len(),
{
    if lines.len() == 0 {
        Seq::empty()
    } else {
        joined(lines.drop_last(), crlf, true) + lines.last() + (if last {
            terminator(crlf)
        } else {
            Seq::empty()
        })
    }
}

/// Whether two sets of three values are the same.
fn same_three(a: &[Decimal; 3], b: &[Decimal; 3]) -> (r: bool)
    ensures
        r == (*a == *b),
{
    let r: bool = a[0] == b[0] && a[1] == b[1] && a[2] == b[2];
    proof {
        if r {
            assert(a@ =~= b@);
            assert(*a =~= *b);
        }
    }
    r
}

/// Whether two sets of three optional values are the same.
fn same_three_optional(a: &[Option<Decimal>; 3], b: &[Option<Decimal>; 3]) -> (r: bool)
    ensures
        r == (a@ == b@),
{
    let r: bool = same_number(a[0], b[0]) && same_number(a[1], b[1]) && same_number(a[2], b[2]);
    proof {
        if r {
            assert(a@ =~= b@);
        }
    }
    r
}

/// Whether two GLONASS records are the same.
fn same_glonass(a: &GlonassRecord, b: &GlonassRecord) -> (r: bool)
    ensures
        r == (*a == *b),
{
    a.satellite_id == b.satellite_id && a.toe_utc_j2000_s == b.toe_utc_j2000_s
        && a.epoch_utc_j2000_s == b.epoch_utc_j2000_s && same_three(&a.pos_m, &b.pos_m)
        && same_three(&a.vel_m_s, &b.vel_m_s) && same_three(&a.acc_m_s2, &b.acc_m_s2) && a.clk_bias
        == b.clk_bias && a.gamma_n == b.gamma_n && a.sv_health == b.sv_health && a.freq_channel
        == b.freq_channel && a.stated_freq_channel == b.stated_freq_channel && same_number(
        a.message_frame_time_s,
        b.message_frame_time_s,
    ) && same_number(a.age_days, b.age_days) && same_number(a.status_flags, b.status_flags)
        && same_number(a.l1_l2_group_delay_field_s, b.l1_l2_group_delay_field_s) && same_number(
        a.urai,
        b.urai,
    ) && same_number(a.health_flags, b.health_flags)
}

/// Whether two SBAS records are the same.
fn same_sbas(a: &SbasRecord, b: &SbasRecord) -> (r: bool)
    ensures
        r == (*a == *b),
{
    a.satellite_id == b.satellite_id && a.epoch == b.epoch && a.af0_s == b.af0_s && a.af1_s_s
        == b.af1_s_s && same_number(a.message_frame_time_s, b.message_frame_time_s) && same_three(
        &a.pos_m,
        &b.pos_m,
    ) && same_three(&a.vel_m_s, &b.vel_m_s) && same_three(&a.acc_m_s2, &b.acc_m_s2) && a.health
        == b.health && same_number(a.ura_m, b.ura_m) && same_number(a.iodn, b.iodn)
}

/// Whether two system time offset frames state the same.
fn same_offset(a: &SystemTimeOffset, b: &SystemTimeOffset) -> (r: bool)
    ensures
        r == (a@ == b@),
{
    a.satellite_id == b.satellite_id && same(a.message_token.as_str(), b.message_token.as_str())
        && a.reference_epoch == b.reference_epoch && same(
        a.offset_code.as_str(),
        b.offset_code.as_str(),
    ) && same_option(&a.sbas_id, &b.sbas_id) && same_option(&a.utc_id, &b.utc_id)
        && a.transmission_time_sow == b.transmission_time_sow && a.a0_s == b.a0_s && same_number(
        a.a1_s_s,
        b.a1_s_s,
    ) && same_number(a.a2_s_s2, b.a2_s_s2)
}

/// Whether two Earth orientation frames state the same.
fn same_orientation(a: &EarthOrientation, b: &EarthOrientation) -> (r: bool)
    ensures
        r == (a@ == b@),
{
    a.satellite_id == b.satellite_id && same(a.message_token.as_str(), b.message_token.as_str())
        && a.reference_epoch == b.reference_epoch && same_three_optional(&a.xp, &b.xp)
        && same_three_optional(&a.yp, &b.yp) && a.transmission_time_sow == b.transmission_time_sow
        && same_three_optional(&a.dut1, &b.dut1)
}

/// Whether two lists of values are the same.
fn same_values(a: &Vec<Option<Decimal>>, b: &Vec<Option<Decimal>>) -> (r: bool)
    ensures
        r == (a@ == b@),
{
    if a.len() != b.len() {
        return false;
    }
    let mut i: usize = 0;
    while i < a.len()
        invariant
            a@.len() == b@.len(),
            i <= a@.len(),
            forall|k: int| 0 <= k < i ==> a@[k] == b@[k],
        decreases a@.len() - i,
    {
        if !same_number(a[i], b[i]) {
            return false;
        }
        i = i + 1;
    }
    assert(a@ =~= b@);
    true
}

/// Whether two ionosphere models are the same.
fn same_model(a: &IonosphereModel, b: &IonosphereModel) -> (r: bool)
    ensures
        r == (*a == *b),
{
    match (a, b) {
        (
            IonosphereModel::Klobuchar { coefficients: a, region_code: ra },
            IonosphereModel::Klobuchar { coefficients: b, region_code: rb },
        ) => same_klobuchar(a, b) && same_number(*ra, *rb),
        (
            IonosphereModel::NequickG { coefficients: a, disturbance_flags: fa },
            IonosphereModel::NequickG { coefficients: b, disturbance_flags: fb },
        ) => *a == *b && same_number(*fa, *fb),
        (IonosphereModel::Bdgim(a), IonosphereModel::Bdgim(b)) => same_nine(a, b),
        _ => false,
    }
}

/// Whether two ionosphere frames state the same.
fn same_ion(a: &IonosphereFrame, b: &IonosphereFrame) -> (r: bool)
    ensures
        r == (a@ == b@),
{
    a.satellite_id == b.satellite_id && same(a.message_token.as_str(), b.message_token.as_str())
        && a.transmission_epoch == b.transmission_epoch && same_values(&a.values, &b.values)
        && same_model(&a.model, &b.model)
}

/// Whether two reasons are the same.
fn same_reason(a: &UndecodedReason, b: &UndecodedReason) -> (r: bool)
    ensures
        r == (a@ == b@),
{
    match (a, b) {
        (UndecodedReason::NotDecoded, UndecodedReason::NotDecoded) => true,
        (UndecodedReason::Malformed(a), UndecodedReason::Malformed(b)) => a.same_as(b),
        (UndecodedReason::Stray, UndecodedReason::Stray) => true,
        _ => false,
    }
}

impl NavItem {
    /// Whether two items state the same.
    pub fn same_as(&self, other: &NavItem) -> (r: bool)
        ensures
            r == (self@ == other@),
    {
        match (self, other) {
            (NavItem::Ephemeris(a), NavItem::Ephemeris(b)) => *a == *b,
            (NavItem::Glonass(a), NavItem::Glonass(b)) => same_glonass(a, b),
            (NavItem::Sbas(a), NavItem::Sbas(b)) => same_sbas(a, b),
            (NavItem::SystemTimeOffset(a), NavItem::SystemTimeOffset(b)) => same_offset(a, b),
            (NavItem::EarthOrientation(a), NavItem::EarthOrientation(b)) => same_orientation(a, b),
            (NavItem::Ionosphere(a), NavItem::Ionosphere(b)) => same_ion(a, b),
            (NavItem::Undecoded(a), NavItem::Undecoded(b)) => same(
                a.satellite.as_str(),
                b.satellite.as_str(),
            ) && same_option(&a.message_token, &b.message_token) && same_reason(
                &a.reason,
                &b.reason,
            ),
            _ => false,
        }
    }
}

/// The lines as the field readers see them (see [`contents`]).
fn stripped<'a>(lines: &'a Vec<String>) -> (r: Vec<&'a str>)
    ensures
        texts(r@) == contents(strings(lines@)),
{
    let ghost all = strings(lines@);
    let mut out: Vec<&'a str> = Vec::new();
    let mut i: usize = 0;
    while i < lines.len()
        invariant
            all == strings(lines@),
            i <= lines@.len(),
            out@.len() == i,
            forall|k: int| 0 <= k < i ==> utf8((#[trigger] out@[k])@) == contents(all)[k],
        decreases lines@.len() - i,
    {
        assert(all[i as int] == utf8(lines@[i as int]@));
        out.push(content(lines[i].as_str()));
        i = i + 1;
    }
    assert(texts(out@) =~= contents(all));
    out
}

/// Whether a header's text still reads as the header (see [`header_restated`]).
fn header_text_reads_as(header: &NavHeader) -> (r: bool)
    ensures
        r == header_restated(header@, strings(header.text@)),
{
    reveal(header_restated);
    if header.text.len() == 0 {
        return false;
    }
    let lines = stripped(&header.text);
    match read_header(&lines) {
        Ok(read) => read.body_start == lines.len() && read.header.same_as(header),
        Err(_) => false,
    }
}

/// Whether an error is among others.
fn is_among(error: &NavParseError, errors: &Vec<NavParseError>) -> (r: bool)
    ensures
        r == faults(errors@).contains(error@),
{
    let ghost all = faults(errors@);
    let mut i: usize = 0;
    while i < errors.len()
        invariant
            all == faults(errors@),
            i <= errors@.len(),
            forall|k: int| 0 <= k < i ==> all[k] != error@,
        decreases errors@.len() - i,
    {
        assert(all[i as int] == errors@[i as int]@);
        if error.same_as(&errors[i]) {
            return true;
        }
        i = i + 1;
    }
    false
}

/// Whether all of some errors are among others.
fn are_among(some: &Vec<NavParseError>, errors: &Vec<NavParseError>) -> (r: bool)
    ensures
        r == (forall|k: int|
            0 <= k < faults(some@).len() ==> faults(errors@).contains(
                #[trigger] faults(some@)[k],
            )),
{
    let ghost all = faults(some@);
    let mut i: usize = 0;
    while i < some.len()
        invariant
            all == faults(some@),
            i <= some@.len(),
            forall|k: int| 0 <= k < i ==> faults(errors@).contains(#[trigger] all[k]),
        decreases some@.len() - i,
    {
        assert(all[i as int] == some@[i as int]@);
        if !is_among(&some[i], errors) {
            return false;
        }
        i = i + 1;
    }
    true
}

/// Whether an entry's text is restated (see [`entry_restated`]).
fn entry_text_reads_as(entry: &NavEntry, version: NavVersion, file_type: char) -> (r: bool)
    ensures
        r == entry_restated(entry@, version, file_type),
{
    reveal(entry_restated);
    if entry.text.len() == 0 {
        return false;
    }
    let kept: bool = match &entry.item {
        NavItem::Undecoded(_) => true,
        _ => false,
    };
    if kept || entry.kind == NavEntryKind::Stray {
        return true;
    }
    let lines = stripped(&entry.text);
    assert(texts(lines@).len() == strings(entry.text@).len());
    assert(texts(lines@)[0] == utf8(lines@[0]@));
    if version.major >= 4 && !is_v4_frame_marker(lines[0]) {
        return false;
    }
    let decoded = decode_block(lines.as_slice(), version, file_type);
    assert(decoded.block() == block_of(contents(strings(entry.text@)), version, file_type));
    assert(decoded.block().departures == faults(decoded.departures@));
    decoded.item.same_as(&entry.item) && are_among(&decoded.departures, &entry.departures)
}

/// The `RINEX VERSION / TYPE` line (see [`version_text`]).
fn version_line_of(header: &NavHeader) -> (r: String)
    ensures
        utf8(r@) == version_text(header@),
{
    reveal(version_text);
    let number = header.version.text();
    let mut padded = own(no_text());
    push_right(&mut padded, number.as_str(), 9);
    assert(utf8(padded@) =~= right(version_number(header.version), 9));
    let mut kind = own(no_text());
    if header.version.major == 2 && header.file_type == 'N' {
        push(&mut kind, "N: GPS NAV DATA");
    } else if header.version.major == 2 && header.file_type == 'G' {
        push(&mut kind, "G: GLONASS NAV DATA");
    } else if header.version.major == 2 && header.file_type == 'H' {
        push(&mut kind, "H: GEO NAV MSG DATA");
    } else {
        push_char(&mut kind, header.file_type);
        push(&mut kind, ": GNSS NAV DATA");
    }
    assert(utf8(kind@) =~= type_text(header.version, header.file_type));
    let mut system = own(no_text());
    if let Some(c) = header.satellite_system {
        push_char(&mut system, c);
    }
    assert(utf8(system@) =~= mark_or_empty(header.satellite_system));
    let mut line = own(no_text());
    push_left(&mut line, padded.as_str(), 20);
    push_left(&mut line, kind.as_str(), 20);
    push_left(&mut line, system.as_str(), 20);
    assert(utf8(line@) =~= left(right(version_number(header.version), 9), 20) + left(
        type_text(header.version, header.file_type),
        20,
    ) + left(mark_or_empty(header.satellite_system), 20));
    label_line(line.as_str(), "RINEX VERSION / TYPE")
}

/// The `PGM / RUN BY / DATE` line (see [`program_text`]).
fn program_line(program: &PgmRunByDate) -> (r: String)
    ensures
        utf8(r@) == program_text(program@),
{
    reveal(program_text);
    let mut line = own(no_text());
    push_left(&mut line, truncate(program.program.as_str(), 20), 20);
    push_left(&mut line, truncate(program.run_by.as_str(), 20), 20);
    push_left(&mut line, truncate(program.date.as_str(), 20), 20);
    let ghost p = program@;
    assert(utf8(line@) =~= left(truncated(p.program, 20), 20) + left(truncated(p.run_by, 20), 20)
        + left(truncated(p.date, 20), 20));
    label_line(line.as_str(), "PGM / RUN BY / DATE")
}

/// Append the two rows of a Klobuchar set (see [`klobuchar_rows`]).
fn push_klobuchar(
    rows: &mut Vec<HeaderIonoRow>,
    a: &str,
    b: &str,
    set: Option<KlobucharAlphaBeta>,
)
    ensures
        row_views(final(rows)@) == row_views(old(rows)@) + klobuchar_rows(utf8(a@), utf8(b@), set),
{
    let ghost before = row_views(rows@);
    if let Some(set) = set {
        let (x, y) = (set.alpha, set.beta);
        let first = HeaderIonoRow {
            label: own(a),
            values: [Some(x[0]), Some(x[1]), Some(x[2]), Some(x[3])],
            time_mark: None,
            satellite: None,
        };
        let second = HeaderIonoRow {
            label: own(b),
            values: [Some(y[0]), Some(y[1]), Some(y[2]), Some(y[3])],
            time_mark: None,
            satellite: None,
        };
        proof {
            assert(first.values@ =~= set.alpha@.map_values(|d: Decimal| Some(d)));
            assert(second.values@ =~= set.beta@.map_values(|d: Decimal| Some(d)));
        }
        rows.push(first);
        rows.push(second);
    }
    assert(row_views(rows@) =~= before + klobuchar_rows(utf8(a@), utf8(b@), set));
}

/// Header rows for coefficient sets built in code (see [`iono_rows_of`]).
fn rows_from_iono(iono: &IonoCorrections) -> (r: Vec<HeaderIonoRow>)
    ensures
        row_views(r@) == iono_rows_of(*iono),
{
    let mut rows: Vec<HeaderIonoRow> = Vec::new();
    assert(row_views(rows@) =~= Seq::empty());
    push_klobuchar(&mut rows, "GPSA", "GPSB", iono.gps);
    push_klobuchar(&mut rows, "QZSA", "QZSB", iono.qzss);
    push_klobuchar(&mut rows, "BDSA", "BDSB", iono.beidou);
    push_klobuchar(&mut rows, "IRNA", "IRNB", iono.navic);
    let ghost before = row_views(rows@);
    if let Some(gal) = iono.galileo {
        let row = HeaderIonoRow {
            label: own("GAL"),
            values: [Some(gal.ai0), Some(gal.ai1), Some(gal.ai2), iono.galileo_disturbance_flags],
            time_mark: None,
            satellite: None,
        };
        assert(row.values@ =~= seq![
            Some(gal.ai0),
            Some(gal.ai1),
            Some(gal.ai2),
            iono.galileo_disturbance_flags,
        ]);
        let ghost view = row@;
        rows.push(row);
        assert(row_views(rows@) =~= before.push(view));
    }
    assert(row_views(rows@) =~= iono_rows_of(*iono));
    rows
}

/// A coefficient row (see [`iono_row_text`]).
fn format_iono_row(row: &HeaderIonoRow, version: NavVersion) -> (r: String)
    ensures
        utf8(r@) == iono_row_text(row@, version),
{
    reveal(iono_row_text);
    let mut values = own(no_text());
    optional_exp(&mut values, row.values[0], 4, 12);
    optional_exp(&mut values, row.values[1], 4, 12);
    optional_exp(&mut values, row.values[2], 4, 12);
    optional_exp(&mut values, row.values[3], 4, 12);
    assert(utf8(values@) =~= coefficients_text(row@.values));
    let mut line = own(no_text());
    if version.major == 2 && (same(row.label.as_str(), "GPSA") || same(
        row.label.as_str(),
        "GPSB",
    )) {
        push_spaces(&mut line, 2);
        push(&mut line, values.as_str());
        assert(utf8(line@) =~= spaces(2) + coefficients_text(row@.values));
        if same(row.label.as_str(), "GPSA") {
            return label_line(line.as_str(), "ION ALPHA");
        }
        return label_line(line.as_str(), "ION BETA");
    }
    push_left(&mut line, row.label.as_str(), 4);
    push_spaces(&mut line, 1);
    push(&mut line, values.as_str());
    let ghost body = left(row@.label, 4) + spaces(1) + coefficients_text(row@.values);
    assert(utf8(line@) =~= body);
    if row.time_mark.is_some() || row.satellite.is_some() {
        push_spaces(&mut line, 1);
        match row.time_mark {
            Some(c) => push_char(&mut line, c),
            None => push_spaces(&mut line, 1),
        }
        push_spaces(&mut line, 1);
        push_optional_left(&mut line, &row.satellite, 3);
        assert(utf8(line@) =~= body + (spaces(1) + (match row@.mark {
            Some(c) => utf8(seq![c]),
            None => spaces(1),
        }) + spaces(1) + left(text_or_empty(row@.satellite), 3)));
    } else {
        assert(utf8(line@) =~= body + Seq::<u8>::empty());
    }
    label_line(line.as_str(), "IONOSPHERIC CORR")
}

/// A time system correction line (see [`correction_text`]).
fn format_time_system_correction(c: &TimeSystemCorrection, version: NavVersion) -> (r: String)
    ensures
        utf8(r@) == correction_text(c@, version),
{
    reveal(correction_text);
    let mut line = own(no_text());
    if version.major == 2 && same(c.code.as_str(), "GPUT") {
        push_spaces(&mut line, 3);
        exp_field(&mut line, c.a0_s, 12, 19);
        optional_exp(&mut line, c.a1_s_s, 12, 19);
        push_count(&mut line, c.reference_time_s, 9);
        push_count(&mut line, c.reference_week, 9);
        assert(utf8(line@) =~= spaces(3) + exp_text(c@.a0, 12, 19) + optional_exp_text(
            c@.a1,
            12,
            19,
        ) + count_field(c@.time, 9) + count_field(c@.week, 9));
        return label_line(line.as_str(), "DELTA-UTC: A0,A1,T,W");
    }
    push_left(&mut line, c.code.as_str(), 4);
    push_spaces(&mut line, 1);
    exp_field(&mut line, c.a0_s, 10, 17);
    optional_exp(&mut line, c.a1_s_s, 9, 16);
    push_count(&mut line, c.reference_time_s, 7);
    push_count(&mut line, c.reference_week, 5);
    push_spaces(&mut line, 1);
    push_optional_left(&mut line, &c.source, 5);
    push_spaces(&mut line, 1);
    push_optional_left(&mut line, &c.utc_id, 2);
    assert(utf8(line@) =~= left(c@.code, 4) + spaces(1) + exp_text(c@.a0, 10, 17)
        + optional_exp_text(c@.a1, 9, 16) + count_field(c@.time, 7) + count_field(c@.week, 5)
        + spaces(1) + left(text_or_empty(c@.source), 5) + spaces(1) + left(
        text_or_empty(c@.utc_id),
        2,
    ));
    label_line(line.as_str(), "TIME SYSTEM CORR")
}

/// Append an integer in six columns (see [`leap_int`]).
fn push_leap_int(out: &mut String, n: Option<i64>)
    ensures
        utf8(final(out)@) == utf8(old(out)@) + leap_int(crate::fields::int_of(n)),
{
    match n {
        Some(n) => push_int(out, n, 6),
        None => push_spaces(out, 6),
    }
}

/// The `LEAP SECONDS` line (see [`leap_text`]).
fn leap_line(leap: &crate::header::ObsLeapSeconds) -> (r: String)
    ensures
        utf8(r@) == leap_text(leap@),
{
    reveal(leap_text);
    let mut line = own(no_text());
    push_leap_int(&mut line, Some(leap.current));
    push_leap_int(&mut line, leap.delta_future);
    push_leap_int(&mut line, leap.week);
    push_leap_int(&mut line, leap.day);
    push_optional_left(&mut line, &leap.time_system, 3);
    assert(utf8(line@) =~= leap_int(Some(leap@.current)) + leap_int(leap@.future) + leap_int(
        leap@.week,
    ) + leap_int(leap@.day) + left(text_or_empty(leap@.system), 3));
    label_line(line.as_str(), "LEAP SECONDS")
}

/// Append the coefficient rows of a header.
fn push_iono_rows(out: &mut Vec<String>, rows: &Vec<HeaderIonoRow>, version: NavVersion)
    ensures
        strings(final(out)@) == strings(old(out)@) + row_lines(row_views(rows@), version),
{
    let ghost before = strings(out@);
    let ghost all = row_lines(row_views(rows@), version);
    let mut i: usize = 0;
    assert(strings(out@) =~= before + all.subrange(0, 0));
    while i < rows.len()
        invariant
            i <= rows@.len(),
            all == row_lines(row_views(rows@), version),
            strings(out@) == before + all.subrange(0, i as int),
        decreases rows@.len() - i,
    {
        let line = format_iono_row(&rows[i], version);
        assert(all[i as int] == utf8(line@));
        push_line(out, line);
        assert(strings(out@) =~= before + all.subrange(0, i + 1));
        i = i + 1;
    }
    assert(all.subrange(0, i as int) =~= all);
}

/// Append the time system corrections of a header.
fn push_corrections(out: &mut Vec<String>, rows: &Vec<TimeSystemCorrection>, version: NavVersion)
    ensures
        strings(final(out)@) == strings(old(out)@) + correction_lines(
            crate::header::correction_views(rows@),
            version,
        ),
{
    let ghost before = strings(out@);
    let ghost all = correction_lines(crate::header::correction_views(rows@), version);
    let mut i: usize = 0;
    assert(strings(out@) =~= before + all.subrange(0, 0));
    while i < rows.len()
        invariant
            i <= rows@.len(),
            all == correction_lines(crate::header::correction_views(rows@), version),
            strings(out@) == before + all.subrange(0, i as int),
        decreases rows@.len() - i,
    {
        let line = format_time_system_correction(&rows[i], version);
        assert(all[i as int] == utf8(line@));
        push_line(out, line);
        assert(strings(out@) =~= before + all.subrange(0, i + 1));
        i = i + 1;
    }
    assert(all.subrange(0, i as int) =~= all);
}

/// Append the other records of a header that are coefficient records whose values could not be
/// read, or those that are not (see [`picked`]).
fn push_others(out: &mut Vec<String>, other: &Vec<String>, unread: bool)
    ensures
        strings(final(out)@) == strings(old(out)@) + picked(strings(other@), unread),
{
    let ghost before = strings(out@);
    let ghost all = strings(other@);
    let mut i: usize = 0;
    assert(strings(out@) =~= before + picked(all.subrange(0, 0), unread));
    while i < other.len()
        invariant
            i <= other@.len(),
            all == strings(other@),
            strings(out@) == before + picked(all.subrange(0, i as int), unread),
        decreases other@.len() - i,
    {
        assert(all.subrange(0, i + 1).drop_last() =~= all.subrange(0, i as int));
        assert(all.subrange(0, i + 1).last() == utf8(other@[i as int]@));
        let line = other[i].as_str();
        if is_unread_row(line) == unread {
            push_line(out, own(line));
        }
        assert(strings(out@) =~= before + picked(all.subrange(0, i + 1), unread));
        i = i + 1;
    }
    assert(all.subrange(0, i as int) =~= all);
}

/// Append the comments of a header.
fn push_comments(out: &mut Vec<String>, comments: &Vec<String>)
    ensures
        strings(final(out)@) == strings(old(out)@) + comment_lines(strings(comments@)),
{
    let ghost before = strings(out@);
    let ghost all = comment_lines(strings(comments@));
    let mut i: usize = 0;
    assert(strings(out@) =~= before + all.subrange(0, 0));
    while i < comments.len()
        invariant
            i <= comments@.len(),
            all == comment_lines(strings(comments@)),
            strings(out@) == before + all.subrange(0, i as int),
        decreases comments@.len() - i,
    {
        let line = label_line(truncate(comments[i].as_str(), 60), "COMMENT");
        assert(all[i as int] == utf8(line@));
        push_line(out, line);
        assert(strings(out@) =~= before + all.subrange(0, i + 1));
        i = i + 1;
    }
    assert(all.subrange(0, i as int) =~= all);
}

/// Append the header formatted from its fields (see [`header_lines`]).
pub fn format_header(out: &mut Vec<String>, header: &NavHeader)
    ensures
        strings(final(out)@) == strings(old(out)@) + header_lines(header@),
{
    reveal(header_lines);
    let ghost before = strings(out@);
    let ghost h = header@;
    let version = header.version;
    push_line(out, version_line_of(header));
    if let Some(program) = &header.program {
        push_line(out, program_line(program));
    }
    assert(strings(out@) =~= before + seq![version_text(h)] + program_lines(h.program));
    push_comments(out, &header.comments);
    push_others(out, &header.other_records, true);
    push_rows_of(out, header);
    push_corrections(out, &header.time_system_corrections, version);
    let ghost upto = strings(out@);
    if let Some(leap) = &header.leap_seconds {
        push_line(out, leap_line(leap));
    }
    assert(strings(out@) =~= upto + leap_lines(h.leap));
    push_others(out, &header.other_records, false);
    push_line(out, label_line(no_text(), "END OF HEADER"));
    assert(strings(out@) =~= before + header_lines(h));
}

/// Append the coefficient rows to write (see [`rows_written`]).
fn push_rows_of(out: &mut Vec<String>, header: &NavHeader)
    ensures
        strings(final(out)@) == strings(old(out)@) + row_lines(
            rows_written(header@),
            header.version,
        ),
{
    reveal(rows_written);
    let held = rows_not_kept(&header.iono_rows, &header.other_records);
    let formed = iono_from_rows(&held);
    if held.len() == 0 || !same_iono(&formed, &header.iono) {
        let rows = rows_from_iono(&header.iono);
        push_iono_rows(out, &rows, header.version);
    } else {
        push_iono_rows(out, &held, header.version);
    }
}

/// Refuse an entry.
fn not_representable(entry: &NavEntry, reason: &'static str) -> (r: NavWriteError)
    ensures
        r == (NavWriteError::NotRepresentable { line: entry.line, reason }),
{
    NavWriteError::NotRepresentable { line: entry.line, reason }
}

/// The message token of a RINEX 4 frame (see [`token_of_message`]).
pub fn message_token(message: NavMessage) -> (r: Option<&'static str>)
    ensures
        match r {
            Some(t) => token_of_message(message) == Some(utf8(t@)),
            None => token_of_message(message) is None,
        },
{
    match message {
        NavMessage::GpsLnav | NavMessage::QzssLnav | NavMessage::NavicLnav => Some("LNAV"),
        NavMessage::GpsCnav | NavMessage::QzssCnav => Some("CNAV"),
        NavMessage::GpsCnav2 | NavMessage::QzssCnav2 => Some("CNV2"),
        NavMessage::GalileoInav => Some("INAV"),
        NavMessage::GalileoFnav => Some("FNAV"),
        NavMessage::BeidouD1 => Some("D1"),
        NavMessage::BeidouD2 => Some("D2"),
        NavMessage::GalileoUnclassified => None,
    }
}

/// The columns for a record before version 4 (see [`columns_for`]).
fn v2_columns(sat: GnssSatelliteId, version: NavVersion, file_type: char) -> (r: Option<
    RecordColumns,
>)
    ensures
        r == columns_for(sat, version, file_type),
{
    if version.major != 2 {
        return Some(RecordColumns::V3);
    }
    match sat.system {
        GnssSystem::Gps if file_type == 'N' => Some(RecordColumns::V2 { prn: sat.prn }),
        GnssSystem::Glonass if file_type == 'G' => Some(RecordColumns::V2 { prn: sat.prn }),
        GnssSystem::Sbas if file_type == 'H' => Some(RecordColumns::V2 { prn: sat.prn }),
        GnssSystem::Qzss if file_type == 'N' && 1 <= sat.prn && sat.prn <= 5 => Some(
            RecordColumns::V2 { prn: sat.prn + 92 },
        ),
        GnssSystem::Qzss if file_type == 'J' => Some(RecordColumns::V3),
        GnssSystem::Galileo if file_type == 'L' => Some(RecordColumns::V3),
        _ => None,
    }
}

/// Append a Keplerian record formatted from its fields (see [`ephemeris_lines`]).
fn format_ephemeris(
    out: &mut Vec<String>,
    entry: &NavEntry,
    record: &BroadcastRecord,
    version: NavVersion,
    file_type: char,
) -> (r: Result<(), NavWriteError>)
    ensures
        match ephemeris_lines(*record, version, file_type) {
            Ok(lines) => r is Ok && strings(final(out)@) == strings(old(out)@) + lines,
            Err(reason) => r == Err::<(), NavWriteError>(
                NavWriteError::NotRepresentable { line: entry.line, reason },
            ),
        },
{
    let ghost before = strings(out@);
    if version.major >= 4 {
        let token: &'static str = match message_token(record.message) {
            Some(token) => token,
            None => {
                return Err(
                    not_representable(
                        entry,
                        "an unclassified Galileo message has no RINEX 4 token",
                    ),
                );
            },
        };
        push_line(out, marker_line("> EPH ", record.satellite_id, token));
        if record.message.is_cnav_family() {
            match &record.cnav {
                None => {
                    return Err(
                        not_representable(entry, "a CNAV-family record without CNAV parameters"),
                    );
                },
                Some(cnav) => write_cnav_record(out, record, cnav),
            }
        } else {
            write_record(out, record, version, RecordColumns::V3);
        }
        assert(strings(out@) =~= before + ephemeris_lines(*record, version, file_type)->Ok_0);
        return Ok(());
    }
    if record.message.is_cnav_family() {
        return Err(not_representable(entry, "a CNAV-family record needs RINEX 4"));
    }
    match v2_columns(record.satellite_id, version, file_type) {
        None => Err(
            not_representable(entry, "a RINEX 2 file holds records of its own file type's system"),
        ),
        Some(columns) => {
            write_record(out, record, version, columns);
            Ok(())
        },
    }
}

/// Append an entry formatted from its fields (see [`entry_lines`]).
fn format_entry(out: &mut Vec<String>, entry: &NavEntry, version: NavVersion, file_type: char) -> (r:
    Result<(), NavWriteError>)
    ensures
        match entry_lines(entry@, version, file_type) {
            Ok(lines) => r is Ok && strings(final(out)@) == strings(old(out)@) + lines,
            Err(reason) => r == Err::<(), NavWriteError>(
                NavWriteError::NotRepresentable { line: entry.line, reason },
            ),
        },
{
    reveal(entry_lines);
    let ghost before = strings(out@);
    match &entry.item {
        NavItem::Ephemeris(record) => {
            return format_ephemeris(out, entry, record, version, file_type);
        },
        NavItem::Glonass(record) => {
            let prn: u8 = record.satellite_id.prn;
            let columns: RecordColumns = if version.major >= 4 {
                push_line(out, marker_line("> EPH ", record.satellite_id, "FDMA"));
                RecordColumns::V3
            } else {
                let sat = GnssSatelliteId { system: GnssSystem::Glonass, prn };
                match v2_columns(sat, version, file_type) {
                    Some(columns) => columns,
                    None => {
                        return Err(
                            not_representable(
                                entry,
                                "a RINEX 2 file holds records of its own file type's system",
                            ),
                        );
                    },
                }
            };
            write_glonass_record(out, record, version, columns);
        },
        NavItem::Sbas(record) => {
            let prn: u8 = record.satellite_id.prn;
            let columns: RecordColumns = if version.major >= 4 {
                push_line(out, marker_line("> EPH ", record.satellite_id, "SBAS"));
                RecordColumns::V3
            } else {
                let sat = GnssSatelliteId { system: GnssSystem::Sbas, prn };
                match v2_columns(sat, version, file_type) {
                    Some(columns) => columns,
                    None => {
                        return Err(
                            not_representable(
                                entry,
                                "a RINEX 2 file holds records of its own file type's system",
                            ),
                        );
                    },
                }
            };
            write_sbas_record(out, record, columns);
        },
        NavItem::Undecoded(_) => extend_lines(out, &entry.text),
        _ => {
            if version.major < 4 {
                return Err(not_representable(entry, "a RINEX 4 frame needs RINEX 4"));
            }
            match &entry.item {
                NavItem::SystemTimeOffset(frame) => write_sto_frame(out, frame),
                NavItem::EarthOrientation(frame) => write_eop_frame(out, frame),
                NavItem::Ionosphere(frame) => write_ion_frame(out, frame),
                _ => {},
            }
        },
    }
    assert(strings(out@) =~= before + entry_lines(entry@, version, file_type)->Ok_0);
    Ok(())
}

/// Append a line terminator.
fn push_terminator(out: &mut String, crlf: bool)
    ensures
        utf8(final(out)@) == utf8(old(out)@) + terminator(crlf),
{
    proof {
        reveal_strlit("\r\n");
        reveal_strlit("\n");
        crate::text::lemma_utf8_ascii("\r\n"@);
        crate::text::lemma_utf8_ascii("\n"@);
        assert(utf8("\r\n"@) =~= terminator(true));
        assert(utf8("\n"@) =~= terminator(false));
    }
    if crlf {
        push(out, "\r\n");
    } else {
        push(out, "\n");
    }
}

/// Lines as one text (see [`joined`]).
fn join_lines(lines: &Vec<String>, crlf: bool, last: bool) -> (r: String)
    ensures
        utf8(r@) == joined(strings(lines@), crlf, last),
{
    let ghost all = strings(lines@);
    let mut out = own(no_text());
    let count: usize = lines.len();
    let mut i: usize = 0;
    while i < count
        invariant
            all == strings(lines@),
            count == lines@.len(),
            i <= count,
            utf8(out@) == joined(all.subrange(0, i as int), crlf, i < count || last),
        decreases count - i,
    {
        let ghost before = utf8(out@);
        proof {
            let next = all.subrange(0, i + 1);
            assert(next.drop_last() =~= all.subrange(0, i as int));
            assert(next.last() == utf8(lines@[i as int]@));
        }
        push(&mut out, lines[i].as_str());
        if i + 1 < count || last {
            push_terminator(&mut out, crlf);
        }
        assert(utf8(out@) =~= joined(all.subrange(0, i + 1), crlf, i + 1 < count || last));
        i = i + 1;
    }
    assert(all.subrange(0, count as int) =~= all);
    out
}

/// An entry that cannot be written stops the writer.
proof fn lemma_body_stops(entries: Seq<Entry>, version: NavVersion, file_type: char, k: int)
    requires
        0 <= k <= entries.len(),
        body_written(entries.subrange(0, k), version, file_type) is Err,
    ensures
        body_written(entries, version, file_type) == body_written(
            entries.subrange(0, k),
            version,
            file_type,
        ),
    decreases entries.len() - k,
{
    if k == entries.len() {
        assert(entries.subrange(0, k) =~= entries);
    } else {
        assert(entries.subrange(0, k + 1).drop_last() =~= entries.subrange(0, k));
        lemma_body_stops(entries, version, file_type, k + 1);
    }
}

/// Append the lines of an entry (see [`entry_written`]).
fn write_entry(out: &mut Vec<String>, entry: &NavEntry, version: NavVersion, file_type: char) -> (r:
    Result<(), NavWriteError>)
    ensures
        match entry_written(entry@, version, file_type) {
            Ok(lines) => r is Ok && strings(final(out)@) == strings(old(out)@) + lines,
            Err(reason) => r == Err::<(), NavWriteError>(
                NavWriteError::NotRepresentable { line: entry.line, reason },
            ),
        },
{
    reveal(entry_written);
    if entry_text_reads_as(entry, version, file_type) {
        extend_lines(out, &entry.text);
        return Ok(());
    }
    format_entry(out, entry, version, file_type)
}

/// Serialize a [`NavFile`]. The header and each entry are restated from their text when it still
/// reads, in the file's version, as the value held (for an entry, with no departure from the format
/// it did not already have); otherwise they are formatted from their fields. Undecoded blocks and
/// stray lines are restated from their text.
pub fn encode_nav_file(file: &NavFile) -> (r: Result<String, NavWriteError>)
    ensures
        match lines_written(file@) {
            Ok(lines) => r matches Ok(text) && utf8(text@) == joined(
                lines,
                file.crlf,
                file.final_newline,
            ),
            Err((line, reason)) => r matches Err(NavWriteError::NotRepresentable {
                line: at,
                reason: why,
            }) && at == line && why == reason,
        },
{
    let version = file.header.version;
    let file_type = file.header.file_type;
    let ghost all = file@.entries;
    let mut lines: Vec<String> = Vec::new();
    assert(strings(lines@) =~= Seq::empty());
    if header_text_reads_as(&file.header) {
        extend_lines(&mut lines, &file.header.text);
    } else {
        format_header(&mut lines, &file.header);
    }
    let ghost head = strings(lines@);
    assert(head =~= if header_restated(file@.header, file@.header_text) {
        file@.header_text
    } else {
        header_lines(file@.header)
    });
    let mut i: usize = 0;
    assert(head + Seq::<Seq<u8>>::empty() =~= head);
    while i < file.entries.len()
        invariant
            all == file@.entries,
            version == file@.header.version,
            file_type == file@.header.file_type,
            i <= file.entries@.len(),
            body_written(all.subrange(0, i as int), version, file_type) is Ok,
            strings(lines@) == head + body_written(
                all.subrange(0, i as int),
                version,
                file_type,
            )->Ok_0,
        decreases file.entries@.len() - i,
    {
        proof {
            assert(all.subrange(0, i + 1).drop_last() =~= all.subrange(0, i as int));
            assert(all.subrange(0, i + 1).last() == file.entries@[i as int]@);
        }
        let ghost before = strings(lines@);
        if let Err(e) = write_entry(&mut lines, &file.entries[i], version, file_type) {
            proof {
                lemma_body_stops(all, version, file_type, i + 1);
            }
            return Err(e);
        }
        assert(strings(lines@) =~= head + body_written(
            all.subrange(0, i + 1),
            version,
            file_type,
        )->Ok_0);
        i = i + 1;
    }
    assert(all.subrange(0, i as int) =~= all);
    Ok(join_lines(&lines, file.crlf, file.final_newline))
}

/// Whether a record of `records` is of the CNAV family.
pub open spec fn any_cnav(records: Seq<BroadcastRecord>) -> bool {
    exists|k: int| 0 <= k < records.len() && (#[trigger] records[k]).message.cnav_family()
}

/// The file a set of records is written as: RINEX 3.04, or RINEX 4.02 when a CNAV-family record is
/// present, with the program `sidereon`.
pub open spec fn records_file(records: Seq<BroadcastRecord>) -> File {
    let version = if any_cnav(records) {
        NavVersion { major: 4, minor: 2 }
    } else {
        NavVersion { major: 3, minor: 4 }
    };
    File {
        header: Header {
            program: Some(
                crate::header::Program {
                    program: utf8("sidereon"@),
                    run_by: Seq::empty(),
                    date: Seq::empty(),
                },
            ),
            ..crate::header::plain_header(version)
        },
        header_text: Seq::empty(),
        entries: records.map_values(|record: BroadcastRecord| record_entry(record)),
        crlf: false,
        final_newline: true,
        issues: Seq::empty(),
    }
}

/// The entry of a record built in code.
pub open spec fn record_entry(record: BroadcastRecord) -> Entry {
    Entry {
        line: 0,
        block: crate::body::Block {
            kind: NavEntryKind::Ephemeris,
            system: Some(record.satellite_id.system),
            content: Content::Ephemeris(record),
            departures: Seq::empty(),
        },
        text: Seq::empty(),
    }
}

/// Whether a record is of the CNAV family (see [`any_cnav`]).
fn has_cnav(records: &[BroadcastRecord]) -> (r: bool)
    ensures
        r == any_cnav(records@),
{
    let mut i: usize = 0;
    while i < records.len()
        invariant
            i <= records@.len(),
            forall|k: int| 0 <= k < i ==> !(#[trigger] records@[k]).message.cnav_family(),
        decreases records@.len() - i,
    {
        if records[i].message.is_cnav_family() {
            return true;
        }
        i = i + 1;
    }
    false
}

/// Serialize broadcast navigation records to standard RINEX navigation text: RINEX 3.04, or RINEX
/// 4.02 frames when a CNAV-family record is present. The header carries `RINEX VERSION / TYPE`,
/// `PGM / RUN BY / DATE` (program `sidereon`, the run-by and date fields blank, since no clock is
/// read) and `END OF HEADER`.
///
/// Reading the text with [`crate::file::parse_nav`] yields the same records where they were read
/// strictly from a file and fit what is written: values of at most thirteen digits, clock reference
/// times of whole seconds, and a fit interval field and message that RINEX 3.04 states alike (see
/// [`crate::restate::law_encoded_records_read_back`] and
/// [`crate::restate::law_encoded_v4_reads_back`]).
///
/// A set holding both a CNAV-family record, which only RINEX 4 holds, and a Galileo record whose
/// message is unclassified, which only RINEX 3 holds, is refused.
pub fn encode_nav(records: &[BroadcastRecord]) -> (r: Result<String, NavWriteError>)
    ensures
        match lines_written(records_file(records@)) {
            Ok(lines) => r matches Ok(text) && utf8(text@) == joined(lines, false, true),
            Err((line, reason)) => r matches Err(NavWriteError::NotRepresentable {
                line: at,
                reason: why,
            }) && at == line && why == reason,
        },
{
    let version = if has_cnav(records) {
        NavVersion::new(4, 2)
    } else {
        NavVersion::new(3, 4)
    };
    let mut header = NavHeader::new(version);
    header.program = Some(
        PgmRunByDate { program: own("sidereon"), run_by: own(no_text()), date: own(no_text()) },
    );
    let mut file = NavFile::new(header);
    let mut entries: Vec<NavEntry> = Vec::new();
    let mut i: usize = 0;
    while i < records.len()
        invariant
            i <= records@.len(),
            entries@.len() == i,
            forall|k: int| 0 <= k < i ==> (#[trigger] entries@[k])@ == record_entry(records@[k]),
        decreases records@.len() - i,
    {
        let entry = NavEntry::new(NavItem::Ephemeris(records[i]));
        proof {
            assert(strings(entry.text@) =~= Seq::empty());
            assert(faults(entry.departures@) =~= Seq::empty());
        }
        entries.push(entry);
        i = i + 1;
    }
    file.entries = entries;
    proof {
        assert(file@.header =~= records_file(records@).header);
        assert(file@.header_text =~= Seq::empty());
        assert(file@.issues =~= Seq::empty());
        assert(file@.entries =~= records_file(records@).entries);
        assert(file@ == records_file(records@));
    }
    encode_nav_file(&file)
}

/// A version stated by a supported header.
pub open spec fn supported_scan(scan: crate::header::Scan) -> bool {
    scan.version matches Some(v) ==> 2 <= v.0.major <= 4
}

/// A header line keeps the version supported.
proof fn lemma_scanned_supported(scan: crate::header::Scan, line: Seq<u8>, number: int)
    requires
        supported_scan(scan),
    ensures
        scanned(scan, line, number, true) matches Ok(next) ==> supported_scan(next),
{
    reveal(scanned);
}

/// The lines of a header up to its end read as the same header.
proof fn lemma_scan_prefix(
    lines: Seq<Seq<u8>>,
    from: int,
    scan: crate::header::Scan,
    stop: int,
)
    requires
        0 <= from <= stop <= lines.len(),
        supported_scan(scan),
        scan_lines(lines, from, scan, true) matches Ok((_, at, ended)) && ended && at == stop,
    ensures
        scan_lines(lines.subrange(0, stop), from, scan, true) == scan_lines(
            lines,
            from,
            scan,
            true,
        ),
        scan_lines(lines, from, scan, true)->Ok_0.0.version matches Some(v) ==> 2 <= v.0.major <= 4,
    decreases lines.len() - from,
{
    let part = lines.subrange(0, stop);
    if from < lines.len() {
        if label_of(lines[from]) == Label::End {
            assert(part[from] == lines[from]);
        } else {
            let next = scanned(scan, lines[from], from + 1, true)->Ok_0;
            lemma_scan_advances(lines, from + 1, next);
            lemma_scanned_supported(scan, lines[from], from + 1);
            assert(part[from] == lines[from]);
            lemma_scan_prefix(lines, from + 1, next, stop);
        }
    }
}

/// A scan ends at or after the line it starts at.
pub proof fn lemma_scan_advances(lines: Seq<Seq<u8>>, from: int, scan: crate::header::Scan)
    requires
        0 <= from <= lines.len(),
    ensures
        scan_lines(lines, from, scan, true) matches Ok((_, at, ended)) ==> from <= at
            <= lines.len() && (ended ==> from < at),
    decreases lines.len() - from,
{
    if from < lines.len() && label_of(lines[from]) != Label::End {
        if let Ok(next) = scanned(scan, lines[from], from + 1, true) {
            lemma_scan_advances(lines, from + 1, next);
        }
    }
}

/// The text of a header read from a file is restated.
pub proof fn lemma_header_restated(raw: Seq<Seq<u8>>)
    requires
        header_of(contents(raw), true) is Ok,
    ensures
        ({
            let (h, start, issues) = header_of(contents(raw), true)->Ok_0;
            0 < start <= raw.len() && header_restated(h, raw.subrange(0, start)) && 2
                <= h.version.major <= 4
        }),
{
    reveal(header_restated);
    let lines = contents(raw);
    let (h, start, issues) = header_of(lines, true)->Ok_0;
    lemma_scan_advances(lines, 0, empty_scan());
    lemma_scan_prefix(lines, 0, empty_scan(), start);
    assert(contents(raw.subrange(0, start)) =~= lines.subrange(0, start));
}

/// The text of an entry read from a file is restated.
pub proof fn lemma_entry_restated(
    raw: Seq<Seq<u8>>,
    start: int,
    version: NavVersion,
    file_type: char,
    k: int,
)
    requires
        0 <= start <= raw.len(),
        version.major <= 4,
        0 <= k < body_entries(raw, contents(raw), start, version, file_type).len(),
    ensures
        ({
            let entry = body_entries(raw, contents(raw), start, version, file_type)[k];
            entry_written(entry, version, file_type) == Ok::<Seq<Seq<u8>>, &'static str>(entry.text)
        }),
{
    reveal(entry_written);
    reveal(entry_restated);
    let lines = contents(raw);
    let body = lines.subrange(start, lines.len() as int);
    let gs = groups(body, version.major);
    let entry = body_entries(raw, lines, start, version, file_type)[k];
    law_groups_start(body, version.major, k);
    let g = gs[k];
    assert(entry.text =~= raw.subrange(start + g.0, start + g.1));
    assert(contents(entry.text) =~= lines.subrange(start + g.0, start + g.1));
    assert(contents(entry.text)[0] == body[g.0]);
    let block = block_of(contents(entry.text), version, file_type);
    if !g.2 {
        assert(entry.block == block);
        assert forall|i: int| 0 <= i < block.departures.len() implies
            entry.block.departures.contains(#[trigger] block.departures[i]) by {}
    }
    assert(entry_restated(entry, version, file_type));
}

/// The first `k` blocks of a body are written as the lines they were read from.
proof fn lemma_body_restated(
    raw: Seq<Seq<u8>>,
    start: int,
    version: NavVersion,
    file_type: char,
    k: int,
)
    requires
        0 <= start <= raw.len(),
        version.major <= 4,
        0 <= k <= body_entries(raw, contents(raw), start, version, file_type).len(),
    ensures
        ({
            let entries = body_entries(raw, contents(raw), start, version, file_type);
            let gs = groups(
                contents(raw).subrange(start, raw.len() as int),
                version.major,
            );
            let end = if k == 0 {
                start
            } else {
                start + gs[k - 1].1
            };
            body_written(entries.subrange(0, k), version, file_type) == Ok::<
                Seq<Seq<u8>>,
                (int, &'static str),
            >(raw.subrange(start, end))
        }),
    decreases k,
{
    let lines = contents(raw);
    let body = lines.subrange(start, lines.len() as int);
    let gs = groups(body, version.major);
    let entries = body_entries(raw, lines, start, version, file_type);
    if k == 0 {
        assert(raw.subrange(start, start) =~= Seq::empty());
    } else {
        lemma_body_restated(raw, start, version, file_type, k - 1);
        lemma_entry_restated(raw, start, version, file_type, k - 1);
        law_groups_partition(body, version.major);
        assert(entries.subrange(0, k).drop_last() =~= entries.subrange(0, k - 1));
        let from = start + gs[k - 1].0;
        let to = start + gs[k - 1].1;
        let before = if k == 1 {
            start
        } else {
            start + gs[k - 2].1
        };
        if k > 1 {
            assert(gs[k - 2].1 == gs[k - 1].0);
        }
        assert(before == from);
        assert(raw.subrange(start, from) + raw.subrange(from, to) =~= raw.subrange(start, to));
    }
}

/// Lines joined with `LF` and no ending.
proof fn lemma_joined_lf(lines: Seq<Seq<u8>>)
    requires
        lines.len() > 0,
    ensures
        joined(lines, false, false) == join_lf(lines),
        joined(lines, false, true) == join_lf(lines).push(10),
    decreases lines.len(),
{
    if lines.len() == 1 {
        assert(lines.drop_last() =~= Seq::empty());
        assert(joined(lines.drop_last(), false, true) =~= Seq::empty());
        assert(joined(lines, false, false) =~= lines[0]);
    } else {
        lemma_joined_lf(lines.drop_last());
        assert(joined(lines, false, false) =~= join_lf(lines));
    }
    assert(joined(lines, false, true) =~= join_lf(lines).push(10));
}

/// Lines whose `CR` was removed, joined with `CR LF`, are the lines joined with `LF`.
proof fn lemma_joined_crlf(raw: Seq<Seq<u8>>, n: int, last: bool)
    requires
        0 <= n <= raw.len(),
        last ==> n == raw.len(),
        !last ==> n == raw.len() - 1,
        forall|i: int| 0 <= i < n ==> (#[trigger] raw[i]).len() > 0 && raw[i].last() == 13,
    ensures
        joined(strip_first(raw, n), true, last) == joined(raw, false, last),
    decreases raw.len(),
{
    if raw.len() > 0 {
        let head = raw.drop_last();
        lemma_joined_crlf(head, head.len() as int, true);
        assert(strip_first(raw, n).drop_last() =~= strip_first(head, head.len() as int));
        if last {
            let x = raw.last();
            assert(x.drop_last() + seq![13u8, 10u8] =~= x + seq![10u8]);
            assert(joined(strip_first(raw, n), true, last) =~= joined(raw, false, last));
        }
    } else {
        assert(strip_first(raw, n) =~= raw);
    }
}

/// A text is its lines joined again.
pub proof fn law_lines_join(b: Seq<u8>)
    ensures
        joined(lines_of(b).lines, lines_of(b).crlf, lines_of(b).final_newline) == b,
{
    if b.len() == 0 {
        assert(joined(Seq::empty(), false, false) =~= b);
    } else {
        lemma_split_lf(b);
        lemma_join_split(b);
        let pieces = split_lf(b);
        let ended = b.last() == 10;
        let raw = if ended {
            pieces.drop_last()
        } else {
            pieces
        };
        let n = if ended {
            raw.len() as int
        } else {
            raw.len() - 1
        };
        if ended {
            lemma_split_lf(b.drop_last());
            assert(raw =~= split_lf(b.drop_last()));
            assert(join_lf(pieces) =~= join_lf(raw).push(10));
        }
        lemma_joined_lf(raw);
        assert(joined(raw, false, ended) == b);
        if ended_in_cr(raw, n) {
            lemma_joined_crlf(raw, n, ended);
        }
    }
}

/// A file read and written unchanged comes back byte for byte.
pub proof fn law_file_restated(b: Seq<u8>)
    requires
        file_of(b) is Ok,
    ensures
        ({
            let file = file_of(b)->Ok_0;
            lines_written(file) matches Ok(lines) && joined(lines, file.crlf, file.final_newline)
                == b
        }),
{
    let file = file_of(b)->Ok_0;
    let raw = lines_of(b).lines;
    lemma_header_restated(raw);
    let (h, start, issues) = header_of(contents(raw), true)->Ok_0;
    let body = contents(raw).subrange(start, contents(raw).len() as int);
    let gs = groups(body, h.version.major);
    law_groups_partition(body, h.version.major);
    lemma_body_restated(raw, start, h.version, h.file_type, gs.len() as int);
    assert(file.entries.subrange(0, gs.len() as int) =~= file.entries);
    assert(raw.subrange(0, start) + raw.subrange(start, raw.len() as int) =~= raw);
    law_lines_join(b);
}

} // verus!

//! Whole navigation files, and the readers of their records.
//!
//! [`parse_nav_file`] reads a whole file into a [`NavFile`] that keeps every header record and
//! every block, decoded or not, with its text. The strict readers ([`parse_nav`],
//! [`parse_glonass`], [`parse_sbas`]) refuse the first block of their kind that departs from the
//! format; the lenient readers keep every readable record and report each departure and each block
//! they could not read with its line number and reason.

use vstd::prelude::*;
use vstd::slice::slice_subrange;

use crate::body::{
    block_of, contents, contents_of, data_frame, decode_block, decode_v4_data_frame, entries_view,
    eph_block, first_line, frame_body, group_body, group_views, groups, law_groups_partition,
    lines_of, record_block, split_lines, stray_block, v2_v3_block, v4_block, Block, Content, Entry,
    Group, NavEntry, NavEntryKind, NavItem, Reason, UndecodedBlock, UndecodedReason,
};
use crate::error::{
    fault_text, faults, Fault, NavDiagnostic, NavParseError, OtherNavBlock, OtherNavBlockKind,
    SkippedGlonass, SkippedNavBlock,
};
use crate::fields::Layout;
use crate::frames::{
    effect_of, in_transmission_order, ion_frames, ionosphere_in_effect, sort_by_transmission,
    IonFrame, IonosphereFrame,
};
use crate::header::{
    empty_scan, header_of, issue_views, label_of, read_header, scan_header, scan_lines, scanned,
    Header, HeaderField, HeaderIssue, Issue, Label, NavHeader, Scan,
};
use crate::id::{satellite_of_token, token_of_satellite, GnssSatelliteId, GnssSystem};
use crate::marker::{
    block_satellite, eph_marker, frame_type, frame_type_of, token_system, v2_satellite, EphMarker,
};
use crate::record::{BroadcastRecord, GlonassRecord, IonoCorrections, NavVersion, SbasRecord};
use crate::text::{
    blank, copy_option, is_blank, opt_utf8, own, own_lines, same, slice_of, split_lf,
    split_newlines, strings, texts, trim_of, utf8,
};

verus! {

/// A whole RINEX navigation file: its header, and every block of its body in order.
#[derive(Debug, Clone, PartialEq, Eq)]
pub struct NavFile {
    /// The header.
    pub header: NavHeader,
    /// The body's blocks, in file order.
    pub entries: Vec<NavEntry>,
    /// Whether the file's lines end in `CR LF`; the writer ends lines the same way.
    pub crlf: bool,
    /// Whether the last line ends with a line terminator.
    pub final_newline: bool,
    /// Header records whose values could not be read.
    pub header_issues: Vec<HeaderIssue>,
}

/// What a [`NavFile`] states.
pub ghost struct File {
    /// The header.
    pub header: Header,
    /// The header's lines.
    pub header_text: Seq<Seq<u8>>,
    /// The blocks.
    pub entries: Seq<Entry>,
    /// Whether the lines end in `CR LF`.
    pub crlf: bool,
    /// Whether the last line ends.
    pub final_newline: bool,
    /// The header records that could not be read.
    pub issues: Seq<Issue>,
}

impl View for NavFile {
    type V = File;

    open spec fn view(&self) -> File {
        File {
            header: self.header@,
            header_text: strings(self.header.text@),
            entries: entries_view(self.entries@),
            crlf: self.crlf,
            final_newline: self.final_newline,
            issues: issue_views(self.header_issues@),
        }
    }
}

/// The entry of a group of lines: `raw` are the file's lines, `lines` the same lines as the field
/// readers see them, and the body starts at line `start`.
pub open spec fn group_entry(
    raw: Seq<Seq<u8>>,
    lines: Seq<Seq<u8>>,
    start: int,
    group: (int, int, bool),
    version: NavVersion,
    file_type: char,
) -> Entry {
    Entry {
        line: start + group.0 + 1,
        block: if group.2 {
            stray_block()
        } else {
            block_of(lines.subrange(start + group.0, start + group.1), version, file_type)
        },
        text: raw.subrange(start + group.0, start + group.1),
    }
}

/// The entries of a body that starts at line `start`.
pub open spec fn body_entries(
    raw: Seq<Seq<u8>>,
    lines: Seq<Seq<u8>>,
    start: int,
    version: NavVersion,
    file_type: char,
) -> Seq<Entry> {
    let gs = groups(lines.subrange(start, lines.len() as int), version.major);
    Seq::new(gs.len(), |k: int| group_entry(raw, lines, start, gs[k], version, file_type))
}

/// The file a text is: its header, which has to be one of a supported navigation file, and every
/// block of its body.
pub open spec fn file_of(b: Seq<u8>) -> Result<File, Fault> {
    let l = lines_of(b);
    let lines = contents(l.lines);
    match header_of(lines, true) {
        Err(fault) => Err(fault),
        Ok((header, start, issues)) => Ok(
            File {
                header,
                header_text: l.lines.subrange(0, start),
                entries: body_entries(l.lines, lines, start, header.version, header.file_type),
                crlf: l.crlf,
                final_newline: l.final_newline,
                issues,
            },
        ),
    }
}

/// An entry for lines that belong to no block.
fn stray_entry() -> (r: NavEntry)
    ensures
        r.block() == stray_block(),
{
    let departures: Vec<NavParseError> = Vec::new();
    assert(faults(departures@) =~= Seq::empty());
    NavEntry {
        line: 0,
        kind: NavEntryKind::Stray,
        system: None,
        item: NavItem::Undecoded(
            UndecodedBlock {
                satellite: own(crate::text::no_text()),
                message_token: None,
                reason: UndecodedReason::Stray,
            },
        ),
        departures,
        text: Vec::new(),
    }
}

/// Read a file (see [`file_of`]).
pub fn read_nav_file(text: &str) -> (r: Result<NavFile, NavParseError>)
    ensures
        match r {
            Ok(file) => file_of(utf8(text@)) == Ok::<File, Fault>(file@),
            Err(e) => file_of(utf8(text@)) == Err::<File, Fault>(e@),
        },
{
    let (raw_lines, crlf, final_newline): (Vec<&str>, bool, bool) = split_lines(text);
    let ghost raw = texts(raw_lines@);
    let lines = contents_of(&raw_lines);
    let ghost all = texts(lines@);
    assert(raw.len() == all.len());
    assert(raw_lines@.len() == raw.len() && lines@.len() == all.len());
    let read = match read_header(&lines) {
        Ok(read) => read,
        Err(e) => {
            return Err(e);
        },
    };
    let mut header = read.header;
    let start: usize = read.body_start;
    header.text = own_lines(&raw_lines, 0, start);
    let version = header.version;
    let file_type: char = header.file_type;
    let found = group_body(&lines, start, version.major);
    let ghost gs = groups(all.subrange(start as int, all.len() as int), version.major);
    let mut entries: Vec<NavEntry> = Vec::new();
    let mut k: usize = 0;
    while k < found.len()
        invariant
            raw == texts(raw_lines@),
            all == texts(lines@),
            raw_lines@.len() == lines@.len(),
            start <= lines@.len(),
            group_views(found@) == gs,
            forall|i: int|
                0 <= i < found@.len() ==> (#[trigger] found@[i]).start < found@[i].end
                    <= lines@.len() - start,
            k <= found@.len(),
            entries@.len() == k,
            forall|i: int|
                0 <= i < k ==> (#[trigger] entries@[i])@ == group_entry(
                    raw,
                    all,
                    start as int,
                    gs[i],
                    version,
                    file_type,
                ),
        decreases found@.len() - k,
    {
        let group: Group = found[k];
        assert(gs[k as int] == (group.start as int, group.end as int, group.stray));
        assert(start + group.end <= lines.len());
        let from: usize = start + group.start;
        let to: usize = start + group.end;
        let mut entry = if group.stray {
            stray_entry()
        } else {
            let block = slice_subrange(lines.as_slice(), from, to);
            assert(texts(block@) =~= all.subrange(from as int, to as int));
            decode_block(block, version, file_type)
        };
        entry.line = from + 1;
        entry.text = own_lines(&raw_lines, from, to);
        entries.push(entry);
        k = k + 1;
    }
    let file = NavFile { header, entries, crlf, final_newline, header_issues: read.issues };
    assert(file@.entries =~= body_entries(raw, all, start as int, version, file_type));
    Ok(file)
}

/// Parse a whole RINEX navigation file, keeping every header record and every block with its
/// text: decoded records, frames, messages that are not decoded, blocks that could not be read,
/// and lines that belong to no record.
///
/// Header failures (no supported `RINEX VERSION / TYPE`, no `END OF HEADER`) are errors.
/// Everything after the header is read leniently: each entry carries the departures read through,
/// and a block that could not be read is kept as [`NavItem::Undecoded`] with the reason.
pub fn parse_nav_file(text: &str) -> (r: Result<NavFile, NavParseError>)
    ensures
        match r {
            Ok(file) => file_of(utf8(text@)) == Ok::<File, Fault>(file@),
            Err(e) => file_of(utf8(text@)) == Err::<File, Fault>(e@),
        },
{
    read_nav_file(text)
}

/// Which records a strict reader reads.
#[derive(Debug, Clone, Copy, PartialEq, Eq, Structural)]
pub enum StrictScope {
    /// The Keplerian records.
    Keplerian,
    /// The GLONASS records.
    Glonass,
    /// The SBAS records.
    Sbas,
}

/// Whether a system's records are Keplerian.
pub open spec fn keplerian_system(system: GnssSystem) -> bool {
    system != GnssSystem::Glonass && system != GnssSystem::Sbas
}

/// Whether a system's records are Keplerian.
pub fn is_keplerian_system(system: GnssSystem) -> (r: bool)
    ensures
        r == keplerian_system(system),
{
    matches!(
        system,
        GnssSystem::Gps | GnssSystem::Galileo | GnssSystem::BeiDou | GnssSystem::Qzss
            | GnssSystem::Navic
    )
}

/// Whether an error is a satellite token that names no satellite.
pub open spec fn unrepresentable(fault: Fault) -> bool {
    fault matches Fault::BadField(_, field) && field == utf8("prn"@)
}

/// Whether an error is a satellite token that names no satellite.
pub fn is_unrepresentable_satellite(error: &NavParseError) -> (r: bool)
    ensures
        r == unrepresentable(error@),
{
    match error {
        NavParseError::BadField { satellite: _, field } => same(field, "prn"),
        _ => false,
    }
}

/// Whether a line of a text is not blank.
pub open spec fn some_text(lines: Seq<Seq<u8>>) -> bool {
    exists|i: int| 0 <= i < lines.len() && !blank(#[trigger] lines[i])
}

/// Whether a strict reader of `scope` reads a block.
pub open spec fn in_scope(block: Block, scope: StrictScope) -> bool {
    block.kind == NavEntryKind::Ephemeris && match scope {
        StrictScope::Keplerian => match block.system {
            Some(system) => keplerian_system(system),
            None => true,
        },
        StrictScope::Glonass => block.system == Some(GnssSystem::Glonass),
        StrictScope::Sbas => block.system == Some(GnssSystem::Sbas),
    }
}

/// What a strict reader of `scope` refuses in an entry: a line that belongs to no record, a block
/// of its kind that could not be read, or a departure in one. A GLONASS slot token that names no
/// satellite is passed over.
pub open spec fn entry_fault(entry: Entry, scope: StrictScope) -> Option<Fault> {
    let block = entry.block;
    if block.kind == NavEntryKind::Stray {
        if some_text(entry.text) {
            Some(Fault::UnexpectedLine(entry.line))
        } else {
            None
        }
    } else if !in_scope(block, scope) {
        None
    } else {
        match block.content {
            Content::Kept(_, _, Reason::Malformed(fault)) => if scope == StrictScope::Glonass
                && unrepresentable(fault) {
                None
            } else {
                Some(fault)
            },
            _ => if block.departures.len() > 0 {
                Some(block.departures[0])
            } else {
                None
            },
        }
    }
}

/// What a strict reader of `scope` refuses first.
pub open spec fn first_fault(entries: Seq<Entry>, scope: StrictScope) -> Option<Fault>
    decreases entries.len(),
{
    if entries.len() == 0 {
        None
    } else if entry_fault(entries[0], scope) is Some {
        entry_fault(entries[0], scope)
    } else {
        first_fault(entries.drop_first(), scope)
    }
}

/// What each entry contributes, in order.
pub open spec fn gathered<A>(entries: Seq<Entry>, part: spec_fn(Entry) -> Seq<A>) -> Seq<A>
    decreases entries.len(),
{
    if entries.len() == 0 {
        Seq::empty()
    } else {
        gathered(entries.drop_last(), part) + part(entries.last())
    }
}

/// The Keplerian records of entries, in order.
pub open spec fn keplerian_of(entries: Seq<Entry>) -> Seq<BroadcastRecord> {
    gathered(
        entries,
        |e: Entry|
            match e.block.content {
                Content::Ephemeris(r) => seq![r],
                _ => Seq::empty(),
            },
    )
}

/// The GLONASS records of entries, in order.
pub open spec fn glonass_of(entries: Seq<Entry>) -> Seq<GlonassRecord> {
    gathered(
        entries,
        |e: Entry|
            match e.block.content {
                Content::Glonass(r) => seq![r],
                _ => Seq::empty(),
            },
    )
}

/// The SBAS records of entries, in order.
pub open spec fn sbas_of(entries: Seq<Entry>) -> Seq<SbasRecord> {
    gathered(
        entries,
        |e: Entry|
            match e.block.content {
                Content::Sbas(r) => seq![r],
                _ => Seq::empty(),
            },
    )
}

/// The ionosphere frames of entries, in order.
pub open spec fn ion_of(entries: Seq<Entry>) -> Seq<IonFrame> {
    gathered(
        entries,
        |e: Entry|
            match e.block.content {
                Content::Ion(f) => seq![f],
                _ => Seq::empty(),
            },
    )
}

/// The satellite token of what an entry holds.
pub open spec fn content_satellite(content: Content) -> Seq<u8> {
    match content {
        Content::Ephemeris(r) => token_of_satellite(r.satellite_id),
        Content::Glonass(r) => token_of_satellite(r.satellite_id),
        Content::Sbas(r) => token_of_satellite(r.satellite_id),
        Content::Offset(f) => token_of_satellite(f.satellite_id),
        Content::Orientation(f) => token_of_satellite(f.satellite_id),
        Content::Ion(f) => token_of_satellite(f.satellite_id),
        Content::Kept(satellite, _, _) => satellite,
    }
}

/// The message token of what an entry holds, where it has one.
pub open spec fn content_token(content: Content) -> Option<Seq<u8>> {
    match content {
        Content::Offset(f) => Some(f.token),
        Content::Orientation(f) => Some(f.token),
        Content::Ion(f) => Some(f.token),
        Content::Kept(_, token, _) => token,
        _ => None,
    }
}

/// What a [`NavDiagnostic`] states.
pub ghost struct Diagnostic {
    /// 1-based line number.
    pub line: int,
    /// The satellite token.
    pub satellite: Seq<u8>,
    /// The departure.
    pub fault: Fault,
}

/// What a [`SkippedNavBlock`] states.
pub ghost struct Skipped {
    /// The satellite token.
    pub satellite: Seq<u8>,
    /// The text of the error.
    pub message: Seq<u8>,
    /// 1-based line number.
    pub line: int,
}

/// What an [`OtherNavBlock`] states.
pub ghost struct Other {
    /// 1-based line number.
    pub line: int,
    /// The satellite token.
    pub satellite: Seq<u8>,
    /// The message token.
    pub token: Option<Seq<u8>>,
    /// What the block holds.
    pub kind: OtherNavBlockKind,
}

/// What a [`SkippedGlonass`] states.
pub ghost struct Slot {
    /// The satellite token.
    pub token: Seq<u8>,
    /// 1-based line number.
    pub line: int,
}

impl View for NavDiagnostic {
    type V = Diagnostic;

    open spec fn view(&self) -> Diagnostic {
        Diagnostic {
            line: self.line as int,
            satellite: utf8(self.satellite@),
            fault: self.error@,
        }
    }
}

impl View for SkippedNavBlock {
    type V = Skipped;

    open spec fn view(&self) -> Skipped {
        Skipped {
            satellite: utf8(self.satellite@),
            message: utf8(self.message@),
            line: self.line as int,
        }
    }
}

impl View for OtherNavBlock {
    type V = Other;

    open spec fn view(&self) -> Other {
        Other {
            line: self.line as int,
            satellite: utf8(self.satellite@),
            token: opt_utf8(self.message_token),
            kind: self.kind,
        }
    }
}

impl View for SkippedGlonass {
    type V = Slot;

    open spec fn view(&self) -> Slot {
        Slot { token: utf8(self.token@), line: self.line as int }
    }
}

/// What diagnostics state.
pub open spec fn diagnostic_views(list: Seq<NavDiagnostic>) -> Seq<Diagnostic> {
    list.map_values(|d: NavDiagnostic| d@)
}

/// What skipped blocks state.
pub open spec fn skipped_views(list: Seq<SkippedNavBlock>) -> Seq<Skipped> {
    list.map_values(|d: SkippedNavBlock| d@)
}

/// What other blocks state.
pub open spec fn other_views(list: Seq<OtherNavBlock>) -> Seq<Other> {
    list.map_values(|d: OtherNavBlock| d@)
}

/// What skipped slots state.
pub open spec fn slot_views(list: Seq<SkippedGlonass>) -> Seq<Slot> {
    list.map_values(|d: SkippedGlonass| d@)
}

/// The departures of an entry, each with its line and satellite.
pub open spec fn entry_diagnostics(entry: Entry) -> Seq<Diagnostic> {
    entry.block.departures.map_values(
        |fault: Fault|
            Diagnostic {
                line: entry.line,
                satellite: content_satellite(entry.block.content),
                fault,
            },
    )
}

/// The header records that could not be read, as diagnostics.
pub open spec fn issue_diagnostics(issues: Seq<Issue>) -> Seq<Diagnostic> {
    issues.map_values(
        |issue: Issue|
            Diagnostic { line: issue.line, satellite: Seq::empty(), fault: issue.fault },
    )
}

/// The departures of the Keplerian records.
pub open spec fn keplerian_diagnostics(entry: Entry) -> Seq<Diagnostic> {
    match entry.block.content {
        Content::Ephemeris(_) => entry_diagnostics(entry),
        _ => Seq::empty(),
    }
}

/// The report of a block that could not be read, or of lines that belong to no record.
pub open spec fn entry_skipped(entry: Entry) -> Seq<Skipped> {
    match entry.block.content {
        Content::Kept(satellite, _, Reason::Malformed(fault)) => seq![
            Skipped { satellite, message: fault_text(fault), line: entry.line },
        ],
        Content::Kept(_, _, Reason::Stray) => if some_text(entry.text) {
            seq![
                Skipped {
                    satellite: Seq::empty(),
                    message: fault_text(Fault::UnexpectedLine(entry.line)),
                    line: entry.line,
                },
            ]
        } else {
            Seq::empty()
        },
        _ => Seq::empty(),
    }
}

/// What a block the Keplerian reader does not return holds.
pub open spec fn other_kind(content: Content) -> Option<OtherNavBlockKind> {
    match content {
        Content::Glonass(_) => Some(OtherNavBlockKind::Glonass),
        Content::Sbas(_) => Some(OtherNavBlockKind::Sbas),
        Content::Offset(_) => Some(OtherNavBlockKind::SystemTimeOffset),
        Content::Orientation(_) => Some(OtherNavBlockKind::EarthOrientation),
        Content::Ion(_) => Some(OtherNavBlockKind::Ionosphere),
        Content::Kept(_, _, Reason::NotDecoded) => Some(OtherNavBlockKind::NotDecoded),
        _ => None,
    }
}

/// The report of a block the Keplerian reader read and does not return.
pub open spec fn entry_other(entry: Entry) -> Seq<Other> {
    match other_kind(entry.block.content) {
        Some(kind) => seq![
            Other {
                line: entry.line,
                satellite: content_satellite(entry.block.content),
                token: content_token(entry.block.content),
                kind,
            },
        ],
        None => Seq::empty(),
    }
}

/// Whether an entry is a GLONASS record block.
pub open spec fn glonass_entry(entry: Entry) -> bool {
    entry.block.system == Some(GnssSystem::Glonass) && entry.block.kind == NavEntryKind::Ephemeris
}

/// The GLONASS record of an entry.
pub open spec fn glonass_records_part(entry: Entry) -> Seq<GlonassRecord> {
    match entry.block.content {
        Content::Glonass(r) => if glonass_entry(entry) {
            seq![r]
        } else {
            Seq::empty()
        },
        _ => Seq::empty(),
    }
}

/// The departures of a GLONASS record.
pub open spec fn glonass_diagnostics(entry: Entry) -> Seq<Diagnostic> {
    match entry.block.content {
        Content::Glonass(_) => if glonass_entry(entry) {
            entry_diagnostics(entry)
        } else {
            Seq::empty()
        },
        _ => Seq::empty(),
    }
}

/// The report of a GLONASS slot token that names no satellite.
pub open spec fn glonass_slots(entry: Entry) -> Seq<Slot> {
    match entry.block.content {
        Content::Kept(satellite, _, Reason::Malformed(fault)) => if glonass_entry(entry)
            && unrepresentable(fault) {
            seq![Slot { token: satellite, line: entry.line }]
        } else {
            Seq::empty()
        },
        _ => Seq::empty(),
    }
}

/// The report of a GLONASS record of a satellite that could not be read.
pub open spec fn glonass_invalid(entry: Entry) -> Seq<Skipped> {
    match entry.block.content {
        Content::Kept(satellite, _, Reason::Malformed(fault)) => if glonass_entry(entry)
            && !unrepresentable(fault) {
            seq![Skipped { satellite, message: fault_text(fault), line: entry.line }]
        } else {
            Seq::empty()
        },
        _ => Seq::empty(),
    }
}

/// Result of lenient RINEX navigation parsing. It keeps the successfully parsed Keplerian records,
/// diagnostics for the blocks that failed, the departures read through, and every other block of
/// the file, so a caller can tell a clean parse from one that left records out.
#[derive(Debug, Clone, PartialEq, Eq)]
pub struct NavParse {
    /// Successfully parsed Keplerian records, in input order. A malformed block is omitted here
    /// and reported in [`Self::skipped`].
    pub records: Vec<BroadcastRecord>,
    /// Diagnostics for blocks whose parsing or marker validation returned a [`NavParseError`], and
    /// for body lines that belong to no record.
    pub skipped: Vec<SkippedNavBlock>,
    /// Departures from the format in the Keplerian records kept in [`Self::records`], and in the
    /// header.
    pub departures: Vec<NavDiagnostic>,
    /// Every other block of the file: GLONASS, SBAS and RINEX 4 non-ephemeris frames, and messages
    /// not decoded.
    pub other: Vec<OtherNavBlock>,
}

/// The result of a lenient GLONASS parse: the readable records, the slot tokens that were skipped,
/// the records that could not be read, and the departures read through.
#[derive(Debug, Clone, PartialEq, Eq)]
pub struct GlonassParse {
    /// Records for representable slots, in file order.
    pub records: Vec<GlonassRecord>,
    /// Slots that could not be represented and were skipped, in file order.
    pub skipped: Vec<SkippedGlonass>,
    /// Records of representable slots that could not be read, with the reason.
    pub invalid: Vec<SkippedNavBlock>,
    /// Records kept although they depart from the format, with the departure.
    pub departures: Vec<NavDiagnostic>,
}

/// The reports of blocks that could not be read and of lines that belong to no record.
pub open spec fn skipped_of(entries: Seq<Entry>) -> Seq<Skipped> {
    gathered(entries, |e: Entry| entry_skipped(e))
}

/// The reports of blocks the Keplerian reader read and does not return.
pub open spec fn others_of(entries: Seq<Entry>) -> Seq<Other> {
    gathered(entries, |e: Entry| entry_other(e))
}

/// The departures of the Keplerian records.
pub open spec fn keplerian_diagnostics_of(entries: Seq<Entry>) -> Seq<Diagnostic> {
    gathered(entries, |e: Entry| keplerian_diagnostics(e))
}

/// The departures of all entries.
pub open spec fn diagnostics_of(entries: Seq<Entry>) -> Seq<Diagnostic> {
    gathered(entries, |e: Entry| entry_diagnostics(e))
}

/// The records of the GLONASS record blocks.
pub open spec fn glonass_records_of(entries: Seq<Entry>) -> Seq<GlonassRecord> {
    gathered(entries, |e: Entry| glonass_records_part(e))
}

/// The reports of GLONASS slot tokens that name no satellite.
pub open spec fn glonass_slots_of(entries: Seq<Entry>) -> Seq<Slot> {
    gathered(entries, |e: Entry| glonass_slots(e))
}

/// The reports of GLONASS records that could not be read.
pub open spec fn glonass_invalid_of(entries: Seq<Entry>) -> Seq<Skipped> {
    gathered(entries, |e: Entry| glonass_invalid(e))
}

/// The departures of the GLONASS records.
pub open spec fn glonass_diagnostics_of(entries: Seq<Entry>) -> Seq<Diagnostic> {
    gathered(entries, |e: Entry| glonass_diagnostics(e))
}

/// The lenient Keplerian view of a file.
pub open spec fn nav_parse_of(parse: NavParse, file: File) -> bool {
    &&& parse.records@ == keplerian_of(file.entries)
    &&& skipped_views(parse.skipped@) == skipped_of(file.entries)
    &&& diagnostic_views(parse.departures@) == issue_diagnostics(file.issues)
        + keplerian_diagnostics_of(file.entries)
    &&& other_views(parse.other@) == others_of(file.entries)
}

/// The lenient GLONASS view of a file.
pub open spec fn glonass_parse_of(parse: GlonassParse, file: File) -> bool {
    &&& parse.records@ == glonass_records_of(file.entries)
    &&& slot_views(parse.skipped@) == glonass_slots_of(file.entries)
    &&& skipped_views(parse.invalid@) == glonass_invalid_of(file.entries)
    &&& diagnostic_views(parse.departures@) == glonass_diagnostics_of(file.entries)
}

/// Whether what a block holds goes with its kind and system: a record is an ephemeris of a system
/// that has such records, and a block that is kept as text holds no departures.
pub open spec fn content_fits(block: Block) -> bool {
    match block.content {
        Content::Ephemeris(_) => block.kind == NavEntryKind::Ephemeris && (block.system matches Some(
            system,
        ) && keplerian_system(system)),
        Content::Glonass(_) => block.kind == NavEntryKind::Ephemeris && block.system == Some(
            GnssSystem::Glonass,
        ),
        Content::Sbas(_) => block.kind == NavEntryKind::Ephemeris && block.system == Some(
            GnssSystem::Sbas,
        ),
        Content::Offset(_) => block.kind == NavEntryKind::SystemTimeOffset,
        Content::Orientation(_) => block.kind == NavEntryKind::EarthOrientation,
        Content::Ion(_) => block.kind == NavEntryKind::Ionosphere,
        Content::Kept(_, _, reason) => block.departures.len() == 0 && (block.kind
            == NavEntryKind::Stray <==> reason == Reason::Stray),
    }
}

/// What a record holds goes with its system.
#[verifier::spinoff_prover]
proof fn lemma_record_fits(
    lines: Seq<Seq<u8>>,
    satellite_id: GnssSatelliteId,
    sat: Seq<u8>,
    version: NavVersion,
    layout: Layout,
)
    ensures
        content_fits(record_block(lines, satellite_id, sat, version, layout)),
{
}

/// What an ephemeris frame holds goes with its system.
#[verifier::spinoff_prover]
proof fn lemma_eph_fits(
    body: Seq<Seq<u8>>,
    sv: Seq<u8>,
    token: Seq<u8>,
    system: GnssSystem,
    satellite_id: GnssSatelliteId,
    version: NavVersion,
)
    ensures
        content_fits(eph_block(body, sv, token, system, satellite_id, version)),
{
}

/// What a frame holds goes with its kind and system.
#[verifier::spinoff_prover]
proof fn lemma_frame_fits(block: Seq<Seq<u8>>, version: NavVersion)
    ensures
        content_fits(v4_block(block, version)),
{
    let marker = first_line(block);
    let body = frame_body(block);
    if let Ok(EphMarker::Eph(sv, token)) = eph_marker(marker, block_satellite(body)) {
        if let (Some(system), Some(id)) = (token_system(sv), satellite_of_token(sv)) {
            lemma_eph_fits(body, sv, token, system, id, version);
        }
    }
}

/// What a record of version 2 or 3 holds goes with its system.
#[verifier::spinoff_prover]
proof fn lemma_old_fits(block: Seq<Seq<u8>>, version: NavVersion, file_type: char)
    ensures
        content_fits(v2_v3_block(block, version, file_type)),
{
    let line = first_line(block);
    let layout = if version.major == 2 {
        Layout::V2Lettered
    } else {
        Layout::V3
    };
    let sat = trim_of(slice_of(line, 0, 3));
    if let Some(id) = satellite_of_token(sat) {
        lemma_record_fits(block, id, sat, version, layout);
    }
    let number = trim_of(slice_of(line, 0, 2));
    if let Some(id) = v2_satellite(number, file_type) {
        lemma_record_fits(block, id, number, version, Layout::V2);
    }
}

/// What a block holds goes with its kind and system.
pub proof fn law_block_content_fits(lines: Seq<Seq<u8>>, version: NavVersion, file_type: char)
    ensures
        content_fits(block_of(lines, version, file_type)),
        content_fits(stray_block()),
{
    reveal(block_of);
    lemma_frame_fits(lines, version);
    lemma_old_fits(lines, version, file_type);
}

/// Every entry of a file that was read holds what goes with its kind and system.
pub proof fn law_file_content_fits(b: Seq<u8>)
    requires
        file_of(b) is Ok,
    ensures
        forall|k: int|
            0 <= k < file_of(b)->Ok_0.entries.len() ==> content_fits(
                (#[trigger] file_of(b)->Ok_0.entries[k]).block,
            ),
{
    let l = lines_of(b);
    let lines = contents(l.lines);
    let (header, start, issues) = header_of(lines, true)->Ok_0;
    let gs = groups(lines.subrange(start, lines.len() as int), header.version.major);
    let entries = file_of(b)->Ok_0.entries;
    assert forall|k: int| 0 <= k < entries.len() implies content_fits(
        (#[trigger] entries[k]).block,
    ) by {
        assert(entries[k] == group_entry(
            l.lines,
            lines,
            start,
            gs[k],
            header.version,
            header.file_type,
        ));
        law_block_content_fits(
            lines.subrange(start + gs[k].0, start + gs[k].1),
            header.version,
            header.file_type,
        );
    }
}

/// The lines of entries, in order.
pub open spec fn entry_texts(entries: Seq<Entry>) -> Seq<Seq<u8>>
    decreases entries.len(),
{
    if entries.len() == 0 {
        Seq::empty()
    } else {
        entry_texts(entries.drop_last()) + entries.last().text
    }
}

/// The first entries of a body hold its first lines.
proof fn lemma_entry_texts(
    raw: Seq<Seq<u8>>,
    lines: Seq<Seq<u8>>,
    start: int,
    version: NavVersion,
    file_type: char,
    k: int,
)
    requires
        raw.len() == lines.len(),
        0 <= start <= raw.len(),
        0 <= k <= body_entries(raw, lines, start, version, file_type).len(),
    ensures
        ({
            let entries = body_entries(raw, lines, start, version, file_type);
            let gs = groups(lines.subrange(start, lines.len() as int), version.major);
            let end = if k == 0 {
                0
            } else {
                gs[k - 1].1
            };
            &&& entries.len() == gs.len()
            &&& 0 <= end <= lines.len() - start
            &&& k < gs.len() ==> gs[k].0 == end
            &&& entry_texts(entries.subrange(0, k)) == raw.subrange(start, start + end)
        }),
    decreases k,
{
    let entries = body_entries(raw, lines, start, version, file_type);
    let body = lines.subrange(start, lines.len() as int);
    let gs = groups(body, version.major);
    law_groups_partition(body, version.major);
    if k == 0 {
        assert(entries.subrange(0, 0) =~= Seq::empty());
        assert(entry_texts(entries.subrange(0, 0)) =~= raw.subrange(start, start));
    } else {
        lemma_entry_texts(raw, lines, start, version, file_type, k - 1);
        let now = entries.subrange(0, k);
        assert(now.drop_last() =~= entries.subrange(0, k - 1));
        assert(now.last() == group_entry(raw, lines, start, gs[k - 1], version, file_type));
        let g = gs[k - 1];
        assert(raw.subrange(start, start + g.0) + raw.subrange(start + g.0, start + g.1)
            =~= raw.subrange(start, start + g.1));
        if k < gs.len() {
            assert(gs[k - 1].1 == gs[k].0);
        }
    }
}

/// Every line of a file that is read belongs to its header or to exactly one of its entries, in
/// order: the header's lines and those of the entries, one after the other, are the lines of the
/// text, each entry has a line, and the line number of an entry counts the lines before it.
pub proof fn law_every_line_belongs(b: Seq<u8>)
    requires
        file_of(b) is Ok,
    ensures
        ({
            let file = file_of(b)->Ok_0;
            &&& file.header_text + entry_texts(file.entries) == lines_of(b).lines
            &&& forall|k: int|
                0 <= k < file.entries.len() ==> (#[trigger] file.entries[k]).text.len() > 0
                    && file.entries[k].line == file.header_text.len() + entry_texts(
                    file.entries.subrange(0, k),
                ).len() + 1
        }),
{
    let file = file_of(b)->Ok_0;
    let raw = lines_of(b).lines;
    let lines = contents(raw);
    let (h, start, issues) = header_of(lines, true)->Ok_0;
    lemma_start_within(lines);
    let entries = file.entries;
    let body = lines.subrange(start, lines.len() as int);
    let gs = groups(body, h.version.major);
    let n = gs.len() as int;
    law_groups_partition(body, h.version.major);
    lemma_entry_texts(raw, lines, start, h.version, h.file_type, n);
    assert(entries.subrange(0, n) =~= entries);
    if n > 0 {
        assert(gs.last() == gs[n - 1]);
    }
    assert(file.header_text + entry_texts(entries) =~= raw);
    assert forall|k: int| 0 <= k < entries.len() implies (#[trigger] entries[k]).text.len() > 0
        && entries[k].line == file.header_text.len() + entry_texts(entries.subrange(0, k)).len()
        + 1 by {
        lemma_entry_texts(raw, lines, start, h.version, h.file_type, k);
        assert(entries[k] == group_entry(raw, lines, start, gs[k], h.version, h.file_type));
    }
}

/// A header ends within the lines it is read from.
proof fn lemma_start_within(lines: Seq<Seq<u8>>)
    ensures
        header_of(lines, true) matches Ok((_, start, _)) ==> 0 <= start <= lines.len(),
{
    lemma_stop_within(lines, 0, empty_scan());
}

/// A scan stops within the lines it reads.
proof fn lemma_stop_within(lines: Seq<Seq<u8>>, from: int, scan: Scan)
    requires
        0 <= from <= lines.len(),
    ensures
        scan_lines(lines, from, scan, true) matches Ok((_, stop, _)) ==> from <= stop <= lines.len(),
    decreases lines.len() - from,
{
    if from < lines.len() && label_of(lines[from]) != Label::End {
        if let Ok(next) = scanned(scan, lines[from], from + 1, true) {
            lemma_stop_within(lines, from + 1, next);
        }
    }
}

/// What is gathered from entries is nothing exactly when each entry has nothing.
pub proof fn lemma_gathered_empty<A>(entries: Seq<Entry>, part: spec_fn(Entry) -> Seq<A>)
    ensures
        gathered(entries, part).len() == 0 <==> forall|k: int|
            0 <= k < entries.len() ==> part(#[trigger] entries[k]).len() == 0,
    decreases entries.len(),
{
    if entries.len() > 0 {
        let rest = entries.drop_last();
        lemma_gathered_empty(rest, part);
        assert forall|k: int| 0 <= k < rest.len() implies rest[k] == entries[k] by {}
        if gathered(entries, part).len() == 0 {
            assert forall|k: int| 0 <= k < entries.len() implies part(
                #[trigger] entries[k],
            ).len() == 0 by {
                if k < rest.len() {
                    assert(part(rest[k]).len() == 0);
                }
            }
        }
        if forall|k: int| 0 <= k < entries.len() ==> part(#[trigger] entries[k]).len() == 0 {
            assert forall|k: int| 0 <= k < rest.len() implies part(#[trigger] rest[k]).len()
                == 0 by {
                assert(part(entries[k]).len() == 0);
            }
            assert(part(entries[entries.len() - 1]).len() == 0);
        }
    }
}

/// A strict reader refuses nothing exactly when it refuses no entry.
pub proof fn lemma_no_fault(entries: Seq<Entry>, scope: StrictScope)
    ensures
        first_fault(entries, scope) is None <==> forall|k: int|
            0 <= k < entries.len() ==> entry_fault(#[trigger] entries[k], scope) is None,
    decreases entries.len(),
{
    if entries.len() > 0 {
        let rest = entries.drop_first();
        lemma_no_fault(rest, scope);
        if first_fault(entries, scope) is None {
            assert forall|k: int| 0 <= k < entries.len() implies entry_fault(
                #[trigger] entries[k],
                scope,
            ) is None by {
                if k > 0 {
                    assert(rest[k - 1] == entries[k]);
                }
            }
        }
        if forall|k: int|
            0 <= k < entries.len() ==> entry_fault(#[trigger] entries[k], scope) is None {
            assert forall|k: int| 0 <= k < rest.len() implies entry_fault(
                #[trigger] rest[k],
                scope,
            ) is None by {
                assert(rest[k] == entries[k + 1]);
            }
            assert(entry_fault(entries[0], scope) is None);
        }
    }
}

/// The strict and the lenient Keplerian readers agree: where the lenient one skips no block and
/// reports no departure of a record, the strict one refuses nothing, so that both give the same
/// records; and where the strict one refuses nothing, the lenient one reports no departure of a
/// record.
pub proof fn law_strict_and_lenient_agree(b: Seq<u8>)
    requires
        file_of(b) is Ok,
    ensures
        ({
            let entries = file_of(b)->Ok_0.entries;
            let refused = first_fault(entries, StrictScope::Keplerian);
            &&& skipped_of(entries).len() == 0 && keplerian_diagnostics_of(entries).len() == 0
                ==> refused is None
            &&& refused is None ==> keplerian_diagnostics_of(entries).len() == 0
        }),
{
    let entries = file_of(b)->Ok_0.entries;
    let scope = StrictScope::Keplerian;
    let skip = |e: Entry| entry_skipped(e);
    let depart = |e: Entry| keplerian_diagnostics(e);
    law_file_content_fits(b);
    lemma_gathered_empty(entries, skip);
    lemma_gathered_empty(entries, depart);
    lemma_no_fault(entries, scope);
    if skipped_of(entries).len() == 0 && keplerian_diagnostics_of(entries).len() == 0 {
        assert forall|k: int| 0 <= k < entries.len() implies entry_fault(
            #[trigger] entries[k],
            scope,
        ) is None by {
            assert(content_fits(entries[k].block));
            assert(skip(entries[k]).len() == 0);
            assert(depart(entries[k]).len() == 0);
        }
    }
    if first_fault(entries, scope) is None {
        assert forall|k: int| 0 <= k < entries.len() implies depart(
            #[trigger] entries[k],
        ).len() == 0 by {
            assert(content_fits(entries[k].block));
            assert(entry_fault(entries[k], scope) is None);
        }
    }
}

/// The strict and the lenient GLONASS readers agree: where the strict one refuses nothing, the
/// lenient one has no block that could not be read and reports no departure of a record; and where
/// the lenient one has neither, and no line belongs to no record, the strict one refuses nothing.
pub proof fn law_strict_and_lenient_glonass_agree(b: Seq<u8>)
    requires
        file_of(b) is Ok,
    ensures
        ({
            let entries = file_of(b)->Ok_0.entries;
            let clean = glonass_invalid_of(entries).len() == 0 && glonass_diagnostics_of(
                entries,
            ).len() == 0;
            let stray = exists|k: int|
                0 <= k < entries.len() && (#[trigger] entries[k]).block.kind
                    == NavEntryKind::Stray && some_text(entries[k].text);
            first_fault(entries, StrictScope::Glonass) is None <==> clean && !stray
        }),
{
    let entries = file_of(b)->Ok_0.entries;
    let scope = StrictScope::Glonass;
    let invalid = |e: Entry| glonass_invalid(e);
    let depart = |e: Entry| glonass_diagnostics(e);
    law_file_content_fits(b);
    lemma_gathered_empty(entries, invalid);
    lemma_gathered_empty(entries, depart);
    lemma_no_fault(entries, scope);
    let clean = glonass_invalid_of(entries).len() == 0 && glonass_diagnostics_of(entries).len()
        == 0;
    let stray = exists|k: int|
        0 <= k < entries.len() && (#[trigger] entries[k]).block.kind == NavEntryKind::Stray
            && some_text(entries[k].text);
    if clean && !stray {
        assert forall|k: int| 0 <= k < entries.len() implies entry_fault(
            #[trigger] entries[k],
            scope,
        ) is None by {
            assert(content_fits(entries[k].block));
            assert(invalid(entries[k]).len() == 0);
            assert(depart(entries[k]).len() == 0);
        }
    }
    if first_fault(entries, scope) is None {
        assert forall|k: int| 0 <= k < entries.len() implies depart(
            #[trigger] entries[k],
        ).len() == 0 && invalid(entries[k]).len() == 0 by {
            assert(content_fits(entries[k].block));
            assert(entry_fault(entries[k], scope) is None);
        }
        assert forall|k: int|
            0 <= k < entries.len() && (#[trigger] entries[k]).block.kind
                == NavEntryKind::Stray implies !some_text(entries[k].text) by {
            assert(entry_fault(entries[k], scope) is None);
        }
    }
}

impl NavEntry {
    /// The satellite token of what the entry holds.
    pub fn satellite_token(&self) -> (r: String)
        ensures
            utf8(r@) == content_satellite(self.item@),
    {
        match &self.item {
            NavItem::Ephemeris(record) => record.satellite_id.token(),
            NavItem::Glonass(record) => record.satellite_id.token(),
            NavItem::Sbas(record) => record.satellite_id.token(),
            NavItem::SystemTimeOffset(frame) => frame.satellite_id.token(),
            NavItem::EarthOrientation(frame) => frame.satellite_id.token(),
            NavItem::Ionosphere(frame) => frame.satellite_id.token(),
            NavItem::Undecoded(block) => own(block.satellite.as_str()),
        }
    }

    /// The message token of what the entry holds, where it has one.
    pub fn message_token(&self) -> (r: Option<String>)
        ensures
            opt_utf8(r) == content_token(self.item@),
    {
        match &self.item {
            NavItem::SystemTimeOffset(frame) => Some(own(frame.message_token.as_str())),
            NavItem::EarthOrientation(frame) => Some(own(frame.message_token.as_str())),
            NavItem::Ionosphere(frame) => Some(own(frame.message_token.as_str())),
            NavItem::Undecoded(block) => copy_option(&block.message_token),
            _ => None,
        }
    }

    /// Whether a line of the entry is not blank.
    pub fn has_text(&self) -> (r: bool)
        ensures
            r == some_text(self@.text),
    {
        let ghost all = strings(self.text@);
        let mut i: usize = 0;
        while i < self.text.len()
            invariant
                all == strings(self.text@),
                i <= self.text@.len(),
                forall|k: int| 0 <= k < i ==> blank(#[trigger] all[k]),
            decreases self.text@.len() - i,
        {
            assert(all[i as int] == utf8(self.text@[i as int]@));
            if !is_blank(self.text[i].as_str()) {
                return true;
            }
            i = i + 1;
        }
        false
    }

    /// What a strict reader of `scope` refuses in the entry (see [`entry_fault`]).
    fn refused_by(&self, scope: StrictScope) -> (r: Option<NavParseError>)
        ensures
            match r {
                Some(e) => entry_fault(self@, scope) == Some(e@),
                None => entry_fault(self@, scope) is None,
            },
    {
        if self.kind == NavEntryKind::Stray {
            return if self.has_text() {
                Some(NavParseError::UnexpectedLine { line: self.line })
            } else {
                None
            };
        }
        let relevant: bool = self.kind == NavEntryKind::Ephemeris && match scope {
            StrictScope::Keplerian => match self.system {
                Some(system) => is_keplerian_system(system),
                None => true,
            },
            StrictScope::Glonass => match self.system {
                Some(system) => system == GnssSystem::Glonass,
                None => false,
            },
            StrictScope::Sbas => match self.system {
                Some(system) => system == GnssSystem::Sbas,
                None => false,
            },
        };
        if !relevant {
            return None;
        }
        if let NavItem::Undecoded(block) = &self.item {
            if let UndecodedReason::Malformed(error) = &block.reason {
                // A GLONASS slot token that names no satellite is skipped, not refused.
                if scope == StrictScope::Glonass && is_unrepresentable_satellite(error) {
                    return None;
                }
                return Some(error.clone());
            }
        }
        assert(self@.block.departures.len() == self.departures@.len());
        if self.departures.len() > 0 {
            assert(self@.block.departures[0] == self.departures@[0]@);
            Some(self.departures[0].clone())
        } else {
            None
        }
    }

    /// Add the departures of the entry to `out`, each with its line and satellite.
    fn push_diagnostics(&self, out: &mut Vec<NavDiagnostic>)
        ensures
            diagnostic_views(final(out)@) == diagnostic_views(old(out)@) + entry_diagnostics(self@),
    {
        let ghost before = diagnostic_views(out@);
        let ghost all = entry_diagnostics(self@);
        let mut i: usize = 0;
        assert(all.len() == self.departures@.len());
        assert(before + all.subrange(0, 0) =~= before);
        while i < self.departures.len()
            invariant
                all == entry_diagnostics(self@),
                all.len() == self.departures@.len(),
                i <= self.departures@.len(),
                diagnostic_views(out@) == before + all.subrange(0, i as int),
            decreases self.departures@.len() - i,
        {
            let ghost now = out@;
            let d = NavDiagnostic {
                line: self.line,
                satellite: self.satellite_token(),
                error: self.departures[i].clone(),
            };
            assert(all[i as int] == d@);
            out.push(d);
            assert(diagnostic_views(out@) =~= diagnostic_views(now).push(d@));
            assert(diagnostic_views(now).push(d@) =~= before + all.subrange(0, i + 1));
            i = i + 1;
        }
        assert(all.subrange(0, i as int) =~= all);
    }

    /// Add a report of the entry, where its block could not be read or its lines belong to no
    /// record.
    fn push_skipped(&self, out: &mut Vec<SkippedNavBlock>)
        ensures
            skipped_views(final(out)@) == skipped_views(old(out)@) + entry_skipped(self@),
    {
        let ghost before = out@;
        if let NavItem::Undecoded(block) = &self.item {
            match &block.reason {
                UndecodedReason::Malformed(error) => {
                    out.push(
                        SkippedNavBlock {
                            satellite: own(block.satellite.as_str()),
                            message: error.text(),
                            line: self.line,
                        },
                    );
                },
                UndecodedReason::Stray => {
                    if self.has_text() {
                        out.push(
                            SkippedNavBlock {
                                satellite: own(crate::text::no_text()),
                                message: (NavParseError::UnexpectedLine {
                                    line: self.line,
                                }).text(),
                                line: self.line,
                            },
                        );
                    }
                },
                UndecodedReason::NotDecoded => {},
            }
        }
        assert(skipped_views(out@) =~= skipped_views(before) + entry_skipped(self@));
    }

    /// Add a report of the entry, where the Keplerian reader read its block and does not return
    /// it.
    fn push_other(&self, out: &mut Vec<OtherNavBlock>)
        ensures
            other_views(final(out)@) == other_views(old(out)@) + entry_other(self@),
    {
        let ghost before = out@;
        let kind: Option<OtherNavBlockKind> = match &self.item {
            NavItem::Ephemeris(_) => None,
            NavItem::Glonass(_) => Some(OtherNavBlockKind::Glonass),
            NavItem::Sbas(_) => Some(OtherNavBlockKind::Sbas),
            NavItem::SystemTimeOffset(_) => Some(OtherNavBlockKind::SystemTimeOffset),
            NavItem::EarthOrientation(_) => Some(OtherNavBlockKind::EarthOrientation),
            NavItem::Ionosphere(_) => Some(OtherNavBlockKind::Ionosphere),
            NavItem::Undecoded(block) => match &block.reason {
                UndecodedReason::NotDecoded => Some(OtherNavBlockKind::NotDecoded),
                _ => None,
            },
        };
        if let Some(kind) = kind {
            out.push(
                OtherNavBlock {
                    line: self.line,
                    satellite: self.satellite_token(),
                    message_token: self.message_token(),
                    kind,
                },
            );
        }
        assert(other_views(out@) =~= other_views(before) + entry_other(self@));
    }
}

impl NavFile {
    /// A file with `header` and no entries, ending lines with `LF` and a final newline.
    pub fn new(header: NavHeader) -> (r: NavFile)
        ensures
            r.header == header,
            r.entries@.len() == 0,
            !r.crlf,
            r.final_newline,
            r.header_issues@.len() == 0,
    {
        NavFile {
            header,
            entries: Vec::new(),
            crlf: false,
            final_newline: true,
            header_issues: Vec::new(),
        }
    }

    /// Header records whose values could not be read. Each record is kept verbatim in
    /// [`NavHeader::other_records`] and its values are absent.
    pub fn header_departures(&self) -> (r: Vec<NavDiagnostic>)
        ensures
            diagnostic_views(r@) == issue_diagnostics(self@.issues),
    {
        let ghost all = issue_diagnostics(self@.issues);
        let mut out: Vec<NavDiagnostic> = Vec::new();
        let mut i: usize = 0;
        while i < self.header_issues.len()
            invariant
                all == issue_diagnostics(self@.issues),
                i <= self.header_issues@.len(),
                out@.len() == i,
                forall|k: int| 0 <= k < i ==> (#[trigger] out@[k])@ == all[k],
            decreases self.header_issues@.len() - i,
        {
            let d = NavDiagnostic {
                line: self.header_issues[i].line,
                satellite: own(crate::text::no_text()),
                error: self.header_issues[i].error.clone(),
            };
            assert(all[i as int] == d@);
            out.push(d);
            i = i + 1;
        }
        assert(diagnostic_views(out@) =~= all);
        out
    }

    /// Every departure the reader read through, header records first, each with its line.
    pub fn departures(&self) -> (r: Vec<NavDiagnostic>)
        ensures
            diagnostic_views(r@) == issue_diagnostics(self@.issues) + diagnostics_of(self@.entries),
    {
        let ghost head = issue_diagnostics(self@.issues);
        let ghost all = self@.entries;
        let mut out = self.header_departures();
        let mut i: usize = 0;
        assert(head + diagnostics_of(all.subrange(0, 0)) =~= head);
        while i < self.entries.len()
            invariant
                all == self@.entries,
                i <= self.entries@.len(),
                diagnostic_views(out@) == head + diagnostics_of(all.subrange(0, i as int)),
            decreases self.entries@.len() - i,
        {
            assert(all.subrange(0, i + 1).drop_last() =~= all.subrange(0, i as int));
            assert(all[i as int] == self.entries@[i as int]@);
            self.entries[i].push_diagnostics(&mut out);
            assert(diagnostic_views(out@) =~= head + diagnostics_of(all.subrange(0, i + 1)));
            i = i + 1;
        }
        assert(all.subrange(0, i as int) =~= all);
        out
    }

    /// The Keplerian records, in file order.
    pub fn keplerian_records(&self) -> (r: Vec<BroadcastRecord>)
        ensures
            r@ == keplerian_of(self@.entries),
    {
        let ghost all = self@.entries;
        let mut out: Vec<BroadcastRecord> = Vec::new();
        let mut i: usize = 0;
        assert(out@ =~= keplerian_of(all.subrange(0, 0)));
        while i < self.entries.len()
            invariant
                all == self@.entries,
                i <= self.entries@.len(),
                out@ == keplerian_of(all.subrange(0, i as int)),
            decreases self.entries@.len() - i,
        {
            assert(all.subrange(0, i + 1).drop_last() =~= all.subrange(0, i as int));
            assert(all[i as int] == self.entries@[i as int]@);
            if let NavItem::Ephemeris(record) = &self.entries[i].item {
                out.push(*record);
            }
            assert(out@ =~= keplerian_of(all.subrange(0, i + 1)));
            i = i + 1;
        }
        assert(all.subrange(0, i as int) =~= all);
        out
    }

    /// The GLONASS records, in file order.
    pub fn glonass_records(&self) -> (r: Vec<GlonassRecord>)
        ensures
            r@ == glonass_of(self@.entries),
    {
        let ghost all = self@.entries;
        let mut out: Vec<GlonassRecord> = Vec::new();
        let mut i: usize = 0;
        assert(out@ =~= glonass_of(all.subrange(0, 0)));
        while i < self.entries.len()
            invariant
                all == self@.entries,
                i <= self.entries@.len(),
                out@ == glonass_of(all.subrange(0, i as int)),
            decreases self.entries@.len() - i,
        {
            assert(all.subrange(0, i + 1).drop_last() =~= all.subrange(0, i as int));
            assert(all[i as int] == self.entries@[i as int]@);
            if let NavItem::Glonass(record) = &self.entries[i].item {
                out.push(*record);
            }
            assert(out@ =~= glonass_of(all.subrange(0, i + 1)));
            i = i + 1;
        }
        assert(all.subrange(0, i as int) =~= all);
        out
    }

    /// The SBAS records, in file order.
    pub fn sbas_records(&self) -> (r: Vec<SbasRecord>)
        ensures
            r@ == sbas_of(self@.entries),
    {
        let ghost all = self@.entries;
        let mut out: Vec<SbasRecord> = Vec::new();
        let mut i: usize = 0;
        assert(out@ =~= sbas_of(all.subrange(0, 0)));
        while i < self.entries.len()
            invariant
                all == self@.entries,
                i <= self.entries@.len(),
                out@ == sbas_of(all.subrange(0, i as int)),
            decreases self.entries@.len() - i,
        {
            assert(all.subrange(0, i + 1).drop_last() =~= all.subrange(0, i as int));
            assert(all[i as int] == self.entries@[i as int]@);
            if let NavItem::Sbas(record) = &self.entries[i].item {
                out.push(*record);
            }
            assert(out@ =~= sbas_of(all.subrange(0, i + 1)));
            i = i + 1;
        }
        assert(all.subrange(0, i as int) =~= all);
        out
    }

    /// The RINEX 4 ionosphere frames, in file order.
    pub fn ionosphere_frames(&self) -> (r: Vec<IonosphereFrame>)
        ensures
            ion_frames(r@) == ion_of(self@.entries),
    {
        let ghost all = self@.entries;
        let mut out: Vec<IonosphereFrame> = Vec::new();
        let mut i: usize = 0;
        assert(ion_frames(out@) =~= ion_of(all.subrange(0, 0)));
        while i < self.entries.len()
            invariant
                all == self@.entries,
                i <= self.entries@.len(),
                ion_frames(out@) == ion_of(all.subrange(0, i as int)),
            decreases self.entries@.len() - i,
        {
            let ghost before = out@;
            assert(all.subrange(0, i + 1).drop_last() =~= all.subrange(0, i as int));
            assert(all[i as int] == self.entries@[i as int]@);
            if let NavItem::Ionosphere(frame) = &self.entries[i].item {
                let copy = frame.copy();
                out.push(copy);
                assert(ion_frames(out@) =~= ion_frames(before).push(frame@));
            }
            assert(ion_frames(out@) =~= ion_of(all.subrange(0, i + 1)));
            i = i + 1;
        }
        assert(all.subrange(0, i as int) =~= all);
        out
    }

    /// The first problem a strict reader of `scope` refuses: a block of its kind that could not be
    /// read or departs from the format, or a line that belongs to no record.
    pub fn first_error(&self, scope: StrictScope) -> (r: Option<NavParseError>)
        ensures
            match r {
                Some(e) => first_fault(self@.entries, scope) == Some(e@),
                None => first_fault(self@.entries, scope) is None,
            },
    {
        let ghost all = self@.entries;
        let mut i: usize = 0;
        assert(all.skip(0) =~= all);
        while i < self.entries.len()
            invariant
                all == self@.entries,
                i <= self.entries@.len(),
                first_fault(all, scope) == first_fault(all.skip(i as int), scope),
            decreases self.entries@.len() - i,
        {
            assert(all.skip(i as int)[0] == self.entries@[i as int]@);
            assert(all.skip(i as int).drop_first() =~= all.skip(i + 1));
            if let Some(error) = self.entries[i].refused_by(scope) {
                return Some(error);
            }
            i = i + 1;
        }
        None
    }

    /// The lenient Keplerian view of the file (see [`nav_parse_of`]).
    pub fn nav_parse(&self) -> (r: NavParse)
        ensures
            nav_parse_of(r, self@),
    {
        let ghost all = self@.entries;
        let mut skipped: Vec<SkippedNavBlock> = Vec::new();
        let mut departures = self.header_departures();
        let mut other: Vec<OtherNavBlock> = Vec::new();
        let ghost head = issue_diagnostics(self@.issues);
        let mut i: usize = 0;
        proof {
            assert(skipped_views(skipped@) =~= skipped_of(all.subrange(0, 0)));
            assert(other_views(other@) =~= others_of(all.subrange(0, 0)));
            assert(head + keplerian_diagnostics_of(all.subrange(0, 0)) =~= head);
        }
        while i < self.entries.len()
            invariant
                all == self@.entries,
                i <= self.entries@.len(),
                skipped_views(skipped@) == skipped_of(all.subrange(0, i as int)),
                diagnostic_views(departures@) == head + keplerian_diagnostics_of(
                    all.subrange(0, i as int),
                ),
                other_views(other@) == others_of(all.subrange(0, i as int)),
            decreases self.entries@.len() - i,
        {
            assert(all.subrange(0, i + 1).drop_last() =~= all.subrange(0, i as int));
            assert(all[i as int] == self.entries@[i as int]@);
            let entry = &self.entries[i];
            if let NavItem::Ephemeris(_) = &entry.item {
                entry.push_diagnostics(&mut departures);
            }
            entry.push_skipped(&mut skipped);
            entry.push_other(&mut other);
            assert(diagnostic_views(departures@) =~= head + keplerian_diagnostics_of(
                all.subrange(0, i + 1),
            ));
            assert(skipped_views(skipped@) =~= skipped_of(all.subrange(0, i + 1)));
            assert(other_views(other@) =~= others_of(all.subrange(0, i + 1)));
            i = i + 1;
        }
        assert(all.subrange(0, i as int) =~= all);
        NavParse { records: self.keplerian_records(), skipped, departures, other }
    }

    /// The lenient GLONASS view of the file (see [`glonass_parse_of`]).
    pub fn glonass_parse(&self) -> (r: GlonassParse)
        ensures
            glonass_parse_of(r, self@),
    {
        let ghost all = self@.entries;
        let mut records: Vec<GlonassRecord> = Vec::new();
        let mut skipped: Vec<SkippedGlonass> = Vec::new();
        let mut invalid: Vec<SkippedNavBlock> = Vec::new();
        let mut departures: Vec<NavDiagnostic> = Vec::new();
        let mut i: usize = 0;
        proof {
            assert(records@ =~= glonass_records_of(all.subrange(0, 0)));
            assert(slot_views(skipped@) =~= glonass_slots_of(all.subrange(0, 0)));
            assert(skipped_views(invalid@) =~= glonass_invalid_of(all.subrange(0, 0)));
            assert(diagnostic_views(departures@) =~= glonass_diagnostics_of(all.subrange(0, 0)));
        }
        while i < self.entries.len()
            invariant
                all == self@.entries,
                i <= self.entries@.len(),
                records@ == glonass_records_of(all.subrange(0, i as int)),
                slot_views(skipped@) == glonass_slots_of(all.subrange(0, i as int)),
                skipped_views(invalid@) == glonass_invalid_of(all.subrange(0, i as int)),
                diagnostic_views(departures@) == glonass_diagnostics_of(
                    all.subrange(0, i as int),
                ),
            decreases self.entries@.len() - i,
        {
            let ghost slots_before = skipped@;
            let ghost invalid_before = invalid@;
            assert(all.subrange(0, i + 1).drop_last() =~= all.subrange(0, i as int));
            assert(all[i as int] == self.entries@[i as int]@);
            let entry = &self.entries[i];
            let relevant: bool = entry.kind == NavEntryKind::Ephemeris && match entry.system {
                Some(system) => system == GnssSystem::Glonass,
                None => false,
            };
            if relevant {
                match &entry.item {
                    NavItem::Glonass(record) => {
                        records.push(*record);
                        entry.push_diagnostics(&mut departures);
                    },
                    NavItem::Undecoded(block) => {
                        if let UndecodedReason::Malformed(error) = &block.reason {
                            if is_unrepresentable_satellite(error) {
                                skipped.push(
                                    SkippedGlonass {
                                        token: own(block.satellite.as_str()),
                                        line: entry.line,
                                    },
                                );
                            } else {
                                invalid.push(
                                    SkippedNavBlock {
                                        satellite: own(block.satellite.as_str()),
                                        message: error.text(),
                                        line: entry.line,
                                    },
                                );
                            }
                        }
                    },
                    _ => {},
                }
            }
            proof {
                let next = all.subrange(0, i + 1);
                assert(slot_views(skipped@) =~= slot_views(slots_before) + glonass_slots(
                    all[i as int],
                ));
                assert(skipped_views(invalid@) =~= skipped_views(invalid_before)
                    + glonass_invalid(all[i as int]));
                assert(records@ =~= glonass_records_of(next));
                assert(slot_views(skipped@) =~= glonass_slots_of(next));
                assert(skipped_views(invalid@) =~= glonass_invalid_of(next));
                assert(diagnostic_views(departures@) =~= glonass_diagnostics_of(next));
            }
            i = i + 1;
        }
        assert(all.subrange(0, i as int) =~= all);
        GlonassParse { records, skipped, invalid, departures }
    }
}

/// Parse a RINEX 2.xx, 3.xx or 4.xx navigation file into its Keplerian records: GPS, QZSS,
/// Galileo, BeiDou and NavIC.
///
/// A malformed Keplerian block, a departure from the format in one, or a non-blank line that
/// belongs to no record is an error; GLONASS, SBAS, RINEX 4 non-ephemeris frames and messages not
/// decoded are left to the other readers. The records are returned in file order; selection by
/// epoch, health, and message type is the caller's job.
pub fn parse_nav(text: &str) -> (r: Result<Vec<BroadcastRecord>, NavParseError>)
    ensures
        match file_of(utf8(text@)) {
            Err(fault) => r matches Err(e) && e@ == fault,
            Ok(file) => match first_fault(file.entries, StrictScope::Keplerian) {
                Some(fault) => r matches Err(e) && e@ == fault,
                None => r matches Ok(records) && records@ == keplerian_of(file.entries),
            },
        },
{
    match parse_nav_file(text) {
        Err(e) => Err(e),
        Ok(file) => match file.first_error(StrictScope::Keplerian) {
            Some(error) => Err(error),
            None => Ok(file.keplerian_records()),
        },
    }
}

/// Parse the Keplerian records, keeping every readable one.
///
/// Header failures remain fatal because no record boundaries are trustworthy before the file type
/// and version are known; a malformed optional header record is reported in
/// [`NavParse::departures`] instead. A malformed block is reported in [`NavParse::skipped`] with
/// its line number and reason.
pub fn parse_nav_lenient(text: &str) -> (r: Result<NavParse, NavParseError>)
    ensures
        match file_of(utf8(text@)) {
            Err(fault) => r matches Err(e) && e@ == fault,
            Ok(file) => r matches Ok(parse) && nav_parse_of(parse, file),
        },
{
    match parse_nav_file(text) {
        Err(e) => Err(e),
        Ok(file) => Ok(file.nav_parse()),
    }
}

/// Parse all GLONASS (`R`) records from a RINEX 2 (`G` file), 3 or 4 navigation file, in file
/// order; selection is the caller's job. A malformed record of a representable slot, or a
/// departure from the format in one, is a [`NavParseError`], but a record whose slot token is not
/// a representable satellite id (`R00`, or a malformed slot field) is skipped rather than
/// rejecting the whole file.
pub fn parse_glonass(text: &str) -> (r: Result<Vec<GlonassRecord>, NavParseError>)
    ensures
        match file_of(utf8(text@)) {
            Err(fault) => r matches Err(e) && e@ == fault,
            Ok(file) => match first_fault(file.entries, StrictScope::Glonass) {
                Some(fault) => r matches Err(e) && e@ == fault,
                None => r matches Ok(records) && records@ == glonass_records_of(file.entries),
            },
        },
{
    match parse_nav_file(text) {
        Err(e) => Err(e),
        Ok(file) => match file.first_error(StrictScope::Glonass) {
            Some(error) => Err(error),
            None => Ok(file.glonass_parse().records),
        },
    }
}

/// Like [`parse_glonass`], but keeps every readable record and reports the rest: slots whose token
/// is not representable (`R00`, or a malformed slot field) in [`GlonassParse::skipped`], records
/// that could not be read in [`GlonassParse::invalid`], and records kept through a departure from
/// the format in [`GlonassParse::departures`], each with its line number.
pub fn parse_glonass_lenient(text: &str) -> (r: Result<GlonassParse, NavParseError>)
    ensures
        match file_of(utf8(text@)) {
            Err(fault) => r matches Err(e) && e@ == fault,
            Ok(file) => r matches Ok(parse) && glonass_parse_of(parse, file),
        },
{
    match parse_nav_file(text) {
        Err(e) => Err(e),
        Ok(file) => Ok(file.glonass_parse()),
    }
}

/// Parse all SBAS (`S`) records from a RINEX 2 (`H` file), 3 or 4 navigation file, in file order.
/// A malformed SBAS record, or a departure from the format in one, is an error.
pub fn parse_sbas(text: &str) -> (r: Result<Vec<SbasRecord>, NavParseError>)
    ensures
        match file_of(utf8(text@)) {
            Err(fault) => r matches Err(e) && e@ == fault,
            Ok(file) => match first_fault(file.entries, StrictScope::Sbas) {
                Some(fault) => r matches Err(e) && e@ == fault,
                None => r matches Ok(records) && records@ == sbas_of(file.entries),
            },
        },
{
    match parse_nav_file(text) {
        Err(e) => Err(e),
        Ok(file) => match file.first_error(StrictScope::Sbas) {
            Some(error) => Err(error),
            None => Ok(file.sbas_records()),
        },
    }
}

/// The lines of a text as the header-only helpers see them: without the `LF` or `CR LF` that ends
/// each.
pub open spec fn plain_lines(b: Seq<u8>) -> Seq<Seq<u8>> {
    let pieces = split_lf(b);
    let lines = Seq::new(
        pieces.len(),
        |i: int|
            if i < pieces.len() - 1 {
                crate::body::without_cr(pieces[i])
            } else {
                pieces[i]
            },
    );
    if pieces.last().len() == 0 {
        lines.drop_last()
    } else {
        lines
    }
}

/// The lines of a text (see [`plain_lines`]).
fn text_lines<'a>(text: &'a str) -> (r: Vec<&'a str>)
    ensures
        texts(r@) == plain_lines(utf8(text@)),
{
    let pieces = split_newlines(text);
    let ghost all = texts(pieces@);
    let n: usize = pieces.len();
    let mut out: Vec<&'a str> = Vec::new();
    let mut i: usize = 0;
    while i < n - 1
        invariant
            all == texts(pieces@),
            n == pieces@.len(),
            n >= 1,
            i <= n - 1,
            out@.len() == i,
            forall|k: int|
                0 <= k < i ==> utf8((#[trigger] out@[k])@) == crate::body::without_cr(all[k]),
        decreases n - i,
    {
        assert(all[i as int] == utf8(pieces@[i as int]@));
        out.push(crate::body::content(pieces[i]));
        i = i + 1;
    }
    assert(all.last() == utf8(pieces@[n - 1]@));
    if pieces[n - 1].as_bytes().len() > 0 {
        out.push(pieces[n - 1]);
    }
    assert(texts(out@) =~= plain_lines(utf8(text@)));
    out
}

/// The first problem of a header with a record of `field`.
pub open spec fn first_issue(issues: Seq<Issue>, field: HeaderField) -> Option<Fault>
    decreases issues.len(),
{
    if issues.len() == 0 {
        None
    } else if issues[0].field == field {
        Some(issues[0].fault)
    } else {
        first_issue(issues.drop_first(), field)
    }
}

/// The first problem of a header with a record of `field`.
fn find_issue(issues: &Vec<HeaderIssue>, field: HeaderField) -> (r: Option<NavParseError>)
    ensures
        match r {
            Some(e) => first_issue(issue_views(issues@), field) == Some(e@),
            None => first_issue(issue_views(issues@), field) is None,
        },
{
    let ghost all = issue_views(issues@);
    let mut i: usize = 0;
    assert(all.skip(0) =~= all);
    while i < issues.len()
        invariant
            all == issue_views(issues@),
            i <= issues@.len(),
            first_issue(all, field) == first_issue(all.skip(i as int), field),
        decreases issues@.len() - i,
    {
        assert(all.skip(i as int)[0] == issues@[i as int]@);
        assert(all.skip(i as int).drop_first() =~= all.skip(i + 1));
        if issues[i].field == field {
            return Some(issues[i].error.clone());
        }
        i = i + 1;
    }
    None
}

/// The leap-second count that a text's header states; the first problem with its record.
pub open spec fn leap_seconds_of(b: Seq<u8>) -> Result<Option<int>, Fault> {
    match header_of(plain_lines(b), false) {
        Err(fault) => Err(fault),
        Ok((header, _, issues)) => match first_issue(issues, HeaderField::LeapSeconds) {
            Some(fault) => Err(fault),
            None => match header.leap {
                Some(leap) => Ok(Some(leap.current)),
                None => Ok(None),
            },
        },
    }
}

/// The leap-second count (GPS - UTC) from the header's `LEAP SECONDS` record; `None` if the record
/// is absent. A malformed record is an error. The header is read up to `END OF HEADER` (or to the
/// end of the text when there is none).
///
/// The value is metadata: GLONASS epochs are converted with the leap-second table at each epoch.
pub fn parse_leap_seconds(text: &str) -> (r: Result<Option<i64>, NavParseError>)
    ensures
        header_of(plain_lines(utf8(text@)), false) is Ok,
        match r {
            Ok(Some(n)) => leap_seconds_of(utf8(text@)) == Ok::<Option<int>, Fault>(Some(n as int)),
            Ok(None) => leap_seconds_of(utf8(text@)) == Ok::<Option<int>, Fault>(None),
            Err(e) => leap_seconds_of(utf8(text@)) == Err::<Option<int>, Fault>(e@),
        },
{
    let lines = text_lines(text);
    let read = scan_header(&lines);
    if let Some(error) = find_issue(&read.issues, HeaderField::LeapSeconds) {
        return Err(error);
    }
    match &read.header.leap_seconds {
        Some(leap) => Ok(Some(leap.current)),
        None => Ok(None),
    }
}

/// What the block `block` of a body, stray or not, gives as an ionosphere frame: a frame of a model
/// not decoded, or of another type, gives none, and one that cannot be read is an error.
#[verifier::opaque]
pub open spec fn ion_frame_in(block: Seq<Seq<u8>>, stray: bool) -> Result<Option<IonFrame>, Fault> {
    let frame = frame_type_of(first_line(block));
    if stray || frame != utf8("ION"@) {
        Ok(None)
    } else {
        match data_frame(frame, first_line(block), frame_body(block)).content {
            Content::Ion(f) => Ok(Some(f)),
            Content::Kept(_, _, Reason::Malformed(fault)) => Err(fault),
            _ => Ok(None),
        }
    }
}

/// What a block gives as an ionosphere frame (see [`ion_frame_in`]).
fn block_ion_frame(block: &[&str], stray: bool) -> (r: Result<
    Option<IonosphereFrame>,
    NavParseError,
>)
    requires
        block@.len() > 0,
    ensures
        match r {
            Ok(None) => ion_frame_in(texts(block@), stray) == Ok::<Option<IonFrame>, Fault>(None),
            Ok(Some(f)) => ion_frame_in(texts(block@), stray) == Ok::<Option<IonFrame>, Fault>(
                Some(f@),
            ),
            Err(e) => ion_frame_in(texts(block@), stray) == Err::<Option<IonFrame>, Fault>(e@),
        },
{
    reveal(ion_frame_in);
    if stray {
        return Ok(None);
    }
    let marker = block[0];
    let frame = frame_type(marker);
    if !same(frame, "ION") {
        return Ok(None);
    }
    let rest = slice_subrange(block, 1, block.len());
    assert(texts(rest@) =~= frame_body(texts(block@)));
    let entry = decode_v4_data_frame(frame, marker, rest);
    assert(entry.block().content == entry.item@);
    match entry.item {
        NavItem::Ionosphere(frame) => Ok(Some(frame)),
        NavItem::Undecoded(kept) => match kept.reason {
            UndecodedReason::Malformed(error) => Err(error),
            _ => Ok(None),
        },
        _ => Ok(None),
    }
}

/// The ionosphere frames of the blocks `gs` of a body, in order: a frame that cannot be read is an
/// error, a frame of a model not decoded is passed over.
pub open spec fn scan_ion_frames(body: Seq<Seq<u8>>, gs: Seq<(int, int, bool)>) -> Result<
    Seq<IonFrame>,
    Fault,
>
    decreases gs.len(),
{
    if gs.len() == 0 {
        Ok(Seq::empty())
    } else {
        match scan_ion_frames(body, gs.drop_last()) {
            Err(fault) => Err(fault),
            Ok(before) => {
                let g = gs.last();
                match ion_frame_in(body.subrange(g.0, g.1), g.2) {
                    Err(fault) => Err(fault),
                    Ok(Some(f)) => Ok(before.push(f)),
                    Ok(None) => Ok(before),
                }
            },
        }
    }
}

/// The RINEX 4 ionosphere frames of a body that starts at line `from`, in file order (see
/// [`scan_ion_frames`]).
fn body_ionosphere_frames(lines: &Vec<&str>, from: usize) -> (r: Result<
    Vec<IonosphereFrame>,
    NavParseError,
>)
    requires
        from <= lines@.len(),
    ensures
        ({
            let body = texts(lines@).subrange(from as int, lines@.len() as int);
            match r {
                Ok(frames) => scan_ion_frames(body, groups(body, 4)) == Ok::<Seq<IonFrame>, Fault>(
                    ion_frames(frames@),
                ),
                Err(e) => scan_ion_frames(body, groups(body, 4)) == Err::<Seq<IonFrame>, Fault>(e@),
            }
        }),
{
    let ghost body = texts(lines@).subrange(from as int, lines@.len() as int);
    let found = group_body(lines, from, 4);
    let ghost gs = groups(body, 4);
    let mut frames: Vec<IonosphereFrame> = Vec::new();
    let mut k: usize = 0;
    assert(ion_frames(frames@) =~= Seq::empty());
    assert(scan_ion_frames(body, gs.subrange(0, 0)) == Ok::<Seq<IonFrame>, Fault>(
        ion_frames(frames@),
    ));
    while k < found.len()
        invariant
            body == texts(lines@).subrange(from as int, lines@.len() as int),
            from <= lines@.len(),
            gs == groups(body, 4),
            group_views(found@) == gs,
            forall|i: int|
                0 <= i < found@.len() ==> (#[trigger] found@[i]).start < found@[i].end
                    <= lines@.len() - from,
            k <= found@.len(),
            scan_ion_frames(body, gs.subrange(0, k as int)) == Ok::<Seq<IonFrame>, Fault>(
                ion_frames(frames@),
            ),
        decreases found@.len() - k,
    {
        let group: Group = found[k];
        let ghost before = frames@;
        proof {
            assert(gs.len() == found@.len());
            assert(gs[k as int] == (group.start as int, group.end as int, group.stray));
            assert(gs.subrange(0, k + 1).drop_last() =~= gs.subrange(0, k as int));
            assert(gs.subrange(0, k + 1).last() == gs[k as int]);
            assert(from + group.end <= lines.len());
        }
        let block = slice_subrange(lines.as_slice(), from + group.start, from + group.end);
        assert(texts(block@) =~= body.subrange(group.start as int, group.end as int));
        match block_ion_frame(block, group.stray) {
            Err(error) => {
                proof {
                    lemma_scan_stops(body, gs, k + 1);
                }
                return Err(error);
            },
            Ok(Some(frame)) => {
                frames.push(frame);
                assert(ion_frames(frames@) =~= ion_frames(before).push(frame@));
            },
            Ok(None) => {},
        }
        k = k + 1;
    }
    assert(gs.subrange(0, k as int) =~= gs);
    Ok(frames)
}

/// A frame that cannot be read stops the scan.
proof fn lemma_scan_stops(body: Seq<Seq<u8>>, gs: Seq<(int, int, bool)>, k: int)
    requires
        0 <= k <= gs.len(),
        scan_ion_frames(body, gs.subrange(0, k)) is Err,
    ensures
        scan_ion_frames(body, gs) == scan_ion_frames(body, gs.subrange(0, k)),
    decreases gs.len() - k,
{
    if k == gs.len() {
        assert(gs.subrange(0, k) =~= gs);
    } else {
        assert(gs.subrange(0, k + 1).drop_last() =~= gs.subrange(0, k));
        lemma_scan_stops(body, gs, k + 1);
    }
}

/// The ionosphere coefficients a text states: those of its header and its RINEX 4 ionosphere
/// frames, each set being the one transmitted latest; a malformed header row or frame is an error.
pub open spec fn iono_corrections_of(b: Seq<u8>) -> Result<IonoCorrections, Fault> {
    let lines = plain_lines(b);
    match header_of(lines, false) {
        Err(fault) => Err(fault),
        Ok((header, start, issues)) => match first_issue(issues, HeaderField::Ionosphere) {
            Some(fault) => Err(fault),
            None => {
                let body = lines.subrange(start, lines.len() as int);
                match scan_ion_frames(body, groups(body, 4)) {
                    Err(fault) => Err(fault),
                    Ok(frames) => Ok(effect_of(header.iono, in_transmission_order(frames), None)),
                }
            },
        },
    }
}

/// Parse the broadcast ionosphere coefficients from a RINEX header's `IONOSPHERIC CORR` (version 2
/// `ION ALPHA`/`ION BETA`) records and the RINEX 4 body `> ION` frames: each header set is
/// replaced by the frame of its system and model transmitted latest.
///
/// A complete header label pair or body frame yields the coefficient set; a missing label or frame
/// yields `None` for that system. A malformed header row or body frame is an error.
pub fn parse_iono_corrections(text: &str) -> (r: Result<IonoCorrections, NavParseError>)
    ensures
        match r {
            Ok(iono) => iono_corrections_of(utf8(text@)) == Ok::<IonoCorrections, Fault>(iono),
            Err(e) => iono_corrections_of(utf8(text@)) == Err::<IonoCorrections, Fault>(e@),
        },
{
    let lines = text_lines(text);
    let read = scan_header(&lines);
    if let Some(error) = find_issue(&read.issues, HeaderField::Ionosphere) {
        return Err(error);
    }
    match body_ionosphere_frames(&lines, read.body_start) {
        Err(e) => Err(e),
        Ok(frames) => {
            let frames = sort_by_transmission(frames);
            Ok(ionosphere_in_effect(read.header.iono, &frames, None))
        },
    }
}

} // verus!

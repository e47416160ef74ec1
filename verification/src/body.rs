//! Reading a navigation file into its header and body entries.
//!
//! The body is split into blocks before any block is decoded, so one block that cannot be read
//! never moves another's boundaries: a RINEX 4 block runs from its frame marker to the next
//! marker, a RINEX 2/3 block from its record-start line to the next record-start line. Every line
//! of the file belongs to the header or to exactly one entry, which keeps its text.

use vstd::prelude::*;
use vstd::slice::slice_subrange;

use crate::cnav::{cnav_record, parse_cnav_block};
use crate::error::{bad_field, faults, Fault, NavParseError};
use crate::fields::Layout;
use crate::frames::{
    ion_frame, offset_frame, orientation_frame, parse_eop_frame, parse_ion_frame, parse_sto_frame,
    EarthOrientation, IonFrame, IonosphereFrame, OffsetFrame, OrientationFrame, SystemTimeOffset,
};
use crate::geo::{parse_sbas_block, sbas_record};
use crate::glonass::{glonass_record, parse_glonass_block};
use crate::id::{satellite_of_token, GnssSatelliteId, GnssSystem};
use crate::keplerian::{keplerian_record, parse_keplerian_block};
use crate::marker::{
    block_satellite, eph_marker, frame_marker, frame_type, frame_type_of, frame_words,
    is_record_start, is_v2_numeric_record_start, is_v4_frame_marker, letter, marker_fault,
    message_of_token, nav_block_satellite, nav_message_from_v4_token, parse_v4_eph_marker,
    parse_v4_marker, record_start, satellites_match, system_of_token, token_system, tokens_match,
    v2_file_system, v2_numeric_satellite, v2_record_start, v2_satellite, v2_system,
    validate_v4_ephemeris_marker, EphMarker, V4MarkerHeader,
};
use crate::record::{BroadcastRecord, GlonassRecord, NavVersion, SbasRecord};
use crate::text::{
    no_text, opt_utf8, own, same, slice, slice_of, split_lf, split_newlines, strings, texts, trim,
    trim_of, utf8,
};

verus! {

/// What part of the format an entry is.
#[derive(Debug, Clone, Copy, PartialEq, Eq, Structural)]
pub enum NavEntryKind {
    /// A navigation record: a RINEX 2/3 record, or a RINEX 4 `> EPH` frame (and a frame whose
    /// type is not recognized).
    Ephemeris,
    /// A RINEX 4 `> STO` frame.
    SystemTimeOffset,
    /// A RINEX 4 `> EOP` frame.
    EarthOrientation,
    /// A RINEX 4 `> ION` frame.
    Ionosphere,
    /// Body lines that belong to no record or frame (before the first record, for instance).
    Stray,
}

/// What an entry holds.
#[derive(Debug, Clone, PartialEq, Eq)]
pub enum NavItem {
    /// A Keplerian record (GPS, QZSS, Galileo, BeiDou, NavIC).
    Ephemeris(BroadcastRecord),
    /// A GLONASS FDMA record.
    Glonass(GlonassRecord),
    /// An SBAS record.
    Sbas(SbasRecord),
    /// A RINEX 4 system time offset frame.
    SystemTimeOffset(SystemTimeOffset),
    /// A RINEX 4 Earth orientation frame.
    EarthOrientation(EarthOrientation),
    /// A RINEX 4 ionosphere frame.
    Ionosphere(IonosphereFrame),
    /// A block that is not decoded; the entry's text holds it.
    Undecoded(UndecodedBlock),
}

/// A block kept as text only.
#[derive(Debug, Clone, PartialEq, Eq)]
pub struct UndecodedBlock {
    /// Satellite token of the block, as read; empty for stray lines.
    pub satellite: String,
    /// The RINEX 4 message token, where the block has one.
    pub message_token: Option<String>,
    /// Why the block is not decoded.
    pub reason: UndecodedReason,
}

/// Why a block is kept as text only.
#[derive(Debug, Clone, PartialEq, Eq)]
pub enum UndecodedReason {
    /// A message that is recognized and not decoded (BeiDou CNAV-1/2/3, NavIC L1, GLONASS and
    /// SBAS messages other than `FDMA` and `SBAS`).
    NotDecoded,
    /// The block could not be read.
    Malformed(NavParseError),
    /// Body lines that belong to no record or frame.
    Stray,
}

/// One block of a navigation file's body, with its text.
#[derive(Debug, Clone, PartialEq, Eq)]
pub struct NavEntry {
    /// 1-based line number of the entry's first line (the frame marker in RINEX 4).
    pub line: usize,
    /// What part of the format the entry is.
    pub kind: NavEntryKind,
    /// The system of the entry's satellite, where its letter names one.
    pub system: Option<GnssSystem>,
    /// What the entry holds.
    pub item: NavItem,
    /// Departures from the format the reader read through in this entry.
    pub departures: Vec<NavParseError>,
    /// The entry's lines as read (line terminators removed, the frame marker included); empty for
    /// an entry built in code. The writer restates them when they still read as [`Self::item`].
    pub text: Vec<String>,
}

/// Why a block is kept as text only, the error by what it states.
pub ghost enum Reason {
    /// A message that is not decoded.
    NotDecoded,
    /// The block could not be read.
    Malformed(Fault),
    /// The lines belong to no record or frame.
    Stray,
}

/// What a [`NavItem`] states.
pub ghost enum Content {
    /// A Keplerian record.
    Ephemeris(BroadcastRecord),
    /// A GLONASS record.
    Glonass(GlonassRecord),
    /// An SBAS record.
    Sbas(SbasRecord),
    /// A system time offset frame.
    Offset(OffsetFrame),
    /// An Earth orientation frame.
    Orientation(OrientationFrame),
    /// An ionosphere frame.
    Ion(IonFrame),
    /// A block kept as text: its satellite token, its message token, and why.
    Kept(Seq<u8>, Option<Seq<u8>>, Reason),
}

/// What a block decodes to.
pub ghost struct Block {
    /// What part of the format it is.
    pub kind: NavEntryKind,
    /// The system of its satellite.
    pub system: Option<GnssSystem>,
    /// What it holds.
    pub content: Content,
    /// The departures read through.
    pub departures: Seq<Fault>,
}

/// What a [`NavEntry`] states.
pub ghost struct Entry {
    /// 1-based line number of the first line.
    pub line: int,
    /// What the block decodes to.
    pub block: Block,
    /// The lines.
    pub text: Seq<Seq<u8>>,
}

impl View for UndecodedReason {
    type V = Reason;

    open spec fn view(&self) -> Reason {
        match *self {
            UndecodedReason::NotDecoded => Reason::NotDecoded,
            UndecodedReason::Malformed(e) => Reason::Malformed(e@),
            UndecodedReason::Stray => Reason::Stray,
        }
    }
}

impl View for NavItem {
    type V = Content;

    open spec fn view(&self) -> Content {
        match *self {
            NavItem::Ephemeris(r) => Content::Ephemeris(r),
            NavItem::Glonass(r) => Content::Glonass(r),
            NavItem::Sbas(r) => Content::Sbas(r),
            NavItem::SystemTimeOffset(f) => Content::Offset(f@),
            NavItem::EarthOrientation(f) => Content::Orientation(f@),
            NavItem::Ionosphere(f) => Content::Ion(f@),
            NavItem::Undecoded(b) => Content::Kept(
                utf8(b.satellite@),
                opt_utf8(b.message_token),
                b.reason@,
            ),
        }
    }
}

impl NavEntry {
    /// What the entry's block decodes to.
    pub open spec fn block(self) -> Block {
        Block {
            kind: self.kind,
            system: self.system,
            content: self.item@,
            departures: faults(self.departures@),
        }
    }
}

impl View for NavEntry {
    type V = Entry;

    open spec fn view(&self) -> Entry {
        Entry { line: self.line as int, block: self.block(), text: strings(self.text@) }
    }
}

/// What entries state.
pub open spec fn entries_view(entries: Seq<NavEntry>) -> Seq<Entry> {
    entries.map_values(|entry: NavEntry| entry@)
}

/// The kind and the system of an entry that holds `content`.
pub open spec fn content_kind(content: Content) -> (NavEntryKind, Option<GnssSystem>) {
    match content {
        Content::Ephemeris(r) => (NavEntryKind::Ephemeris, Some(r.satellite_id.system)),
        Content::Glonass(r) => (NavEntryKind::Ephemeris, Some(r.satellite_id.system)),
        Content::Sbas(r) => (NavEntryKind::Ephemeris, Some(r.satellite_id.system)),
        Content::Offset(f) => (NavEntryKind::SystemTimeOffset, Some(f.satellite_id.system)),
        Content::Orientation(f) => (NavEntryKind::EarthOrientation, Some(f.satellite_id.system)),
        Content::Ion(f) => (NavEntryKind::Ionosphere, Some(f.satellite_id.system)),
        Content::Kept(..) => (NavEntryKind::Stray, None),
    }
}

impl NavEntry {
    /// An entry built in code, which the writer formats from `item`.
    pub fn new(item: NavItem) -> (r: NavEntry)
        ensures
            r.item == item,
            r.line == 0,
            (r.kind, r.system) == content_kind(item@),
            r.departures@.len() == 0,
            r.text@.len() == 0,
    {
        let (kind, system): (NavEntryKind, Option<GnssSystem>) = match &item {
            NavItem::Ephemeris(record) => (
                NavEntryKind::Ephemeris,
                Some(record.satellite_id.system),
            ),
            NavItem::Glonass(record) => (NavEntryKind::Ephemeris, Some(record.satellite_id.system)),
            NavItem::Sbas(record) => (NavEntryKind::Ephemeris, Some(record.satellite_id.system)),
            NavItem::SystemTimeOffset(frame) => (
                NavEntryKind::SystemTimeOffset,
                Some(frame.satellite_id.system),
            ),
            NavItem::EarthOrientation(frame) => (
                NavEntryKind::EarthOrientation,
                Some(frame.satellite_id.system),
            ),
            NavItem::Ionosphere(frame) => (
                NavEntryKind::Ionosphere,
                Some(frame.satellite_id.system),
            ),
            NavItem::Undecoded(_) => (NavEntryKind::Stray, None),
        };
        NavEntry { line: 0, kind, system, item, departures: Vec::new(), text: Vec::new() }
    }
}

/// Whether a line starts a block: RINEX 4 at frame markers, RINEX 2/3 at record starts.
pub open spec fn starts_block(line: Seq<u8>, major: u8) -> bool {
    if major == 4 {
        frame_marker(line)
    } else if major == 3 {
        record_start(line)
    } else {
        v2_record_start(line) || record_start(line)
    }
}

/// Whether a line starts a block (see [`starts_block`]).
fn is_block_start(line: &str, major: u8) -> (r: bool)
    ensures
        r == starts_block(utf8(line@), major),
{
    match major {
        4 => is_v4_frame_marker(line),
        3 => is_record_start(line),
        _ => is_v2_numeric_record_start(line) || is_record_start(line),
    }
}

/// The lines of a block, as indices into the body.
#[derive(Debug, Clone, Copy, PartialEq, Eq, Structural)]
pub struct Group {
    /// The first line.
    pub start: usize,
    /// The line after the last.
    pub end: usize,
    /// Whether the lines belong to no block.
    pub stray: bool,
}

/// The blocks of a body: each line that starts a block starts one, any other line belongs to the
/// block before it, and lines before the first block form a stray group.
pub open spec fn groups(body: Seq<Seq<u8>>, major: u8) -> Seq<(int, int, bool)>
    decreases body.len(),
{
    if body.len() == 0 {
        Seq::empty()
    } else {
        let before = groups(body.drop_last(), major);
        let i = body.len() - 1;
        if starts_block(body.last(), major) {
            before.push((i, i + 1, false))
        } else if before.len() > 0 {
            before.drop_last().push((before.last().0, i + 1, before.last().2))
        } else {
            before.push((i, i + 1, true))
        }
    }
}

/// What groups state.
pub open spec fn group_views(groups: Seq<Group>) -> Seq<(int, int, bool)> {
    groups.map_values(|g: Group| (g.start as int, g.end as int, g.stray))
}

/// The blocks of a body are its lines in order: the first starts with the first line, each starts
/// where the one before it ends, and the last ends with the last line, so every line belongs to
/// exactly one.
pub proof fn law_groups_partition(body: Seq<Seq<u8>>, major: u8)
    ensures
        body.len() == 0 <==> groups(body, major).len() == 0,
        body.len() > 0 ==> groups(body, major)[0].0 == 0 && groups(body, major).last().1
            == body.len(),
        forall|k: int|
            0 <= k < groups(body, major).len() ==> 0 <= (#[trigger] groups(body, major)[k]).0
                < groups(body, major)[k].1 <= body.len(),
        forall|j: int, k: int|
            0 <= j && k == j + 1 && k < groups(body, major).len() ==> (#[trigger] groups(
                body,
                major,
            )[j]).1 == (#[trigger] groups(body, major)[k]).0,
    decreases body.len(),
{
    if body.len() > 0 {
        let head = body.drop_last();
        let before = groups(head, major);
        let all = groups(body, major);
        law_groups_partition(head, major);
        assert(all.len() >= 1);
        if before.len() > 0 {
            assert(before.last() == before[before.len() - 1]);
        }
    }
}

/// A block that is not stray starts with a line that starts one, no other line of a block does,
/// and only the first block can be stray.
pub proof fn law_groups_start(body: Seq<Seq<u8>>, major: u8, k: int)
    requires
        0 <= k < groups(body, major).len(),
    ensures
        0 <= groups(body, major)[k].0 < groups(body, major)[k].1 <= body.len(),
        groups(body, major)[k].2 ==> k == 0,
        groups(body, major)[k].2 == !starts_block(body[groups(body, major)[k].0], major),
        forall|i: int|
            groups(body, major)[k].0 < i < groups(body, major)[k].1 ==> !starts_block(
                #[trigger] body[i],
                major,
            ),
    decreases body.len(),
{
    let head = body.drop_last();
    let before = groups(head, major);
    let all = groups(body, major);
    if k < before.len() {
        law_groups_start(head, major, k);
        assert(head[before[k].0] == body[before[k].0]);
        assert forall|i: int| all[k].0 < i < all[k].1 implies !starts_block(
            #[trigger] body[i],
            major,
        ) by {
            if i < head.len() {
                assert(head[i] == body[i]);
                if i >= before[k].1 {
                    assert(k == before.len() - 1);
                    law_groups_partition(head, major);
                }
            }
        }
    } else {
        law_groups_partition(head, major);
    }
}

/// Groups moved by a number of lines.
pub open spec fn moved_groups(gs: Seq<(int, int, bool)>, by: int) -> Seq<(int, int, bool)> {
    gs.map_values(|g: (int, int, bool)| (g.0 + by, g.1 + by, g.2))
}

/// No block moves another's boundaries: where a line starts a block, the blocks from there on are
/// those of the lines from there on, whatever the lines before hold.
pub proof fn law_groups_independent(before: Seq<Seq<u8>>, rest: Seq<Seq<u8>>, major: u8)
    requires
        rest.len() > 0 ==> starts_block(rest[0], major),
    ensures
        groups(before + rest, major) == groups(before, major) + moved_groups(
            groups(rest, major),
            before.len() as int,
        ),
    decreases rest.len(),
{
    let n = before.len() as int;
    let all = before + rest;
    if rest.len() == 0 {
        assert(all =~= before);
        assert(groups(before, major) + moved_groups(groups(rest, major), n) =~= groups(
            before,
            major,
        ));
    } else {
        let head = rest.drop_last();
        assert(all.drop_last() =~= before + head);
        assert(all.last() == rest.last());
        if head.len() == 0 {
            assert(before + head =~= before);
            assert(rest.last() == rest[0]);
            assert(groups(head, major) =~= Seq::empty());
            assert(groups(all, major) =~= groups(before, major) + moved_groups(
                groups(rest, major),
                n,
            ));
        } else {
            law_groups_independent(before, head, major);
            law_groups_partition(head, major);
            let a = groups(before, major);
            let b = groups(head, major);
            let moved = moved_groups(b, n);
            assert((a + moved).last() == moved.last());
            assert((a + moved).drop_last() =~= a + moved.drop_last());
            assert(groups(all, major) =~= a + moved_groups(groups(rest, major), n));
        }
    }
}

/// Split the body into blocks (see [`groups`]).
pub fn group_body(body: &Vec<&str>, from: usize, major: u8) -> (r: Vec<Group>)
    requires
        from <= body@.len(),
    ensures
        group_views(r@) == groups(
            texts(body@).subrange(from as int, body@.len() as int),
            major,
        ),
        forall|k: int|
            0 <= k < r@.len() ==> (#[trigger] r@[k]).start < r@[k].end <= body@.len() - from,
{
    let ghost all = texts(body@).subrange(from as int, body@.len() as int);
    let mut out: Vec<Group> = Vec::new();
    let mut i: usize = 0;
    let count: usize = body.len() - from;
    assert(group_views(out@) =~= groups(all.subrange(0, 0), major));
    while i < count
        invariant
            all == texts(body@).subrange(from as int, body@.len() as int),
            from <= body@.len(),
            count == body@.len() - from,
            i <= count,
            group_views(out@) == groups(all.subrange(0, i as int), major),
            forall|k: int| 0 <= k < out@.len() ==> (#[trigger] out@[k]).start < out@[k].end <= i,
        decreases count - i,
    {
        let ghost before = out@;
        proof {
            assert(all.subrange(0, i + 1).drop_last() =~= all.subrange(0, i as int));
            assert(all.subrange(0, i + 1).last() == utf8(body@[from + i]@));
            assert(group_views(before).len() == before.len());
            assert(from + i < body.len());
        }
        if is_block_start(body[from + i], major) {
            out.push(Group { start: i, end: i + 1, stray: false });
            assert(group_views(out@) =~= group_views(before).push((i as int, i + 1, false)));
        } else if out.len() > 0 {
            let last: usize = out.len() - 1;
            let g = out[last];
            out.set(last, Group { start: g.start, end: i + 1, stray: g.stray });
            assert(group_views(before).last() == (g.start as int, g.end as int, g.stray));
            assert(group_views(out@) =~= group_views(before).drop_last().push(
                (g.start as int, i + 1, g.stray),
            ));
        } else {
            out.push(Group { start: i, end: i + 1, stray: true });
            assert(group_views(out@) =~= group_views(before).push((i as int, i + 1, true)));
        }
        i = i + 1;
    }
    assert(all.subrange(0, i as int) =~= all);
    out
}

/// A block that could not be read.
pub open spec fn unread(
    kind: NavEntryKind,
    system: Option<GnssSystem>,
    satellite: Seq<u8>,
    token: Option<Seq<u8>>,
    fault: Fault,
) -> Block {
    Block {
        kind,
        system,
        content: Content::Kept(satellite, token, Reason::Malformed(fault)),
        departures: Seq::empty(),
    }
}

/// A block whose message is not decoded.
pub open spec fn undecoded(
    kind: NavEntryKind,
    system: Option<GnssSystem>,
    satellite: Seq<u8>,
    token: Seq<u8>,
) -> Block {
    Block {
        kind,
        system,
        content: Content::Kept(satellite, Some(token), Reason::NotDecoded),
        departures: Seq::empty(),
    }
}

/// A record block that decoded.
pub open spec fn decoded_block(system: GnssSystem, content: Content, departures: Seq<Fault>) -> Block {
    Block { kind: NavEntryKind::Ephemeris, system: Some(system), content, departures }
}

/// The record block of a satellite whose system decides how its lines are read.
pub open spec fn record_block(
    lines: Seq<Seq<u8>>,
    satellite_id: GnssSatelliteId,
    sat: Seq<u8>,
    version: NavVersion,
    layout: Layout,
) -> Block {
    let system = satellite_id.system;
    let failed = |fault: Fault|
        unread(NavEntryKind::Ephemeris, Some(system), sat, None, fault);
    match system {
        GnssSystem::Glonass => match glonass_record(lines, satellite_id, sat, version, layout) {
            Ok((record, departures)) => decoded_block(system, Content::Glonass(record), departures),
            Err(fault) => failed(fault),
        },
        GnssSystem::Sbas => match sbas_record(lines, satellite_id, sat, layout) {
            Ok((record, departures)) => decoded_block(system, Content::Sbas(record), departures),
            Err(fault) => failed(fault),
        },
        _ => match keplerian_record(lines, satellite_id, sat, None, version, layout) {
            Ok((record, departures)) => decoded_block(
                system,
                Content::Ephemeris(record),
                departures,
            ),
            Err(fault) => failed(fault),
        },
    }
}

/// The first line of a block; empty for a block of no lines.
pub open spec fn first_line(block: Seq<Seq<u8>>) -> Seq<u8> {
    if block.len() == 0 {
        Seq::empty()
    } else {
        block[0]
    }
}

/// What a RINEX 2 or 3 record decodes to: one that starts with a letter names its satellite with
/// a token, any other by its number and the file type.
pub open spec fn v2_v3_block(block: Seq<Seq<u8>>, version: NavVersion, file_type: char) -> Block {
    let line = first_line(block);
    let kind = NavEntryKind::Ephemeris;
    if line.len() > 0 && letter(line[0]) {
        let sat = trim_of(slice_of(line, 0, 3));
        let layout = if version.major == 2 {
            Layout::V2Lettered
        } else {
            Layout::V3
        };
        match crate::id::system_of_letter(line[0]) {
            None => unread(kind, None, sat, None, bad_field(sat, "system")),
            Some(system) => match satellite_of_token(sat) {
                None => unread(kind, Some(system), sat, None, bad_field(sat, "prn")),
                Some(id) => record_block(block, id, sat, version, layout),
            },
        }
    } else {
        let sat = trim_of(slice_of(line, 0, 2));
        match v2_satellite(sat, file_type) {
            None => unread(kind, Some(v2_system(file_type)), sat, None, bad_field(sat, "prn")),
            Some(id) => record_block(block, id, sat, version, Layout::V2),
        }
    }
}

/// What the body of an ephemeris frame decodes to, given what its marker names: the messages that
/// are decoded as records, then GLONASS `FDMA` and SBAS `SBAS`; BeiDou `CNV1`, `CNV2` and `CNV3`,
/// NavIC `L1NV` and any other GLONASS or SBAS message are not decoded; anything else is malformed.
pub open spec fn eph_block(
    body: Seq<Seq<u8>>,
    sv: Seq<u8>,
    token: Seq<u8>,
    system: GnssSystem,
    satellite_id: GnssSatelliteId,
    version: NavVersion,
) -> Block {
    let kind = NavEntryKind::Ephemeris;
    let failed = |fault: Fault| unread(kind, Some(system), sv, Some(token), fault);
    match message_of_token(token, system) {
        Some(message) => match marker_fault(sv, message, body) {
            Some(fault) => failed(fault),
            None => {
                let read = if message.cnav_family() {
                    cnav_record(body, satellite_id, sv, message)
                } else {
                    keplerian_record(body, satellite_id, sv, Some(message), version, Layout::V3)
                };
                match read {
                    Ok((record, departures)) => decoded_block(
                        system,
                        Content::Ephemeris(record),
                        departures,
                    ),
                    Err(fault) => failed(fault),
                }
            },
        },
        None => if system == GnssSystem::Glonass && token == utf8("FDMA"@) {
            match glonass_record(body, satellite_id, sv, version, Layout::V3) {
                Ok((record, departures)) => decoded_block(
                    system,
                    Content::Glonass(record),
                    departures,
                ),
                Err(fault) => failed(fault),
            }
        } else if system == GnssSystem::Sbas && token == utf8("SBAS"@) {
            match sbas_record(body, satellite_id, sv, Layout::V3) {
                Ok((record, departures)) => decoded_block(
                    system,
                    Content::Sbas(record),
                    departures,
                ),
                Err(fault) => failed(fault),
            }
        } else if token_not_decoded(system, token) {
            undecoded(kind, Some(system), sv, token)
        } else {
            failed(bad_field(sv, "message"))
        },
    }
}

/// Whether a message of a system is recognized and not decoded.
pub open spec fn token_not_decoded(system: GnssSystem, token: Seq<u8>) -> bool {
    match system {
        GnssSystem::BeiDou => token == utf8("CNV1"@) || token == utf8("CNV2"@) || token == utf8(
            "CNV3"@,
        ),
        GnssSystem::Navic => token == utf8("L1NV"@),
        GnssSystem::Glonass | GnssSystem::Sbas => true,
        _ => false,
    }
}

/// What an ephemeris frame decodes to.
pub open spec fn eph_frame(marker: Seq<u8>, body: Seq<Seq<u8>>, version: NavVersion) -> Block {
    let kind = NavEntryKind::Ephemeris;
    let sat = block_satellite(body);
    match eph_marker(marker, sat) {
        Ok(EphMarker::Other) => unread(kind, None, sat, None, bad_field(sat, "frame marker")),
        Err(fault) => match fault {
            Fault::BadField(named, field) => unread(
                kind,
                token_system(named),
                named,
                None,
                fault,
            ),
            _ => unread(kind, token_system(sat), sat, None, fault),
        },
        Ok(EphMarker::Eph(sv, token)) => match token_system(sv) {
            None => unread(kind, None, sv, Some(token), bad_field(sv, "system")),
            Some(system) => match satellite_of_token(sv) {
                None => unread(kind, Some(system), sv, Some(token), bad_field(sv, "prn")),
                Some(id) => if sat.len() > 0 && !tokens_match(sv, sat) {
                    unread(kind, Some(system), sv, Some(token), bad_field(sv, "frame marker"))
                } else {
                    eph_block(body, sv, token, system, id, version)
                },
            },
        },
    }
}

/// The kind of a data frame.
pub open spec fn data_kind(frame: Seq<u8>) -> NavEntryKind {
    if frame == utf8("STO"@) {
        NavEntryKind::SystemTimeOffset
    } else if frame == utf8("EOP"@) {
        NavEntryKind::EarthOrientation
    } else {
        NavEntryKind::Ionosphere
    }
}

/// What the body of a data frame decodes to.
pub open spec fn data_block(
    kind: NavEntryKind,
    body: Seq<Seq<u8>>,
    sv: Seq<u8>,
    token: Seq<u8>,
    satellite_id: GnssSatelliteId,
) -> Block {
    let system = token_system(sv);
    let failed = |fault: Fault| unread(kind, system, sv, Some(token), fault);
    match kind {
        NavEntryKind::SystemTimeOffset => match offset_frame(body, satellite_id, sv, token) {
            Ok((frame, departures)) => Block {
                kind,
                system,
                content: Content::Offset(frame),
                departures,
            },
            Err(fault) => failed(fault),
        },
        NavEntryKind::EarthOrientation => match orientation_frame(body, satellite_id, sv, token) {
            Ok((frame, departures)) => Block {
                kind,
                system,
                content: Content::Orientation(frame),
                departures,
            },
            Err(fault) => failed(fault),
        },
        _ => match ion_frame(body, satellite_id, sv, token) {
            Ok(Some((frame, departures))) => Block {
                kind,
                system,
                content: Content::Ion(frame),
                departures,
            },
            Ok(None) => undecoded(kind, system, sv, token),
            Err(fault) => failed(fault),
        },
    }
}

/// What a system time offset, Earth orientation or ionosphere frame decodes to.
pub open spec fn data_frame(frame: Seq<u8>, marker: Seq<u8>, body: Seq<Seq<u8>>) -> Block {
    let kind = data_kind(frame);
    match frame_words(marker) {
        None => {
            let sat = block_satellite(body);
            unread(kind, None, sat, None, bad_field(sat, "frame marker"))
        },
        Some((_, sv, token)) => match satellite_of_token(sv) {
            None => unread(kind, token_system(sv), sv, Some(token), bad_field(sv, "prn")),
            Some(id) => data_block(kind, body, sv, token, id),
        },
    }
}

/// The lines of a frame after its marker.
pub open spec fn frame_body(block: Seq<Seq<u8>>) -> Seq<Seq<u8>> {
    if block.len() == 0 {
        block
    } else {
        block.subrange(1, block.len() as int)
    }
}

/// What a RINEX 4 frame decodes to.
pub open spec fn v4_block(block: Seq<Seq<u8>>, version: NavVersion) -> Block {
    let marker = first_line(block);
    let frame = frame_type_of(marker);
    if frame == utf8("STO"@) || frame == utf8("EOP"@) || frame == utf8("ION"@) {
        data_frame(frame, marker, frame_body(block))
    } else {
        eph_frame(marker, frame_body(block), version)
    }
}

/// What a block (not stray) of a file decodes to.
#[verifier::opaque]
pub open spec fn block_of(block: Seq<Seq<u8>>, version: NavVersion, file_type: char) -> Block {
    if version.major >= 4 {
        v4_block(block, version)
    } else {
        v2_v3_block(block, version, file_type)
    }
}

/// Lines that belong to no block.
pub open spec fn stray_block() -> Block {
    Block {
        kind: NavEntryKind::Stray,
        system: None,
        content: Content::Kept(Seq::empty(), None, Reason::Stray),
        departures: Seq::empty(),
    }
}

/// An entry without its place in the file.
fn entry(
    kind: NavEntryKind,
    system: Option<GnssSystem>,
    item: NavItem,
    departures: Vec<NavParseError>,
) -> (r: NavEntry)
    ensures
        r.block() == (Block { kind, system, content: item@, departures: faults(departures@) }),
{
    NavEntry { line: 0, kind, system, item, departures, text: Vec::new() }
}

/// An entry for a block that could not be read (see [`unread`]).
fn malformed(
    kind: NavEntryKind,
    system: Option<GnssSystem>,
    satellite: &str,
    message_token: Option<&str>,
    error: NavParseError,
) -> (r: NavEntry)
    ensures
        r.block() == unread(
            kind,
            system,
            utf8(satellite@),
            match message_token {
                Some(t) => Some(utf8(t@)),
                None => None,
            },
            error@,
        ),
{
    let departures: Vec<NavParseError> = Vec::new();
    assert(faults(departures@) =~= Seq::empty());
    entry(
        kind,
        system,
        NavItem::Undecoded(
            UndecodedBlock {
                satellite: own(satellite),
                message_token: match message_token {
                    Some(t) => Some(own(t)),
                    None => None,
                },
                reason: UndecodedReason::Malformed(error),
            },
        ),
        departures,
    )
}

/// An entry for a block whose message is not decoded (see [`undecoded`]).
fn not_decoded(
    kind: NavEntryKind,
    system: Option<GnssSystem>,
    satellite: &str,
    message_token: &str,
) -> (r: NavEntry)
    ensures
        r.block() == undecoded(kind, system, utf8(satellite@), utf8(message_token@)),
{
    let departures: Vec<NavParseError> = Vec::new();
    assert(faults(departures@) =~= Seq::empty());
    entry(
        kind,
        system,
        NavItem::Undecoded(
            UndecodedBlock {
                satellite: own(satellite),
                message_token: Some(own(message_token)),
                reason: UndecodedReason::NotDecoded,
            },
        ),
        departures,
    )
}

/// Decode the record of a satellite (see [`record_block`]).
fn decode_record(
    block: &[&str],
    satellite_id: GnssSatelliteId,
    sat: &str,
    version: NavVersion,
    layout: Layout,
) -> (r: NavEntry)
    ensures
        r.block() == record_block(texts(block@), satellite_id, utf8(sat@), version, layout),
{
    let kind = NavEntryKind::Ephemeris;
    let system = satellite_id.system;
    match system {
        GnssSystem::Glonass => match parse_glonass_block(block, satellite_id, sat, version, layout) {
            Ok(decoded) => entry(
                kind,
                Some(system),
                NavItem::Glonass(decoded.value),
                decoded.departures,
            ),
            Err(error) => malformed(kind, Some(system), sat, None, error),
        },
        GnssSystem::Sbas => match parse_sbas_block(block, satellite_id, sat, layout) {
            Ok(decoded) => entry(
                kind,
                Some(system),
                NavItem::Sbas(decoded.value),
                decoded.departures,
            ),
            Err(error) => malformed(kind, Some(system), sat, None, error),
        },
        _ => match parse_keplerian_block(block, satellite_id, sat, None, version, layout) {
            Ok(decoded) => entry(
                kind,
                Some(system),
                NavItem::Ephemeris(decoded.value),
                decoded.departures,
            ),
            Err(error) => malformed(kind, Some(system), sat, None, error),
        },
    }
}

/// Decode a RINEX 2 or 3 record (see [`v2_v3_block`]).
pub fn decode_v2_v3_record(block: &[&str], version: NavVersion, file_type: char) -> (r: NavEntry)
    ensures
        r.block() == v2_v3_block(texts(block@), version, file_type),
{
    let kind = NavEntryKind::Ephemeris;
    let l0 = if block.len() == 0 {
        no_text()
    } else {
        block[0]
    };
    assert(utf8(l0@) == first_line(texts(block@)));
    let b = l0.as_bytes();
    if b.len() > 0 && ((65 <= b[0] && b[0] <= 90) || (97 <= b[0] && b[0] <= 122)) {
        let sat = trim(slice(l0, 0, 3));
        let layout = if version.major == 2 {
            Layout::V2Lettered
        } else {
            Layout::V3
        };
        let system = match GnssSystem::from_letter(b[0]) {
            Some(system) => system,
            None => {
                return malformed(kind, None, sat, None, NavParseError::bad(sat, "system"));
            },
        };
        match GnssSatelliteId::parse(sat) {
            Some(id) => decode_record(block, id, sat, version, layout),
            None => malformed(kind, Some(system), sat, None, NavParseError::bad(sat, "prn")),
        }
    } else {
        let sat = trim(slice(l0, 0, 2));
        match v2_numeric_satellite(sat, file_type) {
            Some(id) => decode_record(block, id, sat, version, Layout::V2),
            None => malformed(
                kind,
                Some(v2_file_system(file_type)),
                sat,
                None,
                NavParseError::bad(sat, "prn"),
            ),
        }
    }
}

/// Whether a message of a system is recognized and not decoded (see [`token_not_decoded`]).
fn is_not_decoded(system: GnssSystem, token: &str) -> (r: bool)
    ensures
        r == token_not_decoded(system, utf8(token@)),
{
    match system {
        GnssSystem::BeiDou => same(token, "CNV1") || same(token, "CNV2") || same(token, "CNV3"),
        GnssSystem::Navic => same(token, "L1NV"),
        GnssSystem::Glonass | GnssSystem::Sbas => true,
        _ => false,
    }
}

/// Decode the body of an ephemeris frame (see [`eph_block`]).
fn decode_eph_body(
    body: &[&str],
    sv: &str,
    msg_token: &str,
    system: GnssSystem,
    satellite_id: GnssSatelliteId,
    version: NavVersion,
) -> (r: NavEntry)
    ensures
        r.block() == eph_block(
            texts(body@),
            utf8(sv@),
            utf8(msg_token@),
            system,
            satellite_id,
            version,
        ),
{
    let kind = NavEntryKind::Ephemeris;
    if let Some(message) = nav_message_from_v4_token(msg_token, system) {
        if let Err(error) = validate_v4_ephemeris_marker(sv, message, body) {
            return malformed(kind, Some(system), sv, Some(msg_token), error);
        }
        let decoded = if message.is_cnav_family() {
            parse_cnav_block(body, satellite_id, sv, message)
        } else {
            parse_keplerian_block(body, satellite_id, sv, Some(message), version, Layout::V3)
        };
        return match decoded {
            Ok(decoded) => entry(
                kind,
                Some(system),
                NavItem::Ephemeris(decoded.value),
                decoded.departures,
            ),
            Err(error) => malformed(kind, Some(system), sv, Some(msg_token), error),
        };
    }
    if system == GnssSystem::Glonass && same(msg_token, "FDMA") {
        match parse_glonass_block(body, satellite_id, sv, version, Layout::V3) {
            Ok(decoded) => entry(
                kind,
                Some(system),
                NavItem::Glonass(decoded.value),
                decoded.departures,
            ),
            Err(error) => malformed(kind, Some(system), sv, Some(msg_token), error),
        }
    } else if system == GnssSystem::Sbas && same(msg_token, "SBAS") {
        match parse_sbas_block(body, satellite_id, sv, Layout::V3) {
            Ok(decoded) => entry(
                kind,
                Some(system),
                NavItem::Sbas(decoded.value),
                decoded.departures,
            ),
            Err(error) => malformed(kind, Some(system), sv, Some(msg_token), error),
        }
    } else if is_not_decoded(system, msg_token) {
        not_decoded(kind, Some(system), sv, msg_token)
    } else {
        malformed(
            kind,
            Some(system),
            sv,
            Some(msg_token),
            NavParseError::bad(sv, "message"),
        )
    }
}

/// Decode an ephemeris frame (see [`eph_frame`]).
pub fn decode_v4_eph_frame(marker: &str, body: &[&str], version: NavVersion) -> (r: NavEntry)
    ensures
        r.block() == eph_frame(utf8(marker@), texts(body@), version),
{
    let kind = NavEntryKind::Ephemeris;
    let body_sv = nav_block_satellite(body);
    let (sv, msg_token): (&str, &str) = match parse_v4_eph_marker(marker, body) {
        Ok(V4MarkerHeader::Eph { sv, msg_token }) => (sv, msg_token),
        // Frames of the other types are routed before this point.
        Ok(V4MarkerHeader::RecognizedNonEph) => {
            return malformed(
                kind,
                None,
                body_sv,
                None,
                NavParseError::bad(body_sv, "frame marker"),
            );
        },
        Err(error) => {
            let satellite = match &error {
                NavParseError::BadField { satellite, field: _ } => own(satellite.as_str()),
                _ => own(body_sv),
            };
            let system = system_of_token(satellite.as_str());
            return malformed(kind, system, satellite.as_str(), None, error);
        },
    };
    let system = match system_of_token(sv) {
        Some(system) => system,
        None => {
            return malformed(
                kind,
                None,
                sv,
                Some(msg_token),
                NavParseError::bad(sv, "system"),
            );
        },
    };
    let satellite_id = match GnssSatelliteId::parse(sv) {
        Some(id) => id,
        None => {
            return malformed(
                kind,
                Some(system),
                sv,
                Some(msg_token),
                NavParseError::bad(sv, "prn"),
            );
        },
    };
    if body_sv.as_bytes().len() > 0 && !satellites_match(sv, body_sv) {
        return malformed(
            kind,
            Some(system),
            sv,
            Some(msg_token),
            NavParseError::bad(sv, "frame marker"),
        );
    }
    decode_eph_body(body, sv, msg_token, system, satellite_id, version)
}

/// Decode a system time offset, Earth orientation or ionosphere frame (see [`data_frame`]).
pub fn decode_v4_data_frame(frame_type: &str, marker: &str, body: &[&str]) -> (r: NavEntry)
    ensures
        r.block() == data_frame(utf8(frame_type@), utf8(marker@), texts(body@)),
{
    let kind = if same(frame_type, "STO") {
        NavEntryKind::SystemTimeOffset
    } else if same(frame_type, "EOP") {
        NavEntryKind::EarthOrientation
    } else {
        NavEntryKind::Ionosphere
    };
    let (sv, msg_token): (&str, &str) = match parse_v4_marker(marker) {
        Some((_, sv, msg_token)) => (sv, msg_token),
        None => {
            let sat = nav_block_satellite(body);
            return malformed(kind, None, sat, None, NavParseError::bad(sat, "frame marker"));
        },
    };
    let system = system_of_token(sv);
    let satellite_id = match GnssSatelliteId::parse(sv) {
        Some(id) => id,
        None => {
            return malformed(
                kind,
                system,
                sv,
                Some(msg_token),
                NavParseError::bad(sv, "prn"),
            );
        },
    };
    match kind {
        NavEntryKind::SystemTimeOffset => match parse_sto_frame(body, satellite_id, sv, msg_token) {
            Ok(d) => entry(kind, system, NavItem::SystemTimeOffset(d.value), d.departures),
            Err(error) => malformed(kind, system, sv, Some(msg_token), error),
        },
        NavEntryKind::EarthOrientation => match parse_eop_frame(body, satellite_id, sv, msg_token) {
            Ok(d) => entry(kind, system, NavItem::EarthOrientation(d.value), d.departures),
            Err(error) => malformed(kind, system, sv, Some(msg_token), error),
        },
        _ => match parse_ion_frame(body, satellite_id, sv, msg_token) {
            Ok(Some(d)) => entry(kind, system, NavItem::Ionosphere(d.value), d.departures),
            Ok(None) => not_decoded(kind, system, sv, msg_token),
            Err(error) => malformed(kind, system, sv, Some(msg_token), error),
        },
    }
}

/// Decode a RINEX 4 frame (see [`v4_block`]).
pub fn decode_v4_frame(block: &[&str], version: NavVersion) -> (r: NavEntry)
    ensures
        r.block() == v4_block(texts(block@), version),
{
    let marker = if block.len() == 0 {
        no_text()
    } else {
        block[0]
    };
    let body = if block.len() == 0 {
        block
    } else {
        slice_subrange(block, 1, block.len())
    };
    assert(utf8(marker@) == first_line(texts(block@)));
    assert(texts(body@) =~= frame_body(texts(block@)));
    let frame = frame_type(marker);
    if same(frame, "STO") || same(frame, "EOP") || same(frame, "ION") {
        decode_v4_data_frame(frame, marker, body)
    } else {
        decode_v4_eph_frame(marker, body, version)
    }
}

/// Decode one block (not stray) of a file of `version` and `file_type`. The block's line numbers
/// and text are set by the caller.
pub fn decode_block(block: &[&str], version: NavVersion, file_type: char) -> (r: NavEntry)
    ensures
        r.block() == block_of(texts(block@), version, file_type),
{
    reveal(block_of);
    if version.major >= 4 {
        decode_v4_frame(block, version)
    } else {
        decode_v2_v3_record(block, version, file_type)
    }
}

/// A line without the `CR` at its end.
pub open spec fn without_cr(line: Seq<u8>) -> Seq<u8> {
    if line.len() > 0 && line.last() == 13 {
        line.drop_last()
    } else {
        line
    }
}

/// A line as the field readers see it: a trailing `CR` removed.
pub fn content<'a>(line: &'a str) -> (r: &'a str)
    ensures
        utf8(r@) == without_cr(utf8(line@)),
{
    let b = line.as_bytes();
    if b.len() > 0 && b[b.len() - 1] == 13 {
        proof {
            crate::text::lemma_ascii_boundary(line@, b@.len() - 1);
            assert(b@.subrange(0, b@.len() - 1) =~= b@.drop_last());
        }
        slice(line, 0, b.len() - 1)
    } else {
        line
    }
}

/// Lines as the field readers see them.
pub open spec fn contents(lines: Seq<Seq<u8>>) -> Seq<Seq<u8>> {
    lines.map_values(|line: Seq<u8>| without_cr(line))
}

/// Lines as the field readers see them.
pub fn contents_of<'a>(lines: &Vec<&'a str>) -> (r: Vec<&'a str>)
    ensures
        texts(r@) == contents(texts(lines@)),
{
    let mut out: Vec<&'a str> = Vec::new();
    let mut i: usize = 0;
    while i < lines.len()
        invariant
            i <= lines@.len(),
            out@.len() == i,
            forall|k: int|
                0 <= k < i ==> utf8((#[trigger] out@[k])@) == without_cr(utf8(lines@[k]@)),
        decreases lines@.len() - i,
    {
        out.push(content(lines[i]));
        i = i + 1;
    }
    assert(texts(out@) =~= contents(texts(lines@)));
    out
}

/// A text's lines, whether they end in `CR LF`, and whether the last line ends.
pub ghost struct Lines {
    /// The lines.
    pub lines: Seq<Seq<u8>>,
    /// Whether every line that ends, ends in `CR LF`.
    pub crlf: bool,
    /// Whether the last line ends.
    pub final_newline: bool,
}

/// The first `n` lines end in `CR`, and at least one does.
pub open spec fn ended_in_cr(raw: Seq<Seq<u8>>, n: int) -> bool {
    n > 0 && forall|i: int| 0 <= i < n ==> (#[trigger] raw[i]).len() > 0 && raw[i].last() == 13
}

/// The lines of a text with the `CR` of the first `n` removed.
pub open spec fn strip_first(raw: Seq<Seq<u8>>, n: int) -> Seq<Seq<u8>> {
    Seq::new(
        raw.len(),
        |i: int|
            if i < n {
                raw[i].drop_last()
            } else {
                raw[i]
            },
    )
}

/// The lines of a text, noting whether every terminated line ends in `CR LF` and whether the last
/// line is terminated. Where the endings are uniformly `CR LF` the `CR`s are removed; otherwise
/// any `CR` stays in its line's text.
pub open spec fn lines_of(b: Seq<u8>) -> Lines {
    if b.len() == 0 {
        Lines { lines: Seq::empty(), crlf: false, final_newline: false }
    } else {
        let ended = b.last() == 10;
        let pieces = split_lf(b);
        let raw = if ended {
            pieces.drop_last()
        } else {
            pieces
        };
        let n = if ended {
            raw.len() as int
        } else {
            raw.len() - 1
        };
        Lines {
            lines: if ended_in_cr(raw, n) {
                strip_first(raw, n)
            } else {
                raw
            },
            crlf: ended_in_cr(raw, n),
            final_newline: ended,
        }
    }
}

/// Split `text` into lines (see [`lines_of`]).
pub fn split_lines<'a>(text: &'a str) -> (r: (Vec<&'a str>, bool, bool))
    ensures
        lines_of(utf8(text@)) == (Lines { lines: texts(r.0@), crlf: r.1, final_newline: r.2 }),
{
    let b = text.as_bytes();
    if b.len() == 0 {
        let none: Vec<&'a str> = Vec::new();
        assert(texts(none@) =~= Seq::empty());
        return (none, false, false);
    }
    let final_newline: bool = b[b.len() - 1] == 10;
    let mut raw = split_newlines(text);
    let ghost pieces = texts(raw@);
    if final_newline {
        raw.pop();
        assert(texts(raw@) =~= pieces.drop_last());
    }
    let terminated: usize = if final_newline {
        raw.len()
    } else {
        raw.len() - 1
    };
    let ghost all = texts(raw@);
    let mut crlf: bool = terminated > 0;
    let mut i: usize = 0;
    while i < terminated && crlf
        invariant
            all == texts(raw@),
            i <= terminated <= raw@.len(),
            crlf ==> terminated > 0 && forall|k: int|
                0 <= k < i ==> (#[trigger] all[k]).len() > 0 && all[k].last() == 13,
            !crlf ==> !ended_in_cr(all, terminated as int),
        decreases terminated - i + (if crlf {
            1int
        } else {
            0
        }),
    {
        let line = raw[i].as_bytes();
        assert(all[i as int] == line@);
        if line.len() == 0 || line[line.len() - 1] != 13 {
            crlf = false;
            assert(!((all[i as int]).len() > 0 && all[i as int].last() == 13));
        } else {
            i = i + 1;
        }
    }
    assert(crlf == ended_in_cr(all, terminated as int));
    if !crlf {
        return (raw, false, final_newline);
    }
    let mut lines: Vec<&'a str> = Vec::new();
    let mut j: usize = 0;
    while j < raw.len()
        invariant
            all == texts(raw@),
            terminated <= raw@.len(),
            ended_in_cr(all, terminated as int),
            j <= raw@.len(),
            lines@.len() == j,
            forall|k: int|
                0 <= k < j ==> utf8((#[trigger] lines@[k])@) == strip_first(
                    all,
                    terminated as int,
                )[k],
        decreases raw@.len() - j,
    {
        assert(all[j as int] == utf8(raw@[j as int]@));
        if j < terminated {
            lines.push(content(raw[j]));
        } else {
            lines.push(raw[j]);
        }
        j = j + 1;
    }
    assert(texts(lines@) =~= strip_first(all, terminated as int));
    (lines, true, final_newline)
}

} // verus!

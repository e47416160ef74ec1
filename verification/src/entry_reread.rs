//! Entries built in code of what was read are written as blocks that read back.

use vstd::prelude::*;

use crate::body::{
    block_of, data_block, data_frame, data_kind, decoded_block, eph_block, first_line, frame_body,
    starts_block, v4_block, Block, Content, Entry, NavEntryKind,
};
use crate::error::Fault;
use crate::fields::Layout;
use crate::frame_reread::{
    indented, ion_body, law_ionosphere_reads_back, law_offset_reads_back,
    law_orientation_reads_back, plain_label,
};
use crate::frames::{
    ion_frame, offset_frame, orientation_frame, IonFrame, OffsetFrame, OrientationFrame,
};
use crate::id::{token_of_satellite, GnssSatelliteId, GnssSystem};
use crate::lines::{
    glonass_lines_of, ion_lines_of, marker_text, offset_lines, orientation_lines, sbas_lines_of,
    RecordColumns,
};
use crate::marker::{frame_marker, frame_type_of, frame_words, marker_word, marker_words};
use crate::record::{BroadcastRecord, GlonassRecord, NavVersion, SbasRecord};
use crate::reread::{lemma_token, printable, record_shape};
use crate::restate::{
    entry_reads_back, lemma_marker_reads, lemma_message_tokens, lemma_one_word, lemma_v3_block,
    word, writes_back,
};
use crate::state_reread::{
    law_glonass_reads_back, law_sbas_reads_back, restatable_glonass, restatable_sbas, short_values,
};
use crate::text::{lemma_utf8_ascii, skip_space, spaces, utf8, word_spans};
use crate::write::{entry_lines, entry_restated, entry_written, record_entry};

verus! {

/// An entry built in code.
pub open spec fn built_entry(block: Block) -> Entry {
    Entry { line: 0, block, text: Seq::empty() }
}

/// What is written of an entry built in code is formatted from its fields.
proof fn lemma_built_written(block: Block, version: NavVersion, file_type: char)
    ensures
        entry_written(built_entry(block), version, file_type) == entry_lines(
            built_entry(block),
            version,
            file_type,
        ),
{
    reveal(entry_written);
    reveal(entry_restated);
}

/// A frame of an ephemeris marker and the lines of a record is one block.
proof fn lemma_frame_of(lines: Seq<Seq<u8>>, sat: GnssSatelliteId, t: Seq<u8>)
    requires
        record_shape(lines, sat),
        sat.wf(),
        word(t),
    ensures
        ({
            let block = seq![marker_text(utf8("> EPH "@), sat, t)] + lines;
            &&& forall|k: int| 0 <= k < block.len() ==> printable(#[trigger] block[k])
            &&& starts_block(block[0], 4)
            &&& forall|k: int| 1 <= k < block.len() ==> !starts_block(#[trigger] block[k], 4)
            &&& frame_body(block) == lines
            &&& first_line(block) == marker_text(utf8("> EPH "@), sat, t)
        }),
{
    lemma_marker_reads(sat, t, token_of_satellite(sat));
    lemma_v3_block(lines, sat);
    let block = seq![marker_text(utf8("> EPH "@), sat, t)] + lines;
    assert(frame_body(block) =~= lines);
    assert forall|k: int| 0 <= k < block.len() implies printable(#[trigger] block[k]) by {
        if k > 0 {
            assert(block[k] == lines[k - 1]);
        }
    }
    assert forall|k: int| 1 <= k < block.len() implies !starts_block(#[trigger] block[k], 4) by {
        assert(block[k] == lines[k - 1]);
        if k > 1 {
            assert(lines[k - 1][0] == 32);
        }
    }
}

/// The tokens of state-vector messages.
proof fn lemma_state_tokens()
    ensures
        word(utf8("FDMA"@)),
        word(utf8("SBAS"@)),
{
    reveal_strlit("FDMA");
    reveal_strlit("SBAS");
    lemma_utf8_ascii("FDMA"@);
    lemma_utf8_ascii("SBAS"@);
}

/// A GLONASS record that was read is written, in RINEX 3 and in RINEX 4, as a block that reads back.
#[verifier::spinoff_prover]
#[verifier::rlimit(40)]
pub proof fn law_glonass_writes_back(
    lines: Seq<Seq<u8>>,
    layout: Layout,
    version0: NavVersion,
    version: NavVersion,
    sat: GnssSatelliteId,
    token: Seq<u8>,
    record: GlonassRecord,
)
    requires
        3 <= version.major <= 4,
        sat.system == GnssSystem::Glonass,
        restatable_glonass(lines, layout, version0, version, sat, token, record),
    ensures
        entry_reads_back(
            built_entry(decoded_block(sat.system, Content::Glonass(record), Seq::empty())),
            version,
            'N',
        ),
{
    reveal(block_of);
    reveal(entry_lines);
    let whole = decoded_block(sat.system, Content::Glonass(record), Seq::empty());
    lemma_built_written(whole, version, 'N');
    let own = token_of_satellite(sat);
    law_glonass_reads_back(lines, layout, version0, version, sat, token, record, own);
    let written = glonass_lines_of(record, version, RecordColumns::V3);
    lemma_v3_block(written, sat);
    if version.major == 4 {
        let t = utf8("FDMA"@);
        lemma_state_tokens();
        lemma_message_tokens();
        lemma_marker_reads(sat, t, own);
        lemma_frame_of(written, sat, t);
        assert(eph_block(written, own, t, sat.system, sat, version) == whole);
    }
}

/// An SBAS record that was read is written, in RINEX 3 and in RINEX 4, as a block that reads back.
#[verifier::spinoff_prover]
#[verifier::rlimit(40)]
pub proof fn law_sbas_writes_back(
    lines: Seq<Seq<u8>>,
    layout: Layout,
    version: NavVersion,
    sat: GnssSatelliteId,
    token: Seq<u8>,
    record: SbasRecord,
)
    requires
        3 <= version.major <= 4,
        sat.system == GnssSystem::Sbas,
        restatable_sbas(lines, layout, sat, token, record),
    ensures
        entry_reads_back(
            built_entry(decoded_block(sat.system, Content::Sbas(record), Seq::empty())),
            version,
            'N',
        ),
{
    reveal(block_of);
    reveal(entry_lines);
    let whole = decoded_block(sat.system, Content::Sbas(record), Seq::empty());
    lemma_built_written(whole, version, 'N');
    let own = token_of_satellite(sat);
    law_sbas_reads_back(lines, layout, sat, token, record, own);
    let written = sbas_lines_of(record, RecordColumns::V3);
    lemma_v3_block(written, sat);
    if version.major == 4 {
        let t = utf8("SBAS"@);
        lemma_state_tokens();
        lemma_message_tokens();
        lemma_marker_reads(sat, t, own);
        lemma_frame_of(written, sat, t);
        assert(eph_block(written, own, t, sat.system, sat, version) == whole);
    }
}

/// A Keplerian record that is written as a block that reads back is an entry that does.
pub proof fn law_record_entry_reads_back(record: BroadcastRecord, version: NavVersion)
    requires
        writes_back(record, version),
    ensures
        entry_reads_back(record_entry(record), version, 'N'),
{
    reveal(entry_written);
    reveal(entry_restated);
    reveal(entry_lines);
}

/// The prefixes of data frame markers.
pub proof fn lemma_data_prefixes()
    ensures
        utf8("> STO "@) == seq![62u8, 32u8, 83u8, 84u8, 79u8, 32u8],
        utf8("> EOP "@) == seq![62u8, 32u8, 69u8, 79u8, 80u8, 32u8],
        utf8("> ION "@) == seq![62u8, 32u8, 73u8, 79u8, 78u8, 32u8],
{
    reveal_strlit("> STO ");
    reveal_strlit("> EOP ");
    reveal_strlit("> ION ");
    lemma_utf8_ascii("> STO "@);
    lemma_utf8_ascii("> EOP "@);
    lemma_utf8_ascii("> ION "@);
    assert(utf8("> STO "@) =~= seq![62u8, 32u8, 83u8, 84u8, 79u8, 32u8]);
    assert(utf8("> EOP "@) =~= seq![62u8, 32u8, 69u8, 79u8, 80u8, 32u8]);
    assert(utf8("> ION "@) =~= seq![62u8, 32u8, 73u8, 79u8, 78u8, 32u8]);
}

/// The marker of a data frame is read back.
#[verifier::spinoff_prover]
#[verifier::rlimit(40)]
pub proof fn lemma_data_marker(kind: Seq<u8>, prefix: Seq<u8>, sat: GnssSatelliteId, t: Seq<u8>)
    requires
        sat.wf(),
        word(t),
        kind.len() == 3,
        word(kind),
        prefix == seq![62u8, 32u8, kind[0], kind[1], kind[2], 32u8],
    ensures
        ({
            let marker = marker_text(prefix, sat, t);
            &&& printable(marker)
            &&& frame_marker(marker)
            &&& frame_type_of(marker) == kind
            &&& frame_words(marker) == Some((kind, token_of_satellite(sat), t))
        }),
{
    lemma_token(sat);
    let own = token_of_satellite(sat);
    let marker = marker_text(prefix, sat, t);
    let n = marker.len() as int;
    assert(marker =~= prefix + own + spaces(1) + t);
    assert forall|i: int| 0 <= i < n implies 32 <= (#[trigger] marker[i]) < 0x80 by {
        if 2 <= i < 5 {
            assert(marker[i] == kind[i - 2]);
        } else if 6 <= i < 9 {
            assert(marker[i] == own[i - 6]);
        } else if 10 <= i {
            assert(marker[i] == t[i - 10]);
        }
    }
    assert forall|k: int| 2 <= k < 5 implies marker[k] != 32 by {
        assert(marker[k] == kind[k - 2]);
    }
    assert forall|k: int| 6 <= k < 9 implies marker[k] != 32 by {
        assert(marker[k] == own[k - 6]);
    }
    assert forall|k: int| 10 <= k < n implies marker[k] != 32 by {
        assert(marker[k] == t[k - 10]);
    }
    lemma_one_word(marker, 1, 2, 5);
    lemma_one_word(marker, 5, 6, 9);
    lemma_one_word(marker, 9, 10, n);
    assert(word_spans(marker, n) =~= Seq::empty()) by {
        assert(skip_space(marker, n) == n);
    }
    let spans = word_spans(marker, 1);
    assert(spans =~= seq![(2int, 5int), (6int, 9int), (10int, n)]);
    assert(marker.subrange(2, 5) =~= kind);
    assert(marker.subrange(6, 9) =~= own);
    assert(marker.subrange(10, n) =~= t);
    assert(marker_words(marker) == 3);
    assert(marker_word(marker, 0) == kind);
    assert(marker_word(marker, 1) == own);
    assert(marker_word(marker, 2) == t);
}

/// A data frame is one block, which decodes by its kind.
#[verifier::spinoff_prover]
#[verifier::rlimit(40)]
proof fn lemma_data_frame(
    kind: NavEntryKind,
    name: Seq<u8>,
    prefix: Seq<u8>,
    block: Seq<Seq<u8>>,
    sat: GnssSatelliteId,
    t: Seq<u8>,
    version: NavVersion,
    file_type: char,
)
    requires
        version.major == 4,
        sat.wf(),
        word(t),
        block.len() > 1,
        block[0] == marker_text(prefix, sat, t),
        indented(block.skip(1)),
        kind == NavEntryKind::SystemTimeOffset && name == utf8("STO"@) && prefix == utf8("> STO "@)
            || kind == NavEntryKind::EarthOrientation && name == utf8("EOP"@) && prefix == utf8(
            "> EOP "@,
        ) || kind == NavEntryKind::Ionosphere && name == utf8("ION"@) && prefix == utf8("> ION "@),
    ensures
        forall|k: int| 0 <= k < block.len() ==> printable(#[trigger] block[k]),
        starts_block(block[0], 4),
        forall|k: int| 1 <= k < block.len() ==> !starts_block(#[trigger] block[k], 4),
        block_of(block, version, file_type) == data_block(
            kind,
            block.skip(1),
            token_of_satellite(sat),
            t,
            sat,
        ),
{
    lemma_data_prefixes();
    lemma_message_tokens();
    lemma_data_marker(name, prefix, sat, t);
    let rest = block.skip(1);
    assert forall|k: int| 0 <= k < block.len() implies printable(#[trigger] block[k]) by {
        if k > 0 {
            assert(block[k] == rest[k - 1]);
        }
    }
    assert forall|k: int| 1 <= k < block.len() implies !starts_block(#[trigger] block[k], 4) by {
        assert(block[k] == rest[k - 1]);
    }
    lemma_data_decodes(kind, name, block, sat, t, version, file_type);
}

/// A data frame decodes by its kind.
#[verifier::spinoff_prover]
#[verifier::rlimit(40)]
proof fn lemma_data_decodes(
    kind: NavEntryKind,
    name: Seq<u8>,
    block: Seq<Seq<u8>>,
    sat: GnssSatelliteId,
    t: Seq<u8>,
    version: NavVersion,
    file_type: char,
)
    requires
        version.major == 4,
        sat.wf(),
        block.len() > 1,
        frame_type_of(block[0]) == name,
        frame_words(block[0]) == Some((name, token_of_satellite(sat), t)),
        name == utf8("STO"@) || name == utf8("EOP"@) || name == utf8("ION"@),
        kind == data_kind(name),
    ensures
        block_of(block, version, file_type) == data_block(
            kind,
            block.skip(1),
            token_of_satellite(sat),
            t,
            sat,
        ),
{
    lemma_token(sat);
    assert(frame_body(block) =~= block.skip(1));
    assert(first_line(block) == block[0]);
    assert(data_frame(name, block[0], block.skip(1)) == data_block(
        kind,
        block.skip(1),
        token_of_satellite(sat),
        t,
        sat,
    ));
    assert(v4_block(block, version) == data_frame(name, block[0], block.skip(1)));
    reveal(block_of);
}

/// The block of a data frame without a departure.
pub open spec fn frame_block(kind: NavEntryKind, system: GnssSystem, content: Content) -> Block {
    Block { kind, system: Some(system), content, departures: Seq::empty() }
}

/// A system time offset frame that was read is written as a block that reads back.
pub proof fn law_offset_writes_back(
    body: Seq<Seq<u8>>,
    sat: GnssSatelliteId,
    name: Seq<u8>,
    token: Seq<u8>,
    frame: OffsetFrame,
    version: NavVersion,
)
    requires
        version.major == 4,
        sat.wf(),
        word(token),
        offset_frame(body, sat, name, token) == Ok::<(OffsetFrame, Seq<Fault>), Fault>(
            (frame, Seq::empty()),
        ),
        short_values(body, Layout::V3, 7),
        frame.epoch.year >= 0,
        printable(frame.code),
        plain_label(frame.sbas_id),
        plain_label(frame.utc_id),
    ensures
        entry_reads_back(
            built_entry(
                frame_block(
                    NavEntryKind::SystemTimeOffset,
                    sat.system,
                    Content::Offset(frame),
                ),
            ),
            version,
            'N',
        ),
{
    reveal(entry_lines);
    let kind = NavEntryKind::SystemTimeOffset;
    let own = token_of_satellite(sat);
    lemma_built_written(frame_block(kind, sat.system, Content::Offset(frame)), version, 'N');
    law_offset_reads_back(body, sat, name, token, frame, own);
    let block = offset_lines(frame);
    lemma_data_frame(kind, utf8("STO"@), utf8("> STO "@), block, sat, token, version, 'N');
    lemma_token(sat);
}

/// An Earth orientation frame that was read is written as a block that reads back.
pub proof fn law_orientation_writes_back(
    body: Seq<Seq<u8>>,
    sat: GnssSatelliteId,
    name: Seq<u8>,
    token: Seq<u8>,
    frame: OrientationFrame,
    version: NavVersion,
)
    requires
        version.major == 4,
        sat.wf(),
        word(token),
        orientation_frame(body, sat, name, token) == Ok::<(OrientationFrame, Seq<Fault>), Fault>(
            (frame, Seq::empty()),
        ),
        short_values(body, Layout::V3, 11),
        frame.epoch.year >= 0,
    ensures
        entry_reads_back(
            built_entry(
                frame_block(
                    NavEntryKind::EarthOrientation,
                    sat.system,
                    Content::Orientation(frame),
                ),
            ),
            version,
            'N',
        ),
{
    reveal(entry_lines);
    let kind = NavEntryKind::EarthOrientation;
    let own = token_of_satellite(sat);
    lemma_built_written(frame_block(kind, sat.system, Content::Orientation(frame)), version, 'N');
    law_orientation_reads_back(body, sat, name, token, frame, own);
    let block = orientation_lines(frame);
    lemma_data_frame(kind, utf8("EOP"@), utf8("> EOP "@), block, sat, token, version, 'N');
    lemma_token(sat);
}

/// An ionosphere frame that was read is written as a block that reads back.
pub proof fn law_ionosphere_writes_back(
    body: Seq<Seq<u8>>,
    sat: GnssSatelliteId,
    name: Seq<u8>,
    token: Seq<u8>,
    frame: IonFrame,
    version: NavVersion,
)
    requires
        version.major == 4,
        sat.wf(),
        word(token),
        ion_frame(body, sat, name, token) == Ok::<Option<(IonFrame, Seq<Fault>)>, Fault>(
            Some((frame, Seq::empty())),
        ),
        short_values(body, Layout::V3, 9),
        frame.epoch.year >= 0,
    ensures
        entry_reads_back(
            built_entry(
                frame_block(NavEntryKind::Ionosphere, sat.system, Content::Ion(frame)),
            ),
            version,
            'N',
        ),
{
    reveal(entry_lines);
    let kind = NavEntryKind::Ionosphere;
    let own = token_of_satellite(sat);
    lemma_built_written(frame_block(kind, sat.system, Content::Ion(frame)), version, 'N');
    law_ionosphere_reads_back(body, sat, name, token, frame, own);
    let block = ion_lines_of(frame);
    assert(block.skip(1) == ion_body(frame));
    lemma_data_frame(kind, utf8("ION"@), utf8("> ION "@), block, sat, token, version, 'N');
    lemma_token(sat);
}

} // verus!

//! A set of records written as a file reads back as the same records.

use vstd::prelude::*;

use crate::body::{
    block_of, contents, decoded_block, ended_in_cr, eph_block, first_line, frame_body, groups,
    law_groups_start, lines_of, record_block, starts_block, v2_v3_block, without_cr, Content, Entry,
    NavEntryKind,
};
use crate::cnav::cnav_record;
use crate::cnav_reread::{law_cnav_reads_back, restatable_cnav};
use crate::decimal::{
    digits_text, integer_text, lemma_digit_run, lemma_natural_bound, pow10, sign_byte,
};
use crate::error::Fault;
use crate::fields::{
    int_columns, record_epoch, scale_of, value_at, week_and_tow, CivilSecondPolicy, Layout,
};
use crate::file::{
    entry_fault, file_of, first_fault, group_entry, keplerian_of, keplerian_system,
    law_block_content_fits, lemma_no_fault, File, StrictScope,
};
use crate::format::{
    char_count, chars_end, int_text, labelled, left, right, starts_char, truncated, zero_filled,
};
use crate::header::{
    empty_scan, header_of, label_bytes, label_of, point_at, scan_lines, scanned, version_line,
    version_of, Header, Label, Program, Scan,
};
use crate::id::{
    satellite_of_token, system_of_letter, token_of_satellite, GnssSatelliteId, GnssSystem,
};
use crate::instant::{clock_civil, written};
use crate::keplerian::{clock_time, keplerian_departures, keplerian_message, keplerian_record};
use crate::lines::{cnav_lines_of, keplerian_lines, marker_text, RecordColumns};
use crate::marker::{
    all_digits, block_satellite, eph_marker, frame_marker, frame_type_of, letter, marker_fault,
    marker_satellite, marker_word, marker_words, message_matches, message_of_token, v2_satellite,
    EphMarker,
};
use crate::record::{BroadcastRecord, NavMessage, NavVersion};
use crate::reread::{
    fit_means_same, inked, law_keplerian_reads_back, lemma_ascii_columns, lemma_clock_date,
    lemma_integer_seconds, lemma_read_clock, lemma_skip_blanks, lemma_token, lemma_trim_left,
    printable, record_shape, restatable, short_fields,
};
use crate::text::{
    columns, lemma_drop_space, lemma_skip_space, lemma_split_lf, lemma_utf8_ascii, skip_space,
    slice_of, space_at, space_before, spaces, split_lf, trim_end_of, trim_of, utf8, word_end,
    word_spans,
};
use crate::time::{seconds_of, GnssWeekTow, Seconds, TimeScale};
use crate::write::{
    any_cnav, body_written, entry_lines, entry_restated, entry_written, ephemeris_lines,
    header_lines, header_restated, joined, lemma_entry_restated, lemma_header_restated,
    lines_written, mark_or_empty, program_text, record_entry, records_file, row_lines, rows_written,
    token_of_message, type_text, version_number, version_text,
};

verus! {

/// A text without a line feed stays on the last line it is appended to.
proof fn lemma_split_append(x: Seq<u8>, line: Seq<u8>)
    requires
        forall|i: int| 0 <= i < line.len() ==> line[i] != 10,
    ensures
        split_lf(x + line) == split_lf(x).drop_last().push(split_lf(x).last() + line),
        split_lf(x).len() >= 1,
    decreases line.len(),
{
    lemma_split_lf(x);
    if line.len() == 0 {
        assert(x + line =~= x);
        assert(split_lf(x).last() + line =~= split_lf(x).last());
        assert(split_lf(x).drop_last().push(split_lf(x).last()) =~= split_lf(x));
    } else {
        let rest = line.drop_last();
        lemma_split_append(x, rest);
        let all = x + line;
        assert(all.drop_last() =~= x + rest);
        assert(all.last() == line.last());
        let head = split_lf(x + rest);
        assert(head.last() == split_lf(x).last() + rest);
        assert((split_lf(x).last() + rest).push(line.last()) =~= split_lf(x).last() + line);
        assert(head.drop_last() =~= split_lf(x).drop_last());
    }
}

/// Lines joined with line feeds are split again.
proof fn lemma_split_joined(lines: Seq<Seq<u8>>)
    requires
        forall|k: int| 0 <= k < lines.len() ==> printable(#[trigger] lines[k]),
    ensures
        split_lf(joined(lines, false, true)) == lines.push(Seq::empty()),
    decreases lines.len(),
{
    if lines.len() == 0 {
        assert(joined(lines, false, true) =~= Seq::empty());
        assert(split_lf(Seq::empty()) =~= seq![Seq::<u8>::empty()]);
    } else {
        let head = lines.drop_last();
        let line = lines.last();
        assert(printable(lines[lines.len() - 1]));
        assert forall|k: int| 0 <= k < head.len() implies printable(#[trigger] head[k]) by {
            assert(head[k] == lines[k]);
        }
        lemma_split_joined(head);
        let x = joined(head, false, true);
        lemma_split_append(x, line);
        let y = x + line;
        assert(split_lf(y) =~= lines) by {
            assert(Seq::<u8>::empty() + line =~= line);
        }
        let z = joined(lines, false, true);
        assert(z =~= y + seq![10u8]);
        assert(z.last() == 10 && z.drop_last() =~= y);
    }
}

/// Lines joined with line feeds are the lines of the text.
proof fn lemma_lines_joined(lines: Seq<Seq<u8>>)
    requires
        lines.len() > 0,
        forall|k: int| 0 <= k < lines.len() ==> printable(#[trigger] lines[k]),
    ensures
        ({
            let l = lines_of(joined(lines, false, true));
            &&& l.lines == lines
            &&& !l.crlf
            &&& l.final_newline
        }),
        contents(lines) == lines,
{
    let b = joined(lines, false, true);
    lemma_split_joined(lines);
    assert(b.len() > 0 && b.last() == 10) by {
        assert(b =~= joined(lines.drop_last(), false, true) + lines.last() + seq![10u8]);
    }
    let pieces = split_lf(b);
    assert(pieces.drop_last() =~= lines);
    assert(printable(lines[0]));
    if ended_in_cr(lines, lines.len() as int) {
        assert(lines[0].len() > 0 && lines[0].last() == 13);
        assert(lines[0][lines[0].len() - 1] >= 32);
    }
    assert forall|k: int| 0 <= k < lines.len() implies without_cr(#[trigger] lines[k])
        == lines[k] by {
        assert(printable(lines[k]));
        if lines[k].len() > 0 {
            assert(lines[k][lines[k].len() - 1] >= 32);
        }
    }
    assert(contents(lines) =~= lines);
}

/// A block appended to a body is its last block.
proof fn lemma_groups_append(body: Seq<Seq<u8>>, block: Seq<Seq<u8>>, n: int, major: u8)
    requires
        1 <= n <= block.len(),
        starts_block(block[0], major),
        forall|k: int| 1 <= k < block.len() ==> !starts_block(#[trigger] block[k], major),
    ensures
        groups(body + block.subrange(0, n), major) == groups(body, major).push(
            (body.len() as int, body.len() + n, false),
        ),
    decreases n,
{
    let all = body + block.subrange(0, n);
    assert(all.last() == block[n - 1]);
    if n == 1 {
        assert(all.drop_last() =~= body);
    } else {
        lemma_groups_append(body, block, n - 1, major);
        assert(all.drop_last() =~= body + block.subrange(0, n - 1));
        assert(!starts_block(block[n - 1], major));
        let before = groups(body + block.subrange(0, n - 1), major);
        assert(before.drop_last() =~= groups(body, major));
    }
}

/// Whether the lines of a block are those of a record: the block starts with its first line and no
/// other, and it reads as the record without a departure.
pub open spec fn block_reads(block: Seq<Seq<u8>>, record: BroadcastRecord, version: NavVersion) -> bool {
    &&& block.len() > 0
    &&& forall|k: int| 0 <= k < block.len() ==> printable(#[trigger] block[k])
    &&& starts_block(block[0], version.major)
    &&& forall|k: int|
        1 <= k < block.len() ==> !starts_block(#[trigger] block[k], version.major)
    &&& block_of(block, version, 'N') == decoded_block(
        record.satellite_id.system,
        Content::Ephemeris(record),
        Seq::empty(),
    )
    &&& keplerian_system(record.satellite_id.system)
}

/// Whether a record is written, in a version, as a block that reads back as the record.
pub open spec fn writes_back(record: BroadcastRecord, version: NavVersion) -> bool {
    ephemeris_lines(record, version, 'N') matches Ok(block) && block_reads(block, record, version)
}

/// Whether an entry is written as one block that reads as what the entry holds.
pub open spec fn entry_reads_back(entry: Entry, version: NavVersion, file_type: char) -> bool {
    entry_written(entry, version, file_type) matches Ok(block) && {
        &&& block.len() > 0
        &&& forall|k: int| 0 <= k < block.len() ==> printable(#[trigger] block[k])
        &&& starts_block(block[0], version.major)
        &&& forall|k: int|
            1 <= k < block.len() ==> !starts_block(#[trigger] block[k], version.major)
        &&& block_of(block, version, file_type) == entry.block
    }
}

/// Entries that are each written as one block are written as lines whose blocks are those.
#[verifier::spinoff_prover]
#[verifier::rlimit(50)]
proof fn lemma_body_of_entries(entries: Seq<Entry>, version: NavVersion, file_type: char)
    requires
        forall|k: int|
            0 <= k < entries.len() ==> entry_reads_back(#[trigger] entries[k], version, file_type),
    ensures
        body_written(entries, version, file_type) matches Ok(body) && {
            let gs = groups(body, version.major);
            &&& forall|k: int| 0 <= k < body.len() ==> printable(#[trigger] body[k])
            &&& gs.len() == entries.len()
            &&& forall|k: int|
                0 <= k < entries.len() ==> 0 <= (#[trigger] gs[k]).0 <= gs[k].1 <= body.len()
                    && !gs[k].2 && body.subrange(gs[k].0, gs[k].1) == entry_written(
                    entries[k],
                    version,
                    file_type,
                )->Ok_0
        },
    decreases entries.len(),
{
    if entries.len() > 0 {
        let front = entries.drop_last();
        assert forall|k: int| 0 <= k < front.len() implies entry_reads_back(
            #[trigger] front[k],
            version,
            file_type,
        ) by {
            assert(front[k] == entries[k]);
        }
        lemma_body_of_entries(front, version, file_type);
        assert(entry_reads_back(entries[entries.len() - 1], version, file_type));
        let before = body_written(front, version, file_type)->Ok_0;
        let block = entry_written(entries.last(), version, file_type)->Ok_0;
        let body = before + block;
        assert(block.subrange(0, block.len() as int) =~= block);
        lemma_groups_append(before, block, block.len() as int, version.major);
        let gs = groups(body, version.major);
        assert forall|k: int| 0 <= k < body.len() implies printable(#[trigger] body[k]) by {
            if k < before.len() {
                assert(body[k] == before[k]);
            } else {
                assert(body[k] == block[k - before.len()]);
            }
        }
        assert forall|k: int| 0 <= k < entries.len() implies 0 <= (#[trigger] gs[k]).0 <= gs[k].1
            <= body.len() && !gs[k].2 && body.subrange(gs[k].0, gs[k].1) == entry_written(
            entries[k],
            version,
            file_type,
        )->Ok_0 by {
            if k < front.len() {
                assert(gs[k] == groups(before, version.major)[k]);
                assert(front[k] == entries[k]);
                assert(body.subrange(gs[k].0, gs[k].1) =~= before.subrange(gs[k].0, gs[k].1));
            } else {
                assert(body.subrange(gs[k].0, gs[k].1) =~= block);
            }
        }
    } else {
        assert(groups(Seq::empty(), version.major) =~= Seq::empty());
    }
}

/// A header that ends reads alike whatever follows it.
proof fn lemma_scan_extends(head: Seq<Seq<u8>>, tail: Seq<Seq<u8>>, from: int, scan: Scan)
    requires
        0 <= from <= head.len(),
    ensures
        scan_lines(head, from, scan, true) matches Ok(read) ==> (read.2 ==> scan_lines(
            head + tail,
            from,
            scan,
            true,
        ) == Ok::<(Scan, int, bool), Fault>(read)),
    decreases head.len() - from,
{
    if from < head.len() {
        assert((head + tail)[from] == head[from]);
        if label_of(head[from]) != Label::End {
            if let Ok(next) = scanned(scan, head[from], from + 1, true) {
                lemma_scan_extends(head, tail, from + 1, next);
            }
        }
    }
}

/// Lines of a header that reads, and of entries that are each written as one block, read as the
/// header and the entries.
#[verifier::spinoff_prover]
#[verifier::rlimit(50)]
pub proof fn lemma_written_reads(head: Seq<Seq<u8>>, entries: Seq<Entry>, h: Header)
    requires
        head.len() > 0,
        forall|k: int| 0 <= k < head.len() ==> printable(#[trigger] head[k]),
        header_of(head, true) matches Ok((read, start, _)) && start == head.len() && read.version
            == h.version && read.file_type == h.file_type,
        forall|k: int|
            0 <= k < entries.len() ==> entry_reads_back(
                #[trigger] entries[k],
                h.version,
                h.file_type,
            ),
    ensures
        body_written(entries, h.version, h.file_type) matches Ok(body) && (file_of(
            joined(head + body, false, true),
        ) matches Ok(again) && again.header == header_of(head, true)->Ok_0.0
            && again.entries.len() == entries.len() && forall|k: int|
            0 <= k < entries.len() ==> (#[trigger] again.entries[k]).block == entries[k].block),
{
    lemma_body_of_entries(entries, h.version, h.file_type);
    let body = body_written(entries, h.version, h.file_type)->Ok_0;
    let lines = head + body;
    assert forall|k: int| 0 <= k < lines.len() implies printable(#[trigger] lines[k]) by {
        if k < head.len() {
            assert(lines[k] == head[k]);
        } else {
            assert(lines[k] == body[k - head.len()]);
        }
    }
    lemma_lines_joined(lines);
    lemma_scan_extends(head, body, 0, empty_scan());
    let again = file_of(joined(lines, false, true))->Ok_0;
    assert(lines.subrange(head.len() as int, lines.len() as int) =~= body);
    let gs = groups(body, h.version.major);
    assert forall|k: int| 0 <= k < entries.len() implies (#[trigger] again.entries[k]).block
        == entries[k].block by {
        let n = head.len() as int;
        assert(again.entries[k] == group_entry(lines, lines, n, gs[k], h.version, h.file_type));
        assert(lines.subrange(n + gs[k].0, n + gs[k].1) =~= body.subrange(gs[k].0, gs[k].1));
        assert(entry_reads_back(entries[k], h.version, h.file_type));
    }
}

/// An entry as it was read from a file, of printable one-byte characters, is written as one block
/// that reads as what it holds, whatever is edited around it.
pub proof fn law_read_entry_reads_back(b: Seq<u8>, k: int)
    requires
        file_of(b) matches Ok(file) && 0 <= k < file.entries.len() && file.entries[k].block.kind
            != NavEntryKind::Stray && forall|i: int|
            0 <= i < file.entries[k].text.len() ==> printable(#[trigger] file.entries[k].text[i]),
    ensures
        ({
            let file = file_of(b)->Ok_0;
            entry_reads_back(file.entries[k], file.header.version, file.header.file_type)
        }),
{
    let file = file_of(b)->Ok_0;
    let raw = lines_of(b).lines;
    let lines = contents(raw);
    let (h, start, issues) = header_of(lines, true)->Ok_0;
    lemma_header_restated(raw);
    lemma_entry_restated(raw, start, h.version, h.file_type, k);
    let body = lines.subrange(start, lines.len() as int);
    law_groups_start(body, h.version.major, k);
    let g = groups(body, h.version.major)[k];
    let entry = file.entries[k];
    assert(entry == group_entry(raw, lines, start, g, h.version, h.file_type));
    let block = lines.subrange(start + g.0, start + g.1);
    assert(entry.text =~= block) by {
        assert forall|i: int| 0 <= i < block.len() implies entry.text[i] == block[i] by {
            assert(printable(entry.text[i]));
            assert(entry.text[i] == raw[start + g.0 + i]);
            assert(block[i] == without_cr(raw[start + g.0 + i]));
        }
    }
    assert(block[0] == body[g.0]);
    assert forall|i: int| 1 <= i < block.len() implies !starts_block(
        #[trigger] block[i],
        h.version.major,
    ) by {
        assert(block[i] == body[g.0 + i]);
    }
}

/// An edited file reads back: where the header still reads from its text and each entry is written,
/// from its text or from its fields, as one block that reads as what it holds, the text written
/// reads as the same header and the same entries, in order. The lines are of printable one-byte
/// characters and end in line feeds.
pub proof fn law_edited_file_reads_back(file: File)
    requires
        header_restated(file.header, file.header_text),
        forall|k: int|
            0 <= k < file.header_text.len() ==> printable(#[trigger] file.header_text[k]),
        forall|k: int|
            0 <= k < file.entries.len() ==> entry_reads_back(
                #[trigger] file.entries[k],
                file.header.version,
                file.header.file_type,
            ),
    ensures
        lines_written(file) matches Ok(lines) && (file_of(joined(lines, false, true)) matches Ok(
            again,
        ) && again.header == file.header && again.entries.len() == file.entries.len() && forall|
            k: int,
        |
            0 <= k < file.entries.len() ==> (#[trigger] again.entries[k]).block
                == file.entries[k].block),
{
    reveal(header_restated);
    lemma_lines_joined(file.header_text);
    lemma_written_reads(file.header_text, file.entries, file.header);
}

/// Entries that each hold a record without a departure are read strictly as the records.
proof fn lemma_read_entries(entries: Seq<Entry>, records: Seq<BroadcastRecord>)
    requires
        entries.len() == records.len(),
        forall|k: int|
            0 <= k < records.len() ==> (#[trigger] entries[k]).block == decoded_block(
                records[k].satellite_id.system,
                Content::Ephemeris(records[k]),
                Seq::empty(),
            ),
    ensures
        first_fault(entries, StrictScope::Keplerian) is None,
        keplerian_of(entries) == records,
    decreases entries.len(),
{
    lemma_no_fault(entries, StrictScope::Keplerian);
    lemma_holds_records(entries, records);
}

/// Entries that each hold a record hold the records.
proof fn lemma_holds_records(entries: Seq<Entry>, records: Seq<BroadcastRecord>)
    requires
        entries.len() == records.len(),
        forall|k: int|
            0 <= k < records.len() ==> (#[trigger] entries[k]).block.content == Content::Ephemeris(
                records[k],
            ),
    ensures
        keplerian_of(entries) == records,
    decreases entries.len(),
{
    if entries.len() > 0 {
        let head = entries.drop_last();
        let front = records.drop_last();
        assert forall|k: int| 0 <= k < front.len() implies (#[trigger] head[k]).block.content
            == Content::Ephemeris(front[k]) by {
            assert(head[k] == entries[k]);
        }
        lemma_holds_records(head, front);
        assert(entries[entries.len() - 1].block.content == Content::Ephemeris(
            records[records.len() - 1],
        ));
        assert(keplerian_of(entries) =~= front.push(records.last()));
    } else {
        assert(keplerian_of(entries) =~= records);
    }
}

/// Each byte of a printable text is a character.
proof fn lemma_printable_chars(b: Seq<u8>)
    requires
        printable(b),
    ensures
        char_count(b) == b.len(),
    decreases b.len(),
{
    if b.len() > 0 {
        assert(b.last() == b[b.len() - 1]);
        assert forall|i: int| 0 <= i < b.drop_last().len() implies 32 <= (
        #[trigger] b.drop_last()[i]) < 0x80 by {
            assert(b.drop_last()[i] == b[i]);
        }
        lemma_printable_chars(b.drop_last());
    }
}

/// The first characters of a printable text are its first bytes.
proof fn lemma_printable_end(b: Seq<u8>, i: int, width: nat)
    requires
        printable(b),
        0 <= i <= b.len(),
    ensures
        chars_end(b, i, width) == (if i + width <= b.len() {
            i + width
        } else {
            b.len() as int
        }),
    decreases b.len() - i,
{
    if i < b.len() {
        assert(starts_char(b[i]));
        if width > 0 {
            lemma_printable_end(b, i + 1, (width - 1) as nat);
        }
    }
}

/// A printable text of at most `width` characters is not cut.
pub proof fn lemma_not_truncated(b: Seq<u8>, width: nat)
    requires
        printable(b),
        b.len() <= width,
    ensures
        truncated(b, width) == b,
{
    lemma_printable_end(b, 0, width);
    lemma_ascii_columns(b, 0, b.len() as int);
    assert(b.subrange(0, b.len() as int) =~= b);
}

/// A printable text at the left of its columns.
pub proof fn lemma_left_printable(b: Seq<u8>, width: nat)
    requires
        printable(b),
        b.len() <= width,
    ensures
        left(b, width).len() == width,
        printable(left(b, width)),
        left(b, width).subrange(0, b.len() as int) == b,
        forall|i: int| b.len() <= i < width ==> #[trigger] left(b, width)[i] == 32,
{
    lemma_printable_chars(b);
    let l = left(b, width);
    assert forall|i: int| 0 <= i < l.len() implies 32 <= (#[trigger] l[i]) < 0x80 by {
        if i < b.len() {
            assert(l[i] == b[i]);
        }
    }
    assert(l.subrange(0, b.len() as int) =~= b);
}

/// A text that ends in ink has nothing to trim at its end.
pub proof fn lemma_trim_end_inked(b: Seq<u8>)
    requires
        printable(b),
        b.len() > 0,
        inked(b.last()),
    ensures
        trim_end_of(b) == b,
{
    let n = b.len() as int;
    let t = b.subrange(0, n);
    assert(t =~= b);
    assert(space_at(t, n - 1) == 0);
    if n >= 2 {
        assert(b[n - 2] < 0x80);
    }
    if n >= 3 {
        assert(b[n - 3] < 0x80);
    }
    assert(space_before(b, n) == 0);
    assert(b.subrange(0, n) =~= b);
}

/// A header line states its content from the first column and its label from the sixty-first.
pub proof fn lemma_labelled(content: Seq<u8>, label: Seq<u8>)
    requires
        printable(content),
        content.len() <= 60,
        printable(label),
        1 <= label.len() <= 20,
        inked(label.last()),
    ensures
        ({
            let line = labelled(content, label);
            &&& line.len() == 60 + label.len()
            &&& printable(line)
            &&& line.subrange(0, content.len() as int) == content
            &&& label_bytes(line) == label
        }),
{
    lemma_not_truncated(content, 60);
    lemma_left_printable(content, 60);
    let line = labelled(content, label);
    let l = left(content, 60);
    assert(line =~= l + label);
    assert forall|i: int| 0 <= i < line.len() implies 32 <= (#[trigger] line[i]) < 0x80 by {
        if i < 60 {
            assert(line[i] == l[i]);
        } else {
            assert(line[i] == label[i - 60]);
        }
    }
    assert(line.subrange(0, content.len() as int) =~= content) by {
        assert forall|i: int| 0 <= i < content.len() implies line[i] == content[i] by {
            assert(l.subrange(0, content.len() as int)[i] == l[i]);
        }
    }
    let n = line.len() as int;
    lemma_ascii_columns(line, 60, n);
    assert(columns(line, 60, 80) == line.subrange(60, n));
    assert(line.subrange(60, n) =~= label);
    lemma_trim_end_inked(label);
}

/// The labels of the header records written of a set of records.
pub proof fn lemma_labels()
    ensures
        utf8("RINEX VERSION / TYPE"@).len() == 20,
        printable(utf8("RINEX VERSION / TYPE"@)),
        inked(utf8("RINEX VERSION / TYPE"@).last()),
        utf8("PGM / RUN BY / DATE"@).len() == 19,
        printable(utf8("PGM / RUN BY / DATE"@)),
        inked(utf8("PGM / RUN BY / DATE"@).last()),
        utf8("END OF HEADER"@).len() == 13,
        printable(utf8("END OF HEADER"@)),
        inked(utf8("END OF HEADER"@).last()),
        utf8("sidereon"@).len() == 8,
        printable(utf8("sidereon"@)),
        utf8(": GNSS NAV DATA"@).len() == 15,
        printable(utf8(": GNSS NAV DATA"@)),
        utf8(seq!['N']) == seq![78u8],
        utf8(seq!['M']) == seq![77u8],
{
    reveal_strlit("RINEX VERSION / TYPE");
    reveal_strlit("PGM / RUN BY / DATE");
    reveal_strlit("END OF HEADER");
    reveal_strlit("sidereon");
    reveal_strlit(": GNSS NAV DATA");
    lemma_utf8_ascii("RINEX VERSION / TYPE"@);
    lemma_utf8_ascii("PGM / RUN BY / DATE"@);
    lemma_utf8_ascii("END OF HEADER"@);
    lemma_utf8_ascii("sidereon"@);
    lemma_utf8_ascii(": GNSS NAV DATA"@);
    lemma_utf8_ascii(seq!['N']);
    lemma_utf8_ascii(seq!['M']);
    assert(utf8(seq!['N']) =~= seq![78u8]);
    assert(utf8(seq!['M']) =~= seq![77u8]);
}

/// A version that is written reads back.
pub proof fn lemma_version_number(version: NavVersion)
    requires
        2 <= version.major <= 4,
    ensures
        version_number(version).len() == (if version.minor < 100 {
            4int
        } else {
            5int
        }),
        printable(version_number(version)),
        inked(version_number(version)[0]),
        inked(version_number(version).last()),
        version_of(version_number(version)) == Some(version),
{
    crate::decimal::lemma_pow10_values();
    let w: nat = if version.minor < 100 {
        2
    } else {
        3
    };
    let a = digits_text(version.major as nat, 1);
    let b = digits_text(version.minor as nat, w);
    assert(pow10(3) == 1000) by {
        reveal_with_fuel(pow10, 4);
    }
    crate::reread::lemma_int_reads(version.major as nat, 1);
    crate::reread::lemma_int_reads(version.minor as nat, w);
    crate::decimal::lemma_digits_text(version.major as nat, 1);
    crate::decimal::lemma_digits_text(version.minor as nat, w);
    if version.minor < 100 {
        crate::reread::lemma_zero_filled(version.minor as nat, 2);
    } else {
        assert(crate::decimal::digit_count(version.minor as nat) == 3) by {
            reveal_with_fuel(crate::decimal::digit_count, 4);
        }
        assert(zero_filled(version.minor as int, 2) =~= b);
    }
    assert(int_text(version.major as int) =~= a) by {
        reveal_with_fuel(crate::decimal::digit_count, 2);
    }
    let n = version_number(version);
    assert(n =~= a + seq![46u8] + b);
    assert(n.len() == 2 + w);
    assert forall|k: int| 0 <= k < w implies crate::decimal::digit(#[trigger] b[k]) && n[2 + k]
        == b[k] by {}
    assert(crate::decimal::digit(a[0]) && crate::decimal::digit(b[w - 1]));
    assert(n[0] == a[0] && n[1] == 46);
    assert forall|k: int| 2 <= k < n.len() implies crate::decimal::digit(#[trigger] n[k]) by {
        assert(n[k] == b[k - 2]);
    }
    assert forall|k: int| 0 <= k < n.len() implies 32 <= (#[trigger] n[k]) < 0x80 by {
        if k >= 2 {
            assert(crate::decimal::digit(n[k]));
        }
    }
    reveal_with_fuel(point_at, 3);
    assert(point_at(n, 0) == 1);
    assert(n.subrange(0, 1) =~= a);
    crate::reread::lemma_digit_run_to(n, 2, n.len() as int);
    assert(n.subrange(2, n.len() as int) =~= b);
    crate::reread::lemma_natural_small(version.minor as nat, w);
    assert(n.last() == b[w - 1]);
}

/// A version that is written reads back, whatever its minor number, and every version that is read
/// has a major number from 2 to 4.
pub proof fn law_version_reads_back(version: NavVersion, text: Seq<u8>)
    ensures
        2 <= version.major <= 4 ==> version_of(version_number(version)) == Some(version),
        version_of(text) matches Some(read) ==> 2 <= read.major <= 4,
{
    if 2 <= version.major <= 4 {
        lemma_version_number(version);
    }
}

/// The version line written of a set of records reads back.
#[verifier::spinoff_prover]
#[verifier::rlimit(50)]
pub proof fn lemma_version_text(h: Header)
    requires
        2 <= h.version.major <= 4,
        h.version.minor <= 99,
        h.version.major > 2,
        h.file_type == 'N',
        h.satellite_system == Some('M'),
    ensures
        printable(version_text(h)),
        label_of(version_text(h)) == Label::Version,
        version_line(version_text(h)) matches Some((version, file_type, _)) && version == h.version
            && file_type == 'N',
{
    reveal(version_text);
    lemma_labels();
    lemma_version_number(h.version);
    let n = version_number(h.version);
    let r = right(n, 9);
    assert(r =~= spaces(5) + n);
    assert forall|i: int| 0 <= i < r.len() implies 32 <= (#[trigger] r[i]) < 0x80 by {
        if i >= 5 {
            assert(r[i] == n[i - 5]);
        }
    }
    let t = type_text(h.version, h.file_type);
    assert(t =~= seq![78u8] + utf8(": GNSS NAV DATA"@));
    assert forall|i: int| 0 <= i < t.len() implies 32 <= (#[trigger] t[i]) < 0x80 by {
        if i >= 1 {
            assert(t[i] == utf8(": GNSS NAV DATA"@)[i - 1]);
        }
    }
    let m = mark_or_empty(h.satellite_system);
    assert(m =~= seq![77u8]);
    lemma_left_printable(r, 20);
    lemma_left_printable(t, 20);
    lemma_left_printable(m, 20);
    let content = left(r, 20) + left(t, 20) + left(m, 20);
    assert forall|i: int| 0 <= i < content.len() implies 32 <= (#[trigger] content[i]) < 0x80 by {
        if i < 20 {
            assert(content[i] == left(r, 20)[i]);
        } else if i < 40 {
            assert(content[i] == left(t, 20)[i - 20]);
        } else {
            assert(content[i] == left(m, 20)[i - 40]);
        }
    }
    lemma_labelled(content, utf8("RINEX VERSION / TYPE"@));
    let line = version_text(h);
    assert forall|i: int| 0 <= i < 60 implies line[i] == content[i] by {
        assert(line.subrange(0, 60)[i] == line[i]);
    }
    lemma_ascii_columns(line, 0, 9);
    assert(line.subrange(0, 9) =~= r) by {
        assert forall|i: int| 0 <= i < 9 implies line[i] == r[i] by {
            assert(content[i] == left(r, 20)[i]);
            assert(left(r, 20).subrange(0, 9)[i] == left(r, 20)[i]);
        }
    }
    lemma_trim_left(r, 5);
    assert(r.subrange(5, 9) =~= n);
    lemma_ascii_columns(line, 20, 21);
    assert(line[20] == 78) by {
        assert(content[20] == left(t, 20)[0]);
        assert(left(t, 20).subrange(0, 16)[0] == left(t, 20)[0]);
    }
    assert(line.subrange(20, 21)[0] == 78);
}

/// The program line written of a set of records is read as one.
proof fn lemma_program_text(p: Program)
    requires
        p.program == utf8("sidereon"@),
        p.run_by == Seq::<u8>::empty(),
        p.date == Seq::<u8>::empty(),
    ensures
        printable(program_text(p)),
        label_of(program_text(p)) == Label::Program,
{
    reveal(program_text);
    lemma_labels();
    lemma_not_truncated(p.program, 20);
    lemma_not_truncated(p.run_by, 20);
    lemma_not_truncated(p.date, 20);
    lemma_left_printable(p.program, 20);
    lemma_left_printable(p.run_by, 20);
    lemma_left_printable(p.date, 20);
    let content = left(p.program, 20) + left(p.run_by, 20) + left(p.date, 20);
    assert forall|i: int| 0 <= i < content.len() implies 32 <= (#[trigger] content[i]) < 0x80 by {
        if i < 20 {
            assert(content[i] == left(p.program, 20)[i]);
        } else if i < 40 {
            assert(content[i] == left(p.run_by, 20)[i - 20]);
        } else {
            assert(content[i] == left(p.date, 20)[i - 40]);
        }
    }
    lemma_labelled(content, utf8("PGM / RUN BY / DATE"@));
}

/// The line that ends a header is read as such.
pub proof fn lemma_end_text()
    ensures
        printable(labelled(Seq::empty(), utf8("END OF HEADER"@))),
        label_of(labelled(Seq::empty(), utf8("END OF HEADER"@))) == Label::End,
{
    lemma_labels();
    lemma_labelled(Seq::empty(), utf8("END OF HEADER"@));
}

/// The header written of a set of records has three lines.
proof fn lemma_header_shape(records: Seq<BroadcastRecord>)
    ensures
        ({
            let h = records_file(records).header;
            header_lines(h) == seq![
                version_text(h),
                program_text(h.program->0),
                labelled(Seq::empty(), utf8("END OF HEADER"@)),
            ]
        }),
{
    reveal(header_lines);
    reveal(rows_written);
    let h = records_file(records).header;
    assert(crate::write::iono_rows_of(h.iono) =~= Seq::empty());
    assert(row_lines(rows_written(h), h.version) =~= Seq::empty());
    assert(crate::write::comment_lines(h.comments) =~= Seq::empty());
    assert(crate::write::picked(h.other, true) =~= Seq::empty());
    assert(crate::write::picked(h.other, false) =~= Seq::empty());
    assert(crate::header::rows_left(h.rows, h.other) =~= Seq::empty());
    assert(crate::write::correction_lines(h.corrections, h.version) =~= Seq::empty());
    assert(header_lines(h) =~= seq![
        version_text(h),
        program_text(h.program->0),
        labelled(Seq::empty(), utf8("END OF HEADER"@)),
    ]);
}

/// A header of a version line, a program line and its end is read.
proof fn lemma_three_lines(lines: Seq<Seq<u8>>, version: NavVersion)
    requires
        lines.len() >= 3,
        label_of(lines[0]) == Label::Version,
        label_of(lines[1]) == Label::Program,
        label_of(lines[2]) == Label::End,
        version_line(lines[0]) matches Some((v, file_type, _)) && v == version && file_type == 'N',
    ensures
        header_of(lines, true) matches Ok((read, start, _)) && start == 3 && read.version == version
            && read.file_type == 'N',
{
    reveal(scanned);
    let s1 = Scan { version: version_line(lines[0]), ..empty_scan() };
    assert(scanned(empty_scan(), lines[0], 1, true) == Ok::<Scan, Fault>(s1));
    let s2 = scanned(s1, lines[1], 2, true)->Ok_0;
    assert(scanned(s1, lines[1], 2, true) is Ok && s2.version == s1.version);
    assert(scan_lines(lines, 2, s2, true) == Ok::<(Scan, int, bool), Fault>((s2, 3, true)));
    assert(scan_lines(lines, 1, s1, true) == scan_lines(lines, 2, s2, true));
    assert(scan_lines(lines, 0, empty_scan(), true) == scan_lines(lines, 1, s1, true));
}

/// The header written of a set of records reads back: its version and file type, three lines.
proof fn lemma_header_reads(records: Seq<BroadcastRecord>, tail: Seq<Seq<u8>>)
    ensures
        ({
            let h = records_file(records).header;
            let lines = header_lines(h) + tail;
            &&& header_lines(h).len() == 3
            &&& forall|k: int| 0 <= k < 3 ==> printable(#[trigger] header_lines(h)[k])
            &&& header_of(lines, true) matches Ok((read, start, _)) && start == 3 && read.version
                == h.version && read.file_type == 'N'
        }),
{
    let h = records_file(records).header;
    lemma_version_text(h);
    lemma_program_text(h.program->0);
    lemma_end_text();
    lemma_header_shape(records);
    let lines = header_lines(h) + tail;
    assert(lines[0] == header_lines(h)[0]);
    assert(lines[1] == header_lines(h)[1]);
    assert(lines[2] == header_lines(h)[2]);
    lemma_three_lines(lines, h.version);
}

/// Records that are each written as a block that reads back are written as a file that reads back
/// as the records, in order, by the strict reader.
pub proof fn law_records_read_back(records: Seq<BroadcastRecord>)
    requires
        forall|k: int|
            0 <= k < records.len() ==> writes_back(
                #[trigger] records[k],
                records_file(records).header.version,
            ),
    ensures
        lines_written(records_file(records)) matches Ok(lines) && (file_of(
            joined(lines, false, true),
        ) matches Ok(file) && first_fault(file.entries, StrictScope::Keplerian) is None
            && keplerian_of(file.entries) == records),
{
    reveal(header_restated);
    reveal(entry_written);
    reveal(entry_restated);
    reveal(entry_lines);
    let written = records_file(records);
    let h = written.header;
    let head = header_lines(h);
    lemma_header_reads(records, Seq::empty());
    assert(head + Seq::<Seq<u8>>::empty() =~= head);
    assert forall|k: int| 0 <= k < written.entries.len() implies entry_reads_back(
        #[trigger] written.entries[k],
        h.version,
        'N',
    ) by {
        assert(writes_back(records[k], h.version));
        assert(written.entries[k] == record_entry(records[k]));
    }
    lemma_written_reads(head, written.entries, h);
    let lines = lines_written(written)->Ok_0;
    let file = file_of(joined(lines, false, true))->Ok_0;
    assert forall|k: int| 0 <= k < records.len() implies (#[trigger] file.entries[k]).block
        == decoded_block(
        records[k].satellite_id.system,
        Content::Ephemeris(records[k]),
        Seq::empty(),
    ) by {
        assert(written.entries[k] == record_entry(records[k]));
        assert(writes_back(records[k], h.version));
    }
    lemma_read_entries(file.entries, records);
}

/// A record in the columns of version 3 is one block, which names its satellite.
pub proof fn lemma_v3_block(lines: Seq<Seq<u8>>, sat: GnssSatelliteId)
    requires
        record_shape(lines, sat),
        sat.wf(),
    ensures
        starts_block(lines[0], 3),
        forall|k: int| 1 <= k < lines.len() ==> !starts_block(#[trigger] lines[k], 3),
        forall|k: int| 0 <= k < lines.len() ==> printable(#[trigger] lines[k]),
        letter(lines[0][0]),
        block_satellite(lines) == token_of_satellite(sat),
        trim_of(slice_of(lines[0], 0, 3)) == token_of_satellite(sat),
        system_of_letter(lines[0][0]) == Some(sat.system),
        satellite_of_token(token_of_satellite(sat)) == Some(sat),
        token_of_satellite(sat).len() == 3,
        token_of_satellite(sat)[0] == lines[0][0],
{
    lemma_token(sat);
    let line = lines[0];
    let token = token_of_satellite(sat);
    lemma_ascii_columns(line, 0, 3);
    assert(line.subrange(0, 3)[0] == line[0]);
    assert(line.subrange(0, 3)[1] == line[1]);
    assert(line.subrange(0, 3)[2] == line[2]);
}

/// A legacy record that was read is written, in RINEX 3, as a block that reads back.
pub proof fn law_v3_writes_back(
    lines: Seq<Seq<u8>>,
    layout: Layout,
    version0: NavVersion,
    named0: Option<NavMessage>,
    version: NavVersion,
    sat: GnssSatelliteId,
    token: Seq<u8>,
    record: BroadcastRecord,
)
    requires
        version.major == 3,
        restatable(lines, layout, version0, named0, version, None, sat, token, record),
        !record.message.cnav_family(),
    ensures
        writes_back(record, version),
{
    reveal(block_of);
    let own = token_of_satellite(sat);
    law_keplerian_reads_back(
        lines,
        layout,
        version0,
        named0,
        version,
        None,
        sat,
        token,
        record,
        own,
    );
    lemma_record_satellite(lines, layout, version0, named0, sat, token, record);
    let block = keplerian_lines(record, version, RecordColumns::V3);
    lemma_v3_block(block, sat);
    assert(ephemeris_lines(record, version, 'N') == Ok::<Seq<Seq<u8>>, &'static str>(block));
}

/// A record that is read is that of its satellite.
proof fn lemma_record_satellite(
    lines: Seq<Seq<u8>>,
    layout: Layout,
    version0: NavVersion,
    named0: Option<NavMessage>,
    sat: GnssSatelliteId,
    token: Seq<u8>,
    record: BroadcastRecord,
)
    requires
        keplerian_record(lines, sat, token, named0, version0, layout) == Ok::<
            (BroadcastRecord, Seq<Fault>),
            Fault,
        >((record, Seq::empty())),
    ensures
        record.satellite_id == sat,
        record.cnav is None,
{
    reveal(keplerian_record);
}

/// A word between blanks is found.
pub proof fn lemma_one_word(b: Seq<u8>, i: int, from: int, to: int)
    requires
        printable(b),
        0 <= i <= from < to <= b.len(),
        forall|k: int| i <= k < from ==> b[k] == 32,
        forall|k: int| from <= k < to ==> b[k] != 32,
        to < b.len() ==> b[to] == 32,
    ensures
        word_spans(b, i) == seq![(from, to)] + word_spans(b, to),
{
    lemma_skip_blanks(b, i, from);
    lemma_word_to(b, from + 1, to);
}

/// A word ends at the next blank.
proof fn lemma_word_to(b: Seq<u8>, i: int, to: int)
    requires
        printable(b),
        0 <= i <= to <= b.len(),
        forall|k: int| i <= k < to ==> b[k] != 32,
        to < b.len() ==> b[to] == 32,
    ensures
        word_end(b, i) == to,
    decreases to - i,
{
    if i < to {
        assert(b[i] >= 32);
        assert(space_at(b, i) == 0);
        lemma_word_to(b, i + 1, to);
    } else if to < b.len() {
        assert(space_at(b, to) == 1);
    }
}

/// The message tokens of frame markers.
pub proof fn lemma_message_tokens()
    ensures
        utf8("LNAV"@) == seq![76u8, 78u8, 65u8, 86u8],
        utf8("CNAV"@) == seq![67u8, 78u8, 65u8, 86u8],
        utf8("CNV2"@) == seq![67u8, 78u8, 86u8, 50u8],
        utf8("INAV"@) == seq![73u8, 78u8, 65u8, 86u8],
        utf8("FNAV"@) == seq![70u8, 78u8, 65u8, 86u8],
        utf8("D1"@) == seq![68u8, 49u8],
        utf8("D2"@) == seq![68u8, 50u8],
        utf8("EPH"@) == seq![69u8, 80u8, 72u8],
        utf8("STO"@) == seq![83u8, 84u8, 79u8],
        utf8("EOP"@) == seq![69u8, 79u8, 80u8],
        utf8("ION"@) == seq![73u8, 79u8, 78u8],
        utf8("> EPH "@) == seq![62u8, 32u8, 69u8, 80u8, 72u8, 32u8],
{
    reveal_strlit("LNAV");
    reveal_strlit("CNAV");
    reveal_strlit("CNV2");
    reveal_strlit("INAV");
    reveal_strlit("FNAV");
    reveal_strlit("D1");
    reveal_strlit("D2");
    reveal_strlit("EPH");
    reveal_strlit("STO");
    reveal_strlit("EOP");
    reveal_strlit("ION");
    reveal_strlit("> EPH ");
    lemma_utf8_ascii("LNAV"@);
    lemma_utf8_ascii("CNAV"@);
    lemma_utf8_ascii("CNV2"@);
    lemma_utf8_ascii("INAV"@);
    lemma_utf8_ascii("FNAV"@);
    lemma_utf8_ascii("D1"@);
    lemma_utf8_ascii("D2"@);
    lemma_utf8_ascii("EPH"@);
    lemma_utf8_ascii("STO"@);
    lemma_utf8_ascii("EOP"@);
    lemma_utf8_ascii("ION"@);
    lemma_utf8_ascii("> EPH "@);
    assert(utf8("LNAV"@) =~= seq![76u8, 78u8, 65u8, 86u8]);
    assert(utf8("CNAV"@) =~= seq![67u8, 78u8, 65u8, 86u8]);
    assert(utf8("CNV2"@) =~= seq![67u8, 78u8, 86u8, 50u8]);
    assert(utf8("INAV"@) =~= seq![73u8, 78u8, 65u8, 86u8]);
    assert(utf8("FNAV"@) =~= seq![70u8, 78u8, 65u8, 86u8]);
    assert(utf8("D1"@) =~= seq![68u8, 49u8]);
    assert(utf8("D2"@) =~= seq![68u8, 50u8]);
    assert(utf8("EPH"@) =~= seq![69u8, 80u8, 72u8]);
    assert(utf8("STO"@) =~= seq![83u8, 84u8, 79u8]);
    assert(utf8("EOP"@) =~= seq![69u8, 79u8, 80u8]);
    assert(utf8("ION"@) =~= seq![73u8, 79u8, 78u8]);
    assert(utf8("> EPH "@) =~= seq![62u8, 32u8, 69u8, 80u8, 72u8, 32u8]);
}

/// Whether a text is a word: printable, and without a blank.
pub open spec fn word(t: Seq<u8>) -> bool {
    t.len() > 0 && forall|i: int| 0 <= i < t.len() ==> 32 < (#[trigger] t[i]) < 0x80
}

/// A message's token is a word that names the message among those of its system.
proof fn lemma_message_token(message: NavMessage, system: GnssSystem)
    requires
        message_matches(message, system),
    ensures
        token_of_message(message) matches Some(t) && word(t) && message_of_token(t, system) == Some(
            message,
        ),
{
    lemma_message_tokens();
}

/// The marker of an ephemeris frame is read back.
#[verifier::spinoff_prover]
#[verifier::rlimit(50)]
pub proof fn lemma_marker_reads(sat: GnssSatelliteId, t: Seq<u8>, body_sat: Seq<u8>)
    requires
        sat.wf(),
        word(t),
    ensures
        ({
            let marker = marker_text(utf8("> EPH "@), sat, t);
            &&& printable(marker)
            &&& frame_marker(marker)
            &&& frame_type_of(marker) == utf8("EPH"@)
            &&& eph_marker(marker, body_sat) == Ok::<EphMarker, Fault>(
                EphMarker::Eph(token_of_satellite(sat), t),
            )
        }),
{
    lemma_message_tokens();
    lemma_token(sat);
    let own = token_of_satellite(sat);
    let marker = marker_text(utf8("> EPH "@), sat, t);
    let n = marker.len() as int;
    assert(marker =~= seq![62u8, 32u8, 69u8, 80u8, 72u8, 32u8] + own + spaces(1) + t);
    assert forall|i: int| 0 <= i < n implies 32 <= (#[trigger] marker[i]) < 0x80 by {
        if 6 <= i < 9 {
            assert(marker[i] == own[i - 6]);
        } else if 10 <= i {
            assert(marker[i] == t[i - 10]);
        }
    }
    assert forall|k: int| 6 <= k < 9 implies marker[k] != 32 by {
        assert(marker[k] == own[k - 6]);
    }
    assert forall|k: int| 10 <= k < n implies marker[k] != 32 by {
        assert(marker[k] == t[k - 10]);
    }
    lemma_one_word(marker, 1, 2, 5);
    lemma_one_word(marker, 5, 6, 9);
    lemma_one_word(marker, 9, 10, n);
    assert(word_spans(marker, n) =~= Seq::empty()) by {
        assert(skip_space(marker, n) == n);
    }
    let spans = word_spans(marker, 1);
    assert(spans =~= seq![(2int, 5int), (6int, 9int), (10int, n)]);
    assert(marker.subrange(2, 5) =~= seq![69u8, 80u8, 72u8]);
    assert(marker.subrange(6, 9) =~= own);
    assert(marker.subrange(10, n) =~= t);
    assert(marker_words(marker) == 3);
    assert(marker_word(marker, 0) == utf8("EPH"@));
    assert(marker_word(marker, 1) == own);
    assert(marker_word(marker, 2) == t);
    let number = own.subrange(1, 3);
    assert forall|k: int| 0 <= k < number.len() implies crate::decimal::digit(
        #[trigger] number[k],
    ) by {
        assert(number[k] == own[k + 1]);
    }
    assert(all_digits(number));
    assert(marker_satellite(marker) == Ok::<(Seq<u8>, int), Fault>((own, 2)));
}

/// A frame of a marker and the lines of a record is one block, which reads as the record where its
/// lines do.
#[verifier::spinoff_prover]
#[verifier::rlimit(50)]
proof fn lemma_v4_block(
    lines: Seq<Seq<u8>>,
    record: BroadcastRecord,
    version: NavVersion,
    sat: GnssSatelliteId,
)
    requires
        version.major == 4,
        record_shape(lines, sat),
        sat.wf(),
        record.satellite_id == sat,
        keplerian_system(sat.system),
        message_matches(record.message, sat.system),
        (if record.message.cnav_family() {
            cnav_record(lines, sat, token_of_satellite(sat), record.message)
        } else {
            keplerian_record(
                lines,
                sat,
                token_of_satellite(sat),
                Some(record.message),
                version,
                Layout::V3,
            )
        }) == Ok::<(BroadcastRecord, Seq<Fault>), Fault>((record, Seq::empty())),
    ensures
        block_reads(
            seq![
                marker_text(utf8("> EPH "@), sat, token_of_message(record.message)->0),
            ] + lines,
            record,
            version,
        ),
{
    reveal(block_of);
    lemma_message_token(record.message, sat.system);
    let t = token_of_message(record.message)->0;
    let marker = marker_text(utf8("> EPH "@), sat, t);
    let own = token_of_satellite(sat);
    lemma_v3_block(lines, sat);
    lemma_marker_reads(sat, t, own);
    lemma_message_tokens();
    let block = seq![marker] + lines;
    assert(frame_body(block) =~= lines);
    assert forall|k: int| 0 <= k < block.len() implies printable(#[trigger] block[k]) by {
        if k > 0 {
            assert(block[k] == lines[k - 1]);
        }
    }
    assert forall|k: int| 1 <= k < block.len() implies !starts_block(#[trigger] block[k], 4) by {
        assert(block[k] == lines[k - 1]);
        if k > 1 {
            assert(lines[k - 1][0] == 32);
        }
    }
    assert(first_line(block) == marker);
    assert(marker_fault(own, record.message, lines) is None);
    assert(eph_block(lines, own, t, sat.system, sat, version) == decoded_block(
        sat.system,
        Content::Ephemeris(record),
        Seq::empty(),
    ));
}

/// A legacy record that was read is written, in RINEX 4, as a frame that reads back.
pub proof fn law_v4_writes_back(
    lines: Seq<Seq<u8>>,
    layout: Layout,
    version0: NavVersion,
    named0: Option<NavMessage>,
    version: NavVersion,
    sat: GnssSatelliteId,
    token: Seq<u8>,
    record: BroadcastRecord,
)
    requires
        version.major == 4,
        restatable(
            lines,
            layout,
            version0,
            named0,
            version,
            Some(record.message),
            sat,
            token,
            record,
        ),
        !record.message.cnav_family(),
        message_matches(record.message, sat.system),
    ensures
        writes_back(record, version),
{
    let own = token_of_satellite(sat);
    law_keplerian_reads_back(
        lines,
        layout,
        version0,
        named0,
        version,
        Some(record.message),
        sat,
        token,
        record,
        own,
    );
    lemma_record_satellite(lines, layout, version0, named0, sat, token, record);
    lemma_message_token(record.message, sat.system);
    let block = keplerian_lines(record, version, RecordColumns::V3);
    lemma_v4_block(block, record, version, sat);
}

/// A CNAV-family record that was read is written, in RINEX 4, as a frame that reads back.
pub proof fn law_cnav_writes_back(
    lines: Seq<Seq<u8>>,
    version: NavVersion,
    sat: GnssSatelliteId,
    token: Seq<u8>,
    record: BroadcastRecord,
)
    requires
        version.major == 4,
        restatable_cnav(lines, sat, token, record),
        message_matches(record.message, sat.system),
    ensures
        writes_back(record, version),
{
    let own = token_of_satellite(sat);
    law_cnav_reads_back(lines, sat, token, record, own);
    lemma_message_token(record.message, sat.system);
    lemma_v4_block(cnav_lines_of(record, record.cnav->0), record, version, sat);
}

/// An integer read from at most four columns has at most four digits.
pub proof fn lemma_four_columns(line: Seq<u8>, start: int, end: int)
    requires
        end <= start + 4,
    ensures
        int_columns(line, start, end) matches Some(n) ==> -9999 <= n <= 9999,
{
    reveal(integer_text);
    let raw = columns(line, start, end);
    lemma_skip_space(raw, 0);
    lemma_drop_space(raw, skip_space(raw, 0), raw.len() as int);
    let b = trim_of(raw);
    let s: int = if b.len() > 0 && sign_byte(b[0]) { 1 } else { 0 };
    if int_columns(line, start, end) is Some {
        let digits = b.subrange(s, b.len() as int);
        lemma_digit_run(b, s);
        assert forall|k: int| 0 <= k < digits.len() implies crate::decimal::digit(
            #[trigger] digits[k],
        ) by {
            assert(digits[k] == b[s + k]);
        }
        lemma_natural_bound(digits);
        crate::decimal::lemma_pow10_monotone(digits.len(), 4);
        crate::decimal::lemma_pow10_values();
    }
}

/// A clock reference time in RINEX 3 columns is a whole second of a year of at most four digits.
pub proof fn lemma_v3_columns_clock(line: Seq<u8>, scale: TimeScale, week: u32, tow: Seconds)
    requires
        clock_time(line, Layout::V3, scale) == Some((week, tow)),
    ensures
        tow.quectos == 0,
        clock_civil(GnssWeekTow { system: scale, week, tow_s: tow }).year <= 9999,
{
    reveal(record_epoch);
    reveal(week_and_tow);
    let e = record_epoch(line, Layout::V3, CivilSecondPolicy::Continuous)->0;
    lemma_four_columns(line, 4, 8);
    lemma_four_columns(line, 21, 23);
    lemma_integer_seconds(int_columns(line, 21, 23)->0);
    lemma_clock_date(line, Layout::V3, scale, week, tow);
}

/// The clock reference time of a record in RINEX 3 columns is a whole second of a year of at most
/// four digits.
proof fn lemma_v3_clock(
    lines: Seq<Seq<u8>>,
    version: NavVersion,
    named: Option<NavMessage>,
    sat: GnssSatelliteId,
    token: Seq<u8>,
    record: BroadcastRecord,
)
    requires
        keplerian_record(lines, sat, token, named, version, Layout::V3) == Ok::<
            (BroadcastRecord, Seq<Fault>),
            Fault,
        >((record, Seq::empty())),
    ensures
        record.toc.tow_s.quectos == 0,
        clock_civil(record.toc).year <= 9999,
{
    let scale = scale_of(sat.system);
    let (week, tow) = lemma_read_clock(lines, Layout::V3, version, named, sat, token, record);
    lemma_v3_columns_clock(lines[0], scale, week, tow);
}

/// A satellite named by a token has a number of at most two digits.
proof fn lemma_token_wf(token: Seq<u8>)
    ensures
        satellite_of_token(token) matches Some(sat) ==> sat.wf(),
{
    if satellite_of_token(token) is Some {
        let number = trim_of(token.subrange(1, token.len() as int));
        lemma_natural_bound(number);
        crate::decimal::lemma_pow10_monotone(number.len(), 2);
        crate::decimal::lemma_pow10_values();
    }
}

/// The columns of a RINEX 2 or 3 record: one that starts with a letter names its satellite with a
/// token.
pub open spec fn record_layout(block: Seq<Seq<u8>>, version: NavVersion) -> Layout {
    let line = first_line(block);
    if line.len() > 0 && letter(line[0]) {
        if version.major == 2 {
            Layout::V2Lettered
        } else {
            Layout::V3
        }
    } else {
        Layout::V2
    }
}

/// What a RINEX 2 or 3 record block decodes to without a departure is a record read from its lines.
#[verifier::spinoff_prover]
#[verifier::rlimit(50)]
proof fn lemma_old_source(
    block: Seq<Seq<u8>>,
    version: NavVersion,
    file_type: char,
    record: BroadcastRecord,
) -> (r: (GnssSatelliteId, Seq<u8>))
    requires
        2 <= version.major <= 3,
        block_of(block, version, file_type).content == Content::Ephemeris(record),
        block_of(block, version, file_type).departures.len() == 0,
    ensures
        keplerian_record(block, r.0, r.1, None, version, record_layout(block, version)) == Ok::<
            (BroadcastRecord, Seq<Fault>),
            Fault,
        >((record, Seq::empty())),
        r.0.wf(),
        r.0 == record.satellite_id,
        keplerian_system(r.0.system),
{
    reveal(block_of);
    let layout = record_layout(block, version);
    let line = first_line(block);
    let lettered = line.len() > 0 && letter(line[0]);
    let sat = if lettered {
        trim_of(slice_of(line, 0, 3))
    } else {
        trim_of(slice_of(line, 0, 2))
    };
    let id = if lettered {
        satellite_of_token(sat)->0
    } else {
        v2_satellite(sat, file_type)->0
    };
    lemma_token_wf(sat);
    assert(record_block(block, id, sat, version, layout) == v2_v3_block(block, version, file_type));
    let read = keplerian_record(block, id, sat, None, version, layout)->Ok_0;
    assert(read.1 =~= Seq::empty());
    assert(record.satellite_id == id) by {
        reveal(keplerian_record);
    }
    (id, sat)
}

/// The message of a RINEX 2 or 3 record is the one its columns state, and not of the CNAV family.
proof fn lemma_old_message(
    lines: Seq<Seq<u8>>,
    layout: Layout,
    version: NavVersion,
    sat: GnssSatelliteId,
    token: Seq<u8>,
    record: BroadcastRecord,
)
    requires
        keplerian_record(lines, sat, token, None, version, layout) == Ok::<
            (BroadcastRecord, Seq<Fault>),
            Fault,
        >((record, Seq::empty())),
    ensures
        keplerian_message(sat, None, value_at(lines, layout, 20)) == Some((record.message, false)),
        sat.system == GnssSystem::Galileo ==> value_at(lines, layout, 20) is Some,
        !record.message.cnav_family(),
{
    reveal(keplerian_record);
    let read = keplerian_message(sat, None, value_at(lines, layout, 20))->0;
    let none = keplerian_departures(lines, layout, sat.system, version, token, read.1);
    assert(none.len() == 0);
}

/// Whether what the lines of a RINEX 2 or 3 record state fits what is written of it in `version`:
/// values of at most thirteen digits, a clock reference time of a whole second in a year of at most
/// four digits, which RINEX 3 columns always state, and a fit interval field that means the same.
pub open spec fn short_old_record(
    block: Seq<Seq<u8>>,
    version0: NavVersion,
    version: NavVersion,
    record: BroadcastRecord,
) -> bool {
    let layout = record_layout(block, version0);
    &&& short_fields(block, layout)
    &&& fit_means_same(
        record.satellite_id.system,
        value_at(block, layout, 28),
        version0,
        version,
    )
    &&& layout != Layout::V3 ==> record.toc.tow_s.quectos == 0 && clock_civil(record.toc).year
        <= 9999
}

/// A RINEX 2 or 3 record read without a departure, which fits what is written of it, is written in
/// RINEX 3 as a block that reads back.
pub proof fn law_old_record_writes_back(
    block: Seq<Seq<u8>>,
    version0: NavVersion,
    file_type: char,
    version: NavVersion,
    record: BroadcastRecord,
)
    requires
        2 <= version0.major <= 3,
        version.major == 3,
        block_of(block, version0, file_type).content == Content::Ephemeris(record),
        block_of(block, version0, file_type).departures.len() == 0,
        short_old_record(block, version0, version, record),
    ensures
        writes_back(record, version),
        !record.message.cnav_family(),
{
    let layout = record_layout(block, version0);
    let (sat, token) = lemma_old_source(block, version0, file_type, record);
    if layout == Layout::V3 {
        lemma_v3_clock(block, version0, None, sat, token, record);
    }
    lemma_old_message(block, layout, version0, sat, token, record);
    law_v3_writes_back(block, layout, version0, None, version, sat, token, record);
}

/// Whether what the lines of a record in RINEX 3 columns state fits what is written of it: values of
/// at most thirteen digits, the propagation epoch of a CNAV-family record among them, and the data
/// sources of a Galileo record.
pub open spec fn short_record(lines: Seq<Seq<u8>>, record: BroadcastRecord) -> bool {
    &&& forall|i: int|
        0 <= i < 39 ==> (#[trigger] value_at(lines, Layout::V3, i) matches Some(d) ==> d.digits
            < pow10(13))
    &&& record.satellite_id.system == GnssSystem::Galileo ==> value_at(lines, Layout::V3, 20) is Some
    &&& record.cnav matches Some(cnav) ==> seconds_of(written(cnav.top.tow_s)) == cnav.top.tow_s
}

/// Whether the columns of a legacy record state its message without a frame marker.
pub open spec fn columns_state_message(lines: Seq<Seq<u8>>, record: BroadcastRecord) -> bool {
    !record.message.cnav_family() && keplerian_message(
        record.satellite_id,
        None,
        value_at(lines, Layout::V3, 20),
    ) == Some((record.message, false))
}

/// What a RINEX 4 frame decodes to without a departure is a record read from the lines after the
/// marker, with a message of its satellite's system.
#[verifier::spinoff_prover]
#[verifier::rlimit(50)]
proof fn lemma_v4_source(
    block: Seq<Seq<u8>>,
    version: NavVersion,
    file_type: char,
    record: BroadcastRecord,
) -> (r: (GnssSatelliteId, Seq<u8>))
    requires
        version.major == 4,
        block_of(block, version, file_type).content == Content::Ephemeris(record),
        block_of(block, version, file_type).departures.len() == 0,
    ensures
        ({
            let lines = frame_body(block);
            (if record.message.cnav_family() {
                cnav_record(lines, r.0, r.1, record.message)
            } else {
                keplerian_record(lines, r.0, r.1, Some(record.message), version, Layout::V3)
            }) == Ok::<(BroadcastRecord, Seq<Fault>), Fault>((record, Seq::empty()))
        }),
        r.0 == record.satellite_id,
        r.0.wf(),
        keplerian_system(r.0.system),
        message_matches(record.message, r.0.system),
{
    reveal(block_of);
    let lines = frame_body(block);
    let marker = first_line(block);
    let (sv, token) = match eph_marker(marker, block_satellite(lines)) {
        Ok(EphMarker::Eph(sv, token)) => (sv, token),
        _ => (Seq::empty(), Seq::empty()),
    };
    lemma_token_wf(sv);
    let id = satellite_of_token(sv)->0;
    let message = message_of_token(token, id.system)->0;
    if message.cnav_family() {
        let read = cnav_record(lines, id, sv, message)->Ok_0;
        assert(read.1 =~= Seq::empty());
        assert(record.message == message && record.satellite_id == id) by {
            reveal(cnav_record);
        }
    } else {
        let read = keplerian_record(lines, id, sv, Some(message), version, Layout::V3)->Ok_0;
        assert(read.1 =~= Seq::empty());
        assert(record.message == message && record.satellite_id == id) by {
            reveal(keplerian_record);
        }
    }
    (id, sv)
}

/// A RINEX 4 record read without a departure, whose values have at most thirteen digits, is written
/// as a block that reads back: as a frame in any RINEX 4 version, and as a record in any RINEX 3
/// version without the legacy fit flag where its columns state its message.
#[verifier::spinoff_prover]
#[verifier::rlimit(50)]
pub proof fn law_v4_record_writes_back(
    block: Seq<Seq<u8>>,
    version0: NavVersion,
    file_type: char,
    version: NavVersion,
    record: BroadcastRecord,
)
    requires
        version0.major == 4,
        version.major == 4 || (version.major == 3 && !version.legacy_fit_flag()
            && columns_state_message(frame_body(block), record)),
        block_of(block, version0, file_type).content == Content::Ephemeris(record),
        block_of(block, version0, file_type).departures.len() == 0,
        short_record(frame_body(block), record),
    ensures
        writes_back(record, version),
{
    let (sat, token) = lemma_v4_source(block, version0, file_type, record);
    let lines = frame_body(block);
    if record.message.cnav_family() {
        law_cnav_writes_back(lines, version, sat, token, record);
    } else {
        let named = Some(record.message);
        lemma_v3_clock(lines, version0, named, sat, token, record);
        if version.major == 4 {
            law_v4_writes_back(lines, Layout::V3, version0, named, version, sat, token, record);
        } else {
            law_v3_writes_back(lines, Layout::V3, version0, named, version, sat, token, record);
        }
    }
}

/// What holds of the record of every entry holds of every record that entries give.
proof fn lemma_each_record(entries: Seq<Entry>, p: spec_fn(BroadcastRecord) -> bool)
    requires
        forall|k: int|
            0 <= k < entries.len() ==> ((#[trigger] entries[k]).block.content matches
                Content::Ephemeris(record) ==> p(record)),
    ensures
        forall|k: int| 0 <= k < keplerian_of(entries).len() ==> p(#[trigger] keplerian_of(entries)[k]),
    decreases entries.len(),
{
    if entries.len() > 0 {
        let head = entries.drop_last();
        assert forall|k: int| 0 <= k < head.len() implies ((#[trigger] head[k]).block.content matches
            Content::Ephemeris(record) ==> p(record)) by {
            assert(head[k] == entries[k]);
        }
        lemma_each_record(head, p);
        let last = entries[entries.len() - 1];
        let all = keplerian_of(entries);
        let before = keplerian_of(head);
        assert forall|k: int| 0 <= k < all.len() implies p(#[trigger] all[k]) by {
            if k < before.len() {
                assert(all[k] == before[k]);
            }
        }
    }
}

/// The records read strictly from a RINEX 2 or 3 file, which fit what is written of them, are
/// written as a file that reads back as the same records: a file of records encoded once is a fixed
/// point. A GPS fit interval field of 0 or 1 in RINEX 3.00 to 3.02 is a flag and does not fit.
#[verifier::spinoff_prover]
#[verifier::rlimit(50)]
pub proof fn law_encoded_records_read_back(b: Seq<u8>)
    requires
        file_of(b) matches Ok(file) && file.header.version.major <= 3 && first_fault(
            file.entries,
            StrictScope::Keplerian,
        ) is None && forall|k: int|
            0 <= k < file.entries.len() ==> ((#[trigger] file.entries[k]).block.content matches
                Content::Ephemeris(record) ==> short_old_record(
                contents(file.entries[k].text),
                file.header.version,
                NavVersion { major: 3, minor: 4 },
                record,
            )),
    ensures
        ({
            let records = keplerian_of(file_of(b)->Ok_0.entries);
            lines_written(records_file(records)) matches Ok(lines) && (file_of(
                joined(lines, false, true),
            ) matches Ok(again) && first_fault(again.entries, StrictScope::Keplerian) is None
                && keplerian_of(again.entries) == records)
        }),
{
    let file = file_of(b)->Ok_0;
    let version0 = file.header.version;
    let version = NavVersion { major: 3, minor: 4 };
    let records = keplerian_of(file.entries);
    let raw = lines_of(b).lines;
    let lines = contents(raw);
    let (h, start, issues) = header_of(lines, true)->Ok_0;
    lemma_header_restated(raw);
    let body = lines.subrange(start, lines.len() as int);
    let gs = groups(body, version0.major);
    assert forall|k: int| 0 <= k < file.entries.len() implies ((
    #[trigger] file.entries[k]).block.content matches Content::Ephemeris(record) ==> writes_back(
        record,
        version,
    ) && !record.message.cnav_family()) by {
        let entry = file.entries[k];
        if let Content::Ephemeris(record) = entry.block.content {
            law_groups_start(body, version0.major, k);
            let g = gs[k];
            let block = lines.subrange(start + g.0, start + g.1);
            assert(entry == group_entry(raw, lines, start, g, version0, h.file_type));
            assert(contents(entry.text) =~= block);
            lemma_no_fault(file.entries, StrictScope::Keplerian);
            assert(entry_fault(entry, StrictScope::Keplerian) is None);
            law_block_content_fits(block, version0, h.file_type);
            law_old_record_writes_back(block, version0, h.file_type, version, record);
        }
    }
    let holds = |record: BroadcastRecord|
        writes_back(record, version) && !record.message.cnav_family();
    lemma_each_record(file.entries, holds);
    assert forall|k: int| 0 <= k < records.len() implies writes_back(#[trigger] records[k], version)
        && !records[k].message.cnav_family() by {
        assert(holds(records[k]));
    }
    assert(!any_cnav(records));
    law_records_read_back(records);
}

/// The records read strictly from a RINEX 4 file, with values of at most thirteen digits, are written
/// as a file that reads back as the same records. Where none is of the CNAV family they are written
/// as RINEX 3, whose columns then have to state each record's message.
#[verifier::spinoff_prover]
#[verifier::rlimit(50)]
pub proof fn law_encoded_v4_reads_back(b: Seq<u8>)
    requires
        file_of(b) matches Ok(file) && file.header.version.major == 4 && first_fault(
            file.entries,
            StrictScope::Keplerian,
        ) is None && forall|k: int|
            0 <= k < file.entries.len() ==> ((#[trigger] file.entries[k]).block.content matches
                Content::Ephemeris(record) ==> {
                let lines = frame_body(contents(file.entries[k].text));
                short_record(lines, record) && (any_cnav(keplerian_of(file.entries))
                    || columns_state_message(lines, record))
            }),
    ensures
        ({
            let records = keplerian_of(file_of(b)->Ok_0.entries);
            lines_written(records_file(records)) matches Ok(lines) && (file_of(
                joined(lines, false, true),
            ) matches Ok(again) && first_fault(again.entries, StrictScope::Keplerian) is None
                && keplerian_of(again.entries) == records)
        }),
{
    let file = file_of(b)->Ok_0;
    let version0 = file.header.version;
    let records = keplerian_of(file.entries);
    let version = records_file(records).header.version;
    let raw = lines_of(b).lines;
    let lines = contents(raw);
    let (h, start, issues) = header_of(lines, true)->Ok_0;
    lemma_header_restated(raw);
    let body = lines.subrange(start, lines.len() as int);
    let gs = groups(body, 4);
    assert forall|k: int| 0 <= k < file.entries.len() implies ((
    #[trigger] file.entries[k]).block.content matches Content::Ephemeris(record) ==> writes_back(
        record,
        version,
    )) by {
        let entry = file.entries[k];
        if let Content::Ephemeris(record) = entry.block.content {
            law_groups_start(body, 4, k);
            let g = gs[k];
            let block = lines.subrange(start + g.0, start + g.1);
            assert(entry == group_entry(raw, lines, start, g, version0, h.file_type));
            assert(contents(entry.text) =~= block);
            lemma_no_fault(file.entries, StrictScope::Keplerian);
            assert(entry_fault(entry, StrictScope::Keplerian) is None);
            law_block_content_fits(block, version0, h.file_type);
            law_v4_record_writes_back(block, version0, h.file_type, version, record);
        }
    }
    let holds = |record: BroadcastRecord| writes_back(record, version);
    lemma_each_record(file.entries, holds);
    assert forall|k: int| 0 <= k < records.len() implies writes_back(
        #[trigger] records[k],
        version,
    ) by {
        assert(holds(records[k]));
    }
    law_records_read_back(records);
}

} // verus!

//! What holds of whole texts: their lines are theirs, the body of a file decides no error, and the
//! readers of the ionosphere coefficients agree.

use vstd::prelude::*;

use crate::body::{
    block_of, contents, data_frame, ended_in_cr, eph_frame, first_line, frame_body, groups,
    lines_of, v4_block, without_cr, Content, Entry,
};
use crate::cr::{
    alike, alike_lines, lemma_alike_block, lemma_alike_groups, lemma_alike_label, lemma_alike_scan,
};
use crate::error::Fault;
use crate::file::{
    body_entries, file_of, group_entry, ion_frame_in, ion_of, iono_corrections_of, plain_lines,
    scan_ion_frames,
};
use crate::frames::{effect_of, IonFrame};
use crate::header::{empty_scan, header_of, label_of, scan_lines, scanned, Header, Label, Scan};
use crate::marker::frame_type_of;
use crate::record::{no_iono, IonoCorrections, NavVersion};
use crate::restate::lemma_message_tokens;
use crate::store::store_of;
use crate::text::{lemma_split_lf, split_lf, utf8};
use crate::write::{joined, law_lines_join};

verus! {

/// The lines of a text that ends a line are followed by those of the text after it.
proof fn lemma_split_after(h: Seq<u8>, b: Seq<u8>)
    requires
        h.len() > 0,
        h.last() == 10,
    ensures
        split_lf(h + b) == split_lf(h).drop_last() + split_lf(b),
    decreases b.len(),
{
    lemma_split_lf(h);
    lemma_split_lf(b);
    let first = split_lf(h).drop_last();
    if b.len() == 0 {
        assert(h + b =~= h);
        assert(split_lf(h) == split_lf(h.drop_last()).push(Seq::empty()));
        assert(b =~= Seq::empty());
        assert(first + split_lf(b) =~= split_lf(h));
    } else {
        let head = b.drop_last();
        assert((h + b).drop_last() =~= h + head);
        assert((h + b).last() == b.last());
        lemma_split_after(h, head);
        lemma_split_lf(head);
        if b.last() == 10 {
            assert((first + split_lf(head)).push(Seq::empty()) =~= first + split_lf(b));
        } else {
            let all = first + split_lf(head);
            assert(all.last() == split_lf(head).last());
            assert(all.drop_last() =~= first + split_lf(head).drop_last());
            assert(all.drop_last().push(all.last().push(b.last())) =~= first + split_lf(b));
        }
    }
}

/// Whether every `LF` of a text follows a `CR`.
pub open spec fn lf_after_cr(b: Seq<u8>) -> bool {
    forall|j: int| 0 <= j < b.len() && #[trigger] b[j] == 10 ==> j > 0 && b[j - 1] == 13
}

/// Whether every piece of a text but the last ends in `CR`.
spec fn pieces_end_in_cr(p: Seq<Seq<u8>>) -> bool {
    forall|i: int| 0 <= i < p.len() - 1 ==> (#[trigger] p[i]).len() > 0 && p[i].last() == 13
}

/// What the pieces between the `LF`s of a text are.
proof fn lemma_pieces(b: Seq<u8>)
    ensures
        split_lf(b).len() >= 1,
        split_lf(b).len() > 1 <==> b.contains(10),
        forall|i: int| 0 <= i < split_lf(b).len() ==> !(#[trigger] split_lf(b)[i]).contains(10),
        b.len() > 0 && b.last() != 10 ==> split_lf(b).last().len() > 0 && split_lf(b).last().last()
            == b.last(),
        b.len() == 0 || b.last() == 10 ==> split_lf(b).last().len() == 0,
        pieces_end_in_cr(split_lf(b)) <==> lf_after_cr(b),
    decreases b.len(),
{
    if b.len() > 0 {
        let h = b.drop_last();
        let (p, q) = (split_lf(h), split_lf(b));
        lemma_pieces(h);
        let n = b.len() as int;
        assert(forall|j: int| 0 <= j < n - 1 ==> h[j] == b[j]);
        if h.contains(10) {
            let j = choose|j: int| 0 <= j < h.len() && h[j] == 10;
            assert(b[j] == 10);
        }
        if b.last() == 10 {
            assert(b[n - 1] == 10);
            assert(q == p.push(Seq::empty()));
            if pieces_end_in_cr(q) {
                assert(q[p.len() - 1] == p.last());
                assert(pieces_end_in_cr(p)) by {
                    assert forall|i: int| 0 <= i < p.len() - 1 implies (#[trigger] p[i]).len() > 0
                        && p[i].last() == 13 by {
                        assert(q[i] == p[i]);
                    }
                }
                assert forall|j: int| 0 <= j < n && #[trigger] b[j] == 10 implies j > 0 && b[j - 1]
                    == 13 by {
                    if j < n - 1 {
                        assert(h[j] == 10);
                    }
                }
            }
            if lf_after_cr(b) {
                assert(b[n - 2] == 13);
                assert(lf_after_cr(h)) by {
                    assert forall|j: int| 0 <= j < h.len() && #[trigger] h[j] == 10 implies j > 0
                        && h[j - 1] == 13 by {
                        assert(b[j] == 10);
                    }
                }
                assert(h.last() == 13);
                assert forall|i: int| 0 <= i < q.len() - 1 implies (#[trigger] q[i]).len() > 0
                    && q[i].last() == 13 by {
                    assert(q[i] == p[i]);
                }
            }
        } else {
            let last = p.last().push(b.last());
            assert(q == p.drop_last().push(last));
            assert forall|i: int| 0 <= i < q.len() implies !(#[trigger] q[i]).contains(10) by {
                if i < p.len() - 1 {
                    assert(q[i] == p[i]);
                } else {
                    assert(!p[p.len() - 1].contains(10));
                    if last.contains(10) {
                        let j = choose|j: int| 0 <= j < last.len() && last[j] == 10;
                        assert(p.last()[j] == 10);
                    }
                }
            }
            if b.contains(10) {
                let j = choose|j: int| 0 <= j < b.len() && b[j] == 10;
                assert(h[j] == 10);
            }
            assert(forall|i: int| 0 <= i < p.len() - 1 ==> q[i] == p[i]);
            if lf_after_cr(h) {
                assert forall|j: int| 0 <= j < n && #[trigger] b[j] == 10 implies j > 0 && b[j - 1]
                    == 13 by {
                    assert(h[j] == 10);
                }
            }
            if lf_after_cr(b) {
                assert forall|j: int| 0 <= j < h.len() && #[trigger] h[j] == 10 implies j > 0
                    && h[j - 1] == 13 by {
                    assert(b[j] == 10);
                }
            }
            if pieces_end_in_cr(p) {
                assert forall|i: int| 0 <= i < q.len() - 1 implies (#[trigger] q[i]).len() > 0
                    && q[i].last() == 13 by {
                    assert(q[i] == p[i]);
                }
            }
            if pieces_end_in_cr(q) {
                assert forall|i: int| 0 <= i < p.len() - 1 implies (#[trigger] p[i]).len() > 0
                    && p[i].last() == 13 by {
                    assert(q[i] == p[i]);
                }
            }
        }
    }
}

/// The lines of a text are its lines: none holds an `LF`, there is none where the text is empty,
/// the last is ended where the text ends in `LF`, they end in `CR LF` where the text holds an `LF`
/// and each follows a `CR`, and joined again they are the text.
pub proof fn law_lines(b: Seq<u8>)
    ensures
        joined(lines_of(b).lines, lines_of(b).crlf, lines_of(b).final_newline) == b,
        lines_of(b).lines.len() == 0 <==> b.len() == 0,
        forall|i: int|
            0 <= i < lines_of(b).lines.len() ==> !(#[trigger] lines_of(b).lines[i]).contains(10),
        lines_of(b).final_newline <==> b.len() > 0 && b.last() == 10,
        lines_of(b).crlf <==> b.contains(10) && lf_after_cr(b),
{
    law_lines_join(b);
    lemma_pieces(b);
    let p = split_lf(b);
    if b.len() > 0 {
        let ended = b.last() == 10;
        let raw = if ended {
            p.drop_last()
        } else {
            p
        };
        let n = if ended {
            raw.len() as int
        } else {
            raw.len() - 1
        };
        assert(forall|i: int| 0 <= i < raw.len() ==> raw[i] == p[i]);
        assert(n == p.len() - 1);
        if ended {
            assert(b[b.len() - 1] == 10);
            assert(b.contains(10));
        }
        if ended_in_cr(raw, n) {
            assert forall|i: int| 0 <= i < p.len() - 1 implies (#[trigger] p[i]).len() > 0
                && p[i].last() == 13 by {
                assert(raw[i] == p[i]);
            }
        }
        if n > 0 && pieces_end_in_cr(p) {
            assert forall|i: int| 0 <= i < n implies (#[trigger] raw[i]).len() > 0
                && raw[i].last() == 13 by {
                assert(raw[i] == p[i]);
            }
        }
        let l = lines_of(b).lines;
        assert forall|i: int| 0 <= i < l.len() implies !(#[trigger] l[i]).contains(10) by {
            assert(!p[i].contains(10));
            if l[i].contains(10) {
                let j = choose|j: int| 0 <= j < l[i].len() && l[i][j] == 10;
                assert(p[i][j] == 10);
            }
        }
    }
}

/// The lines of a text that ends a line, as the field readers see them.
pub open spec fn ended_lines(h: Seq<u8>) -> Seq<Seq<u8>> {
    contents(split_lf(h).drop_last())
}

/// Whether a line ends in more than one `CR`.
pub open spec fn doubled_cr(line: Seq<u8>) -> bool {
    line.len() >= 2 && line.last() == 13 && line[line.len() - 2] == 13
}

/// Whether no line of a text ends in more than one `CR`.
pub open spec fn single_cr(h: Seq<u8>) -> bool {
    forall|i: int|
        0 <= i < split_lf(h).drop_last().len() ==> !doubled_cr(#[trigger] split_lf(h).drop_last()[i])
}

/// The lines of a text start with those of the whole lines it starts with, whatever follows, but
/// for a `CR` at the end of a line that ends in more than one.
proof fn lemma_lines_start(h: Seq<u8>, b: Seq<u8>)
    requires
        h.len() > 0,
        h.last() == 10,
    ensures
        ({
            let lines = contents(lines_of(h + b).lines);
            let n = ended_lines(h).len() as int;
            &&& n <= lines.len()
            &&& alike_lines(lines.subrange(0, n), ended_lines(h))
            &&& single_cr(h) ==> lines.subrange(0, n) == ended_lines(h)
        }),
{
    let all = h + b;
    lemma_split_after(h, b);
    lemma_split_lf(b);
    lemma_split_lf(h);
    let first = split_lf(h).drop_last();
    let n = first.len() as int;
    let ended = all.last() == 10;
    let pieces = split_lf(all);
    let raw = if ended {
        pieces.drop_last()
    } else {
        pieces
    };
    let m = if ended {
        raw.len() as int
    } else {
        raw.len() - 1
    };
    assert(n <= m);
    assert forall|i: int| 0 <= i < n implies raw[i] == first[i] by {
        assert(pieces[i] == first[i]);
    }
    let l = lines_of(all).lines;
    let lines = contents(l);
    assert forall|i: int| 0 <= i < n implies alike(#[trigger] lines[i], ended_lines(h)[i]) && (
    single_cr(h) ==> lines[i] == ended_lines(h)[i]) by {
        assert(single_cr(h) ==> !doubled_cr(first[i]));
        assert(ended_lines(h)[i] == without_cr(first[i]));
        assert(lines[i] == without_cr(l[i]));
        lemma_once_or_twice(first[i]);
        if ended_in_cr(raw, m) {
            assert(raw[i].len() > 0 && raw[i].last() == 13);
            assert(l[i] == raw[i].drop_last());
        }
    }
    let start = lines.subrange(0, n);
    assert forall|i: int| 0 <= i < n implies alike(#[trigger] start[i], ended_lines(h)[i]) by {
        assert(start[i] == lines[i]);
    }
    if single_cr(h) {
        assert forall|i: int| 0 <= i < n implies start[i] == ended_lines(h)[i] by {
            assert(start[i] == lines[i]);
        }
        assert(start =~= ended_lines(h));
    }
}

/// A line that ends in `CR`, without one and without two.
proof fn lemma_once_or_twice(x: Seq<u8>)
    ensures
        alike(x, without_cr(x)),
        x.len() > 0 && x.last() == 13 ==> {
            &&& alike(without_cr(x.drop_last()), without_cr(x))
            &&& !doubled_cr(x) ==> without_cr(x.drop_last()) == without_cr(x)
        },
{
    if x.len() > 0 && x.last() == 13 {
        let y = x.drop_last();
        assert(y.push(13) =~= x);
        if y.len() > 0 {
            assert(y.last() == x[x.len() - 2]);
            if y.last() == 13 {
                assert(y.drop_last().push(13) =~= y);
            }
        }
    }
}

/// A header whose end is among its lines reads alike whatever follows.
proof fn lemma_scan_settled(head: Seq<Seq<u8>>, tail: Seq<Seq<u8>>, from: int, scan: Scan)
    requires
        0 <= from <= head.len(),
        exists|k: int| from <= k < head.len() && label_of(#[trigger] head[k]) == Label::End,
    ensures
        scan_lines(head + tail, from, scan, true) == scan_lines(head, from, scan, true),
        match scan_lines(head, from, scan, true) {
            Ok((_, _, ended)) => ended,
            Err(fault) => fault is UnsupportedHeader,
        },
    decreases head.len() - from,
{
    assert((head + tail)[from] == head[from]);
    if label_of(head[from]) != Label::End {
        match scanned(scan, head[from], from + 1, true) {
            Ok(next) => {
                let k = choose|k: int|
                    from <= k < head.len() && label_of(#[trigger] head[k]) == Label::End;
                assert(k > from);
                lemma_scan_settled(head, tail, from + 1, next);
            },
            Err(_) => {
                reveal(scanned);
            },
        }
    }
}

/// Nothing after `END OF HEADER` decides whether or how a file is refused: two texts that start with
/// the same lines, `END OF HEADER` among them, are refused with the same error, which is that of an
/// unsupported header, or are both read, with the same header and the same problems in it. Records
/// that are kept as they are can differ in a `CR` at their end, where a line ends in more than one.
pub proof fn law_body_decides_no_error(h: Seq<u8>, b1: Seq<u8>, b2: Seq<u8>)
    requires
        h.len() > 0,
        h.last() == 10,
        exists|k: int|
            0 <= k < ended_lines(h).len() && label_of(#[trigger] ended_lines(h)[k]) == Label::End,
    ensures
        match (file_of(h + b1), file_of(h + b2)) {
            (Err(e1), Err(e2)) => e1 == e2 && e1 is UnsupportedHeader,
            (Ok(f1), Ok(f2)) => {
                &&& f1.header == (Header { other: f1.header.other, ..f2.header })
                &&& f1.issues == f2.issues
                &&& f1.header_text.len() == f2.header_text.len()
                &&& same_but_cr(f1.header.other, f2.header.other)
                &&& single_cr(h) ==> f1.header == f2.header
            },
            _ => false,
        },
{
    let head = ended_lines(h);
    let n = head.len() as int;
    lemma_lines_start(h, b1);
    lemma_lines_start(h, b2);
    let l1 = contents(lines_of(h + b1).lines);
    let l2 = contents(lines_of(h + b2).lines);
    let h1 = l1.subrange(0, n);
    let h2 = l2.subrange(0, n);
    let t1 = l1.subrange(n, l1.len() as int);
    let t2 = l2.subrange(n, l2.len() as int);
    assert(h1 + t1 =~= l1);
    assert(h2 + t2 =~= l2);
    let k = choose|k: int| 0 <= k < n && label_of(#[trigger] head[k]) == Label::End;
    assert(alike(h1[k], head[k]) && alike(h2[k], head[k]));
    lemma_alike_label(h1[k], head[k]);
    lemma_alike_label(h2[k], head[k]);
    lemma_scan_settled(h1, t1, 0, empty_scan());
    lemma_scan_settled(h2, t2, 0, empty_scan());
    lemma_alike_scan(h1, head, 0, empty_scan(), empty_scan(), true);
    lemma_alike_scan(h2, head, 0, empty_scan(), empty_scan(), true);
    if let (Ok((p, _, _)), Ok((q, _, _)), Ok((r, _, _))) = (
        scan_lines(h1, 0, empty_scan(), true),
        scan_lines(h2, 0, empty_scan(), true),
        scan_lines(head, 0, empty_scan(), true),
    ) {
        assert(p.version == q.version && p.rows == q.rows && p.issues == q.issues);
        assert forall|i: int| 0 <= i < p.other.len() implies without_crs(#[trigger] p.other[i])
            == without_crs(q.other[i]) by {
            assert(alike(p.other[i], r.other[i]) && alike(q.other[i], r.other[i]));
            lemma_alike_without(p.other[i], r.other[i]);
            lemma_alike_without(q.other[i], r.other[i]);
        }
    }
    crate::write::lemma_scan_advances(l1, 0, empty_scan());
    crate::write::lemma_scan_advances(l2, 0, empty_scan());
}

/// A text without the `CR`s at its end.
pub open spec fn without_crs(x: Seq<u8>) -> Seq<u8>
    decreases x.len(),
{
    if x.len() > 0 && x.last() == 13 {
        without_crs(x.drop_last())
    } else {
        x
    }
}

/// Whether lines are the same but for `CR`s at their ends.
pub open spec fn same_but_cr(a: Seq<Seq<u8>>, b: Seq<Seq<u8>>) -> bool {
    a.len() == b.len() && forall|i: int|
        0 <= i < a.len() ==> without_crs(#[trigger] a[i]) == without_crs(b[i])
}

/// Texts that differ in a `CR` at the end are the same without it.
proof fn lemma_alike_without(x: Seq<u8>, y: Seq<u8>)
    requires
        alike(x, y),
    ensures
        without_crs(x) == without_crs(y),
{
    assert(x.push(13).drop_last() =~= x);
    assert(y.push(13).drop_last() =~= y);
}

/// The readers of a whole file and of its header see the same lines, but for a `CR` at their ends.
proof fn lemma_same_lines(b: Seq<u8>)
    ensures
        alike_lines(plain_lines(b), contents(lines_of(b).lines)),
{
    if b.len() == 0 {
        assert(plain_lines(b) =~= Seq::empty());
    } else {
        lemma_split_lf(b);
        let pieces = split_lf(b);
        let ended = b.last() == 10;
        let raw = if ended {
            pieces.drop_last()
        } else {
            pieces
        };
        let m = if ended {
            raw.len() as int
        } else {
            raw.len() - 1
        };
        let l = lines_of(b).lines;
        assert(ended ==> pieces.last().len() == 0);
        assert(!ended ==> pieces.last().len() > 0);
        assert(plain_lines(b).len() == raw.len());
        assert forall|i: int| 0 <= i < raw.len() implies alike(
            #[trigger] plain_lines(b)[i],
            contents(l)[i],
        ) by {
            lemma_once_or_twice(pieces[i]);
            assert(raw[i] == pieces[i]);
            assert(contents(l)[i] == without_cr(l[i]));
            if ended_in_cr(raw, m) && i < m {
                assert(raw[i].len() > 0 && raw[i].last() == 13);
                assert(l[i] == raw[i].drop_last());
            }
        }
    }
}

/// The ionosphere frames read from lines are read from lines that are alike.
proof fn lemma_alike_frames(a: Seq<Seq<u8>>, b: Seq<Seq<u8>>, gs: Seq<(int, int, bool)>)
    requires
        alike_lines(a, b),
        forall|i: int|
            0 <= i < gs.len() ==> 0 <= (#[trigger] gs[i]).0 < gs[i].1 && gs[i].1 <= a.len(),
    ensures
        scan_ion_frames(a, gs) matches Ok(found) ==> scan_ion_frames(b, gs) == Ok::<
            Seq<IonFrame>,
            Fault,
        >(found),
    decreases gs.len(),
{
    if gs.len() > 0 {
        let g = gs.last();
        assert(g == gs[gs.len() - 1]);
        assert forall|i: int| 0 <= i < gs.drop_last().len() implies 0 <= (
        #[trigger] gs.drop_last()[i]).0 < gs.drop_last()[i].1 && gs.drop_last()[i].1 <= a.len() by {
            assert(gs.drop_last()[i] == gs[i]);
        }
        lemma_alike_frames(a, b, gs.drop_last());
        let (p, q) = (a.subrange(g.0, g.1), b.subrange(g.0, g.1));
        assert forall|i: int| 0 <= i < p.len() implies alike(#[trigger] p[i], q[i]) by {
            assert(alike(a[g.0 + i], b[g.0 + i]));
        }
        lemma_alike_block(p, q, g.2);
    }
}

/// A header that is read where a version is required is read alike where none is.
proof fn lemma_scan_either(lines: Seq<Seq<u8>>, from: int, scan: Scan)
    ensures
        scan_lines(lines, from, scan, true) matches Ok(read) ==> scan_lines(
            lines,
            from,
            scan,
            false,
        ) == Ok::<(Scan, int, bool), Fault>(read),
    decreases lines.len() - from,
{
    if 0 <= from < lines.len() && label_of(lines[from]) != Label::End {
        if let Ok(next) = scanned(scan, lines[from], from + 1, true) {
            assert(scanned(scan, lines[from], from + 1, false) == Ok::<Scan, Fault>(next)) by {
                reveal(scanned);
            }
            lemma_scan_either(lines, from + 1, next);
        }
    }
}

/// An ephemeris frame holds no ionosphere model.
#[verifier::spinoff_prover]
proof fn lemma_eph_no_ion(marker: Seq<u8>, body: Seq<Seq<u8>>, version: NavVersion)
    ensures
        !(eph_frame(marker, body, version).content is Ion),
{
}

/// A system time offset or Earth orientation frame holds no ionosphere model.
#[verifier::spinoff_prover]
proof fn lemma_data_no_ion(frame: Seq<u8>, marker: Seq<u8>, body: Seq<Seq<u8>>)
    requires
        frame == utf8("STO"@) || frame == utf8("EOP"@),
    ensures
        !(data_frame(frame, marker, body).content is Ion),
{
    lemma_message_tokens();
}

/// What a block of a RINEX 4 file holds is what the ionosphere reader finds in it.
proof fn lemma_block_ion(block: Seq<Seq<u8>>, version: NavVersion, file_type: char)
    requires
        version.major >= 4,
    ensures
        ion_frame_in(block, false) matches Ok(found) ==> found == (match block_of(
            block,
            version,
            file_type,
        ).content {
            Content::Ion(f) => Some(f),
            _ => None,
        }),
{
    reveal(block_of);
    reveal(ion_frame_in);
    let marker = first_line(block);
    let frame = frame_type_of(marker);
    let body = frame_body(block);
    if frame == utf8("STO"@) || frame == utf8("EOP"@) {
        lemma_data_no_ion(frame, marker, body);
    }
    lemma_eph_no_ion(marker, body, version);
    lemma_message_tokens();
    assert(v4_block(block, version) == (if frame == utf8("STO"@) || frame == utf8("EOP"@) || frame
        == utf8("ION"@) {
        data_frame(frame, marker, body)
    } else {
        eph_frame(marker, body, version)
    }));
}

/// The part of an entry that is an ionosphere frame.
pub open spec fn ion_part(e: Entry) -> Seq<IonFrame> {
    match e.block.content {
        Content::Ion(f) => seq![f],
        _ => Seq::empty(),
    }
}

/// The ionosphere frames of the first blocks of a body are those of the first entries.
proof fn lemma_ion_prefix(
    raw: Seq<Seq<u8>>,
    lines: Seq<Seq<u8>>,
    start: int,
    version: NavVersion,
    file_type: char,
    k: int,
)
    requires
        version.major == 4,
        0 <= start <= lines.len(),
        ({
            let body = lines.subrange(start, lines.len() as int);
            let gs = groups(body, 4);
            0 <= k <= gs.len() && scan_ion_frames(body, gs.subrange(0, k)) is Ok
        }),
    ensures
        ({
            let body = lines.subrange(start, lines.len() as int);
            let gs = groups(body, 4);
            let entries = body_entries(raw, lines, start, version, file_type);
            scan_ion_frames(body, gs.subrange(0, k))->Ok_0 == ion_of(entries.subrange(0, k))
        }),
    decreases k,
{
    let body = lines.subrange(start, lines.len() as int);
    let gs = groups(body, 4);
    let entries = body_entries(raw, lines, start, version, file_type);
    let now = entries.subrange(0, k);
    if k == 0 {
        assert(gs.subrange(0, 0) =~= Seq::empty());
        assert(ion_of(now) =~= Seq::empty());
    } else {
        assert(gs.subrange(0, k).drop_last() =~= gs.subrange(0, k - 1));
        assert(gs.subrange(0, k).last() == gs[k - 1]);
        lemma_ion_prefix(raw, lines, start, version, file_type, k - 1);
        let g = gs[k - 1];
        crate::body::law_groups_partition(body, 4);
        assert(body.subrange(g.0, g.1) =~= lines.subrange(start + g.0, start + g.1));
        let block = lines.subrange(start + g.0, start + g.1);
        lemma_block_ion(block, version, file_type);
        let e = group_entry(raw, lines, start, g, version, file_type);
        assert(now.drop_last() =~= entries.subrange(0, k - 1));
        assert(now.last() == e);
        reveal(ion_frame_in);
        assert(ion_of(now) == ion_of(entries.subrange(0, k - 1)) + ion_part(e));
        let before = ion_of(entries.subrange(0, k - 1));
        match e.block.content {
            Content::Ion(f) => {
                assert(before + seq![f] =~= before.push(f));
            },
            _ => {
                assert(before + Seq::<IonFrame>::empty() =~= before);
            },
        }
    }
}

/// The ionosphere coefficients of a store read from a RINEX 4 text are those of
/// [`crate::file::parse_iono_corrections`], where both read the text.
pub proof fn law_store_ionosphere(b: Seq<u8>)
    requires
        file_of(b) matches Ok(file) && file.header.version.major == 4,
        iono_corrections_of(b) is Ok,
    ensures
        ({
            let store = store_of(file_of(b)->Ok_0);
            iono_corrections_of(b) == Ok::<IonoCorrections, Fault>(
                effect_of(store.iono, store.frames, None),
            )
        }),
{
    let file = file_of(b)->Ok_0;
    let raw = lines_of(b).lines;
    let lines = contents(raw);
    let plain = plain_lines(b);
    lemma_same_lines(b);
    let (h, start, issues) = header_of(lines, true)->Ok_0;
    lemma_scan_either(lines, 0, empty_scan());
    crate::write::lemma_scan_advances(lines, 0, empty_scan());
    lemma_alike_scan(plain, lines, 0, empty_scan(), empty_scan(), false);
    let body = lines.subrange(start, lines.len() as int);
    let plain_body = plain.subrange(start, plain.len() as int);
    assert forall|i: int| 0 <= i < plain_body.len() implies alike(
        #[trigger] plain_body[i],
        body[i],
    ) by {
        assert(alike(plain[start + i], lines[start + i]));
    }
    lemma_alike_groups(plain_body, body);
    let gs = groups(body, 4);
    crate::body::law_groups_partition(body, 4);
    lemma_alike_frames(plain_body, body, gs);
    assert(gs.subrange(0, gs.len() as int) =~= gs);
    lemma_ion_prefix(raw, lines, start, h.version, h.file_type, gs.len() as int);
    assert(file.entries.subrange(0, gs.len() as int) =~= file.entries);
}

/// A store built from records has no ionosphere coefficients.
pub proof fn law_built_store_ionosphere()
    ensures
        effect_of(no_iono(), Seq::empty(), None) == no_iono(),
{
}

} // verus!

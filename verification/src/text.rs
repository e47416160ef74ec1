//! Fixed-column text: byte columns, blanks and words of a line.
//!
//! Column positions are byte positions. A column range whose ends do not fall between two
//! characters, or that reaches past the end of the line, holds nothing.

use vstd::prelude::*;
use vstd::utf8::*;

verus! {

/// The bytes of a text.
pub open spec fn utf8(chars: Seq<char>) -> Seq<u8> {
    encode_utf8(chars)
}

/// The bytes of lines.
pub open spec fn texts(lines: Seq<&str>) -> Seq<Seq<u8>> {
    lines.map_values(|line: &str| utf8(line@))
}

/// Whether `index` falls between two characters of UTF-8 text `b`.
pub open spec fn boundary(b: Seq<u8>, index: int) -> bool {
    ||| index == 0
    ||| index == b.len()
    ||| 0 < index < b.len() && !(0x80 <= b[index] <= 0xbf)
}

/// The bytes `start..end` of `b`; empty where `b` does not hold that range as text.
pub open spec fn slice_of(b: Seq<u8>, start: int, end: int) -> Seq<u8> {
    if 0 <= start <= end <= b.len() && boundary(b, start) && boundary(b, end) {
        b.subrange(start, end)
    } else {
        Seq::empty()
    }
}

/// The columns `start..end` of line `b`, cut at the end of the line.
pub open spec fn columns(b: Seq<u8>, start: int, end: int) -> Seq<u8> {
    slice_of(b, start, if end <= b.len() { end } else { b.len() as int })
}

/// The number of bytes of the white-space character at `i`, 0 where none stands there.
pub open spec fn space_at(b: Seq<u8>, i: int) -> int {
    if !(0 <= i < b.len()) {
        0
    } else if 9 <= b[i] <= 13 || b[i] == 32 {
        1
    } else if i + 1 < b.len() && b[i] == 0xc2 && (b[i + 1] == 0x85 || b[i + 1] == 0xa0) {
        2
    } else if i + 2 < b.len() && wide_space(b[i], b[i + 1], b[i + 2]) {
        3
    } else {
        0
    }
}

/// Whether the three bytes encode a white-space character: U+1680, U+2000 to U+200A, U+2028,
/// U+2029, U+202F, U+205F or U+3000.
pub open spec fn wide_space(b0: u8, b1: u8, b2: u8) -> bool {
    ||| b0 == 0xe1 && b1 == 0x9a && b2 == 0x80
    ||| b0 == 0xe2 && b1 == 0x80 && (0x80 <= b2 <= 0x8a || b2 == 0xa8 || b2 == 0xa9 || b2 == 0xaf)
    ||| b0 == 0xe2 && b1 == 0x81 && b2 == 0x9f
    ||| b0 == 0xe3 && b1 == 0x80 && b2 == 0x80
}

/// The first position at or after `i` where no white space stands.
pub open spec fn skip_space(b: Seq<u8>, i: int) -> int
    decreases b.len() - i,
{
    if space_at(b, i) > 0 {
        skip_space(b, i + space_at(b, i))
    } else {
        i
    }
}

/// The number of bytes of the white-space character that ends at `end`, 0 where none does.
pub open spec fn space_before(b: Seq<u8>, end: int) -> int {
    let t = b.subrange(0, end);
    if space_at(t, end - 1) == 1 {
        1
    } else if space_at(t, end - 2) == 2 {
        2
    } else if space_at(t, end - 3) == 3 {
        3
    } else {
        0
    }
}

/// The end of the text before the white space that ends at `end`, at least `start`.
pub open spec fn drop_space(b: Seq<u8>, start: int, end: int) -> int
    decreases end,
{
    if 0 <= start < end && space_before(b, end) > 0 && end - space_before(b, end) >= start {
        drop_space(b, start, end - space_before(b, end))
    } else {
        end
    }
}

/// `b` without the white space at its end.
pub open spec fn trim_end_of(b: Seq<u8>) -> Seq<u8> {
    b.subrange(0, drop_space(b, 0, b.len() as int))
}

/// `b` without the white space at its start and end.
pub open spec fn trim_of(b: Seq<u8>) -> Seq<u8> {
    let start = skip_space(b, 0);
    b.subrange(start, drop_space(b, start, b.len() as int))
}

/// Whether `b` holds white space only.
pub open spec fn blank(b: Seq<u8>) -> bool {
    trim_of(b).len() == 0
}

/// The end of the word that runs through `i`.
pub open spec fn word_end(b: Seq<u8>, i: int) -> int
    decreases b.len() - i,
{
    if i >= b.len() || space_at(b, i) > 0 {
        i
    } else {
        word_end(b, i + 1)
    }
}

/// The words of `b` from position `i` on, as the positions where each starts and ends.
pub open spec fn word_spans(b: Seq<u8>, i: int) -> Seq<(int, int)>
    decreases b.len() - i,
    via word_spans_decreases
{
    let start = skip_space(b, i);
    if !(0 <= i <= start) || start >= b.len() {
        Seq::empty()
    } else {
        let end = word_end(b, start + 1);
        seq![(start, end)] + word_spans(b, end)
    }
}

#[via_fn]
proof fn word_spans_decreases(b: Seq<u8>, i: int) {
    lemma_skip_space(b, i);
    if skip_space(b, i) < b.len() {
        lemma_word_end(b, skip_space(b, i) + 1);
    }
}

/// The words of `b`: its maximal runs without white space.
pub open spec fn words_of(b: Seq<u8>) -> Seq<Seq<u8>> {
    word_spans(b, 0).map_values(|span: (int, int)| b.subrange(span.0, span.1))
}

/// Skipping white space moves forward, not past the end of the text.
pub proof fn lemma_skip_space(b: Seq<u8>, i: int)
    ensures
        i <= skip_space(b, i),
        i <= b.len() ==> skip_space(b, i) <= b.len(),
        space_at(b, skip_space(b, i)) == 0,
    decreases b.len() - i,
{
    if space_at(b, i) > 0 {
        lemma_skip_space(b, i + space_at(b, i));
    }
}

/// A word ends at or after the position it runs through, within the text.
pub proof fn lemma_word_end(b: Seq<u8>, i: int)
    ensures
        i <= word_end(b, i),
        i <= b.len() ==> word_end(b, i) <= b.len(),
    decreases b.len() - i,
{
    if !(i >= b.len() || space_at(b, i) > 0) {
        lemma_word_end(b, i + 1);
    }
}

/// The words of a text stand one after the other.
pub proof fn lemma_spans_ordered(b: Seq<u8>, i: int)
    requires
        0 <= i,
    ensures
        forall|j: int, k: int|
            0 <= j <= k < word_spans(b, i).len() ==> i <= (#[trigger] word_spans(b, i)[j]).0
                <= (#[trigger] word_spans(b, i)[k]).0,
    decreases b.len() - i,
{
    lemma_skip_space(b, i);
    let start = skip_space(b, i);
    if start < b.len() {
        let end = word_end(b, start + 1);
        lemma_word_end(b, start + 1);
        lemma_spans_ordered(b, end);
        let all = word_spans(b, i);
        let rest = word_spans(b, end);
        assert(all == seq![(start, end)] + rest);
        assert forall|j: int, k: int| 0 <= j <= k < all.len() implies i <= (#[trigger] all[j]).0
            <= (#[trigger] all[k]).0 by {
            if j > 0 {
                assert(all[j] == rest[j - 1]);
            }
            if k > 0 {
                assert(all[k] == rest[k - 1]);
            }
        }
    }
}

/// Dropping white space from the end stays between the start and the end.
pub proof fn lemma_drop_space(b: Seq<u8>, start: int, end: int)
    requires
        0 <= start <= end <= b.len(),
    ensures
        start <= drop_space(b, start, end) <= end,
    decreases end,
{
    if start < end && space_before(b, end) > 0 && end - space_before(b, end) >= start {
        lemma_drop_space(b, start, end - space_before(b, end));
    }
}

/// In UTF-8 text a white-space character ends between two characters.
proof fn lemma_space_boundary(b: Seq<u8>, i: int)
    requires
        valid_utf8(b),
        boundary(b, i),
        space_at(b, i) > 0,
    ensures
        boundary(b, i + space_at(b, i)),
{
    let w = space_at(b, i);
    is_char_boundary_start_end_of_seq(b);
    is_char_boundary_iff_not_is_continuation_byte(b, i);
    valid_utf8_split(b, i);
    let rest = b.subrange(i, b.len() as int);
    assert(valid_utf8(rest));
    assert(valid_first_scalar(rest));
    assert(rest[0] == b[i]);
    let tail = pop_first_scalar(rest);
    assert(valid_utf8(tail));
    assert(length_of_first_scalar(rest) == w);
    if i + w < b.len() {
        assert(tail.len() == rest.len() - w);
        assert(tail[0] == b[i + w]);
        assert(valid_first_scalar(tail));
    }
}

/// In UTF-8 text an ASCII character ends between two characters.
pub proof fn lemma_ascii_boundary(chars: Seq<char>, i: int)
    requires
        0 <= i < utf8(chars).len(),
        utf8(chars)[i] < 0x80,
    ensures
        boundary(utf8(chars), i),
        boundary(utf8(chars), i + 1),
{
    let b = utf8(chars);
    encode_utf8_valid_utf8(chars);
    is_char_boundary_start_end_of_seq(b);
    is_char_boundary_iff_not_is_continuation_byte(b, i);
    valid_utf8_split(b, i);
    let rest = b.subrange(i, b.len() as int);
    assert(valid_utf8(rest));
    assert(valid_first_scalar(rest));
    assert(rest[0] == b[i]);
    let tail = pop_first_scalar(rest);
    assert(valid_utf8(tail));
    assert(length_of_first_scalar(rest) == 1);
    if i + 1 < b.len() {
        assert(tail[0] == b[i + 1]);
        assert(valid_first_scalar(tail));
    }
}

/// The text between two positions of `s`; empty where the range is not text of `s`.
pub fn slice<'a>(s: &'a str, start: usize, end: usize) -> (r: &'a str)
    ensures
        utf8(r@) == slice_of(utf8(s@), start as int, end as int),
{
    proof {
        encode_utf8_valid_utf8(s@);
        is_char_boundary_start_end_of_seq(utf8(s@));
        if 0 < start < utf8(s@).len() {
            is_char_boundary_iff_not_is_continuation_byte(utf8(s@), start as int);
        }
        if 0 < end < utf8(s@).len() {
            is_char_boundary_iff_not_is_continuation_byte(utf8(s@), end as int);
        }
    }
    let len: usize = s.as_bytes().len();
    if start > end || end > len || !s.is_char_boundary(start) || !s.is_char_boundary(end) {
        let (nothing, _rest) = s.split_at(0);
        assert(utf8(nothing@) =~= Seq::<u8>::empty());
        return nothing;
    }
    let (head, _tail) = s.split_at(end);
    proof {
        encode_utf8_valid_utf8(head@);
        is_char_boundary_start_end_of_seq(utf8(head@));
        if 0 < start < end {
            is_char_boundary_iff_not_is_continuation_byte(utf8(head@), start as int);
        }
    }
    let (_before, r) = head.split_at(start);
    assert(utf8(r@) =~= utf8(s@).subrange(start as int, end as int));
    r
}

/// The columns `start..end` of a line, cut at the end of the line.
pub fn raw_field<'a>(line: &'a str, start: usize, end: usize) -> (r: &'a str)
    ensures
        utf8(r@) == columns(utf8(line@), start as int, end as int),
        start <= end ==> utf8(r@).len() <= end - start,
{
    let len: usize = line.as_bytes().len();
    let stop: usize = if end <= len {
        end
    } else {
        len
    };
    slice(line, start, stop)
}

/// The number of bytes of the white-space character at `i` of `b`, 0 where none stands there.
fn space_width(b: &[u8], i: usize) -> (w: usize)
    ensures
        w == space_at(b@, i as int),
{
    let len: usize = b.len();
    if i >= len {
        return 0;
    }
    let b0: u8 = b[i];
    if (9 <= b0 && b0 <= 13) || b0 == 32 {
        return 1;
    }
    if b0 < 0xc2 || len - i < 2 {
        return 0;
    }
    let b1: u8 = b[i + 1];
    if b0 == 0xc2 && (b1 == 0x85 || b1 == 0xa0) {
        return 2;
    }
    if len - i < 3 {
        return 0;
    }
    let b2: u8 = b[i + 2];
    if (b0 == 0xe1 && b1 == 0x9a && b2 == 0x80) || (b0 == 0xe2 && b1 == 0x80 && ((0x80 <= b2 && b2
        <= 0x8a) || b2 == 0xa8 || b2 == 0xa9 || b2 == 0xaf)) || (b0 == 0xe2 && b1 == 0x81 && b2
        == 0x9f) || (b0 == 0xe3 && b1 == 0x80 && b2 == 0x80) {
        return 3;
    }
    0
}

/// The number of bytes of the white-space character that ends at `end` of `b`.
fn space_width_before(b: &[u8], end: usize) -> (w: usize)
    requires
        end <= b@.len(),
    ensures
        w == space_before(b@, end as int),
{
    if end >= 1 {
        let c: u8 = b[end - 1];
        if (9 <= c && c <= 13) || c == 32 {
            return 1;
        }
    }
    if end >= 2 {
        let c0: u8 = b[end - 2];
        let c1: u8 = b[end - 1];
        if c0 == 0xc2 && (c1 == 0x85 || c1 == 0xa0) {
            return 2;
        }
    }
    if end >= 3 {
        let b0: u8 = b[end - 3];
        let b1: u8 = b[end - 2];
        let b2: u8 = b[end - 1];
        if (b0 == 0xe1 && b1 == 0x9a && b2 == 0x80) || (b0 == 0xe2 && b1 == 0x80 && ((0x80 <= b2
            && b2 <= 0x8a) || b2 == 0xa8 || b2 == 0xa9 || b2 == 0xaf)) || (b0 == 0xe2 && b1 == 0x81
            && b2 == 0x9f) || (b0 == 0xe3 && b1 == 0x80 && b2 == 0x80) {
            return 3;
        }
    }
    0
}

/// The first position at or after `from`, between two characters, where no white space stands.
fn space_end(s: &str, from: usize) -> (i: usize)
    requires
        from <= utf8(s@).len(),
        boundary(utf8(s@), from as int),
    ensures
        i == skip_space(utf8(s@), from as int),
        from <= i <= utf8(s@).len(),
        boundary(utf8(s@), i as int),
{
    let b = s.as_bytes();
    let mut i: usize = from;
    proof {
        encode_utf8_valid_utf8(s@);
    }
    loop
        invariant_except_break
            b@ == utf8(s@),
            valid_utf8(b@),
            from <= i <= b@.len(),
            boundary(b@, i as int),
            skip_space(b@, i as int) == skip_space(b@, from as int),
        ensures
            from <= i <= b@.len(),
            boundary(b@, i as int),
            i == skip_space(b@, from as int),
        decreases b@.len() - i,
    {
        let w: usize = space_width(b, i);
        if w == 0 {
            break;
        }
        proof {
            lemma_space_boundary(b@, i as int);
        }
        assert(i + w <= b.len());
        i = i + w;
    }
    i
}

/// The end of the text of `s` before the white space at its end, at least `start`.
fn text_end(s: &str, start: usize) -> (e: usize)
    requires
        start <= utf8(s@).len(),
    ensures
        e == drop_space(utf8(s@), start as int, utf8(s@).len() as int),
        start <= e <= utf8(s@).len(),
        boundary(utf8(s@), start as int) ==> boundary(utf8(s@), e as int),
{
    let b = s.as_bytes();
    let mut e: usize = b.len();
    loop
        invariant_except_break
            b@ == utf8(s@),
            start <= e <= b@.len(),
            boundary(b@, e as int),
            drop_space(b@, start as int, e as int) == drop_space(
                b@,
                start as int,
                b@.len() as int,
            ),
        ensures
            start <= e <= b@.len(),
            boundary(b@, e as int),
            e == drop_space(b@, start as int, b@.len() as int),
        decreases e,
    {
        if e <= start {
            break;
        }
        let w: usize = space_width_before(b, e);
        if w == 0 || e - start < w {
            break;
        }
        e = e - w;
        assert(b@.subrange(0, e + w)[e as int] == b@[e as int]);
    }
    e
}

/// `s` without the white space at its end.
pub fn trim_end<'a>(s: &'a str) -> (r: &'a str)
    ensures
        utf8(r@) == trim_end_of(utf8(s@)),
{
    let e: usize = text_end(s, 0);
    slice(s, 0, e)
}

/// `s` without the white space at its start and end.
pub fn trim<'a>(s: &'a str) -> (r: &'a str)
    ensures
        utf8(r@) == trim_of(utf8(s@)),
        utf8(r@).len() <= utf8(s@).len(),
{
    let start: usize = space_end(s, 0);
    let e: usize = text_end(s, start);
    slice(s, start, e)
}

/// Whether `s` holds white space only.
pub fn is_blank(s: &str) -> (r: bool)
    ensures
        r == blank(utf8(s@)),
{
    trim(s).as_bytes().len() == 0
}

/// The positions where each word of `s` from position `from` on starts and ends.
pub fn word_positions(s: &str, from: usize) -> (r: Vec<(usize, usize)>)
    requires
        from <= utf8(s@).len(),
        boundary(utf8(s@), from as int),
    ensures
        r@.len() == word_spans(utf8(s@), from as int).len(),
        forall|k: int|
            0 <= k < r@.len() ==> (r@[k].0 as int, r@[k].1 as int) == #[trigger] word_spans(
                utf8(s@),
                from as int,
            )[k],
        forall|k: int|
            0 <= k < r@.len() ==> from <= (#[trigger] r@[k]).0 < r@[k].1 <= utf8(s@).len()
                && boundary(utf8(s@), r@[k].0 as int) && boundary(
                utf8(s@),
                r@[k].1 as int,
            ),
{
    let b = s.as_bytes();
    let mut out: Vec<(usize, usize)> = Vec::new();
    let mut i: usize = from;
    let ghost all = word_spans(b@, from as int);
    assert(Seq::<(int, int)>::empty() + word_spans(b@, i as int) =~= all);
    let ghost mut done: Seq<(int, int)> = Seq::empty();
    loop
        invariant_except_break
            b@ == utf8(s@),
            from <= i <= b@.len(),
            boundary(b@, i as int),
            all == word_spans(b@, from as int),
            done + word_spans(b@, i as int) == all,
        invariant
            b@ == utf8(s@),
            done.len() == out@.len(),
            forall|k: int|
                0 <= k < out@.len() ==> (out@[k].0 as int, out@[k].1 as int) == #[trigger] done[k],
            forall|k: int|
                0 <= k < out@.len() ==> from <= (#[trigger] out@[k]).0 < out@[k].1 <= b@.len()
                    && boundary(b@, out@[k].0 as int) && boundary(b@, out@[k].1 as int),
        ensures
            done == all,
        decreases b@.len() - i,
    {
        let start: usize = space_end(s, i);
        if start >= b.len() {
            assert(word_spans(b@, i as int) =~= Seq::empty());
            assert(done + word_spans(b@, i as int) =~= done);
            break;
        }
        let mut e: usize = start + 1;
        while e < b.len() && space_width(b, e) == 0
            invariant
                b@ == utf8(s@),
                start < e <= b@.len(),
                word_end(b@, e as int) == word_end(b@, start + 1),
            decreases b@.len() - e,
        {
            e = e + 1;
        }
        assert(e == word_end(b@, start + 1));
        assert(boundary(b@, e as int));
        out.push((start, e));
        proof {
            let span = (start as int, e as int);
            assert(word_spans(b@, i as int) == seq![span] + word_spans(b@, e as int));
            assert(done + (seq![span] + word_spans(b@, e as int)) =~= done.push(span) + word_spans(
                b@,
                e as int,
            ));
            done = done.push(span);
        }
        i = e;
    }
    out
}

/// Whether two texts hold the same bytes.
pub fn same(a: &str, b: &str) -> (r: bool)
    ensures
        r == (utf8(a@) == utf8(b@)),
{
    let x = a.as_bytes();
    let y = b.as_bytes();
    if x.len() != y.len() {
        return false;
    }
    let mut i: usize = 0;
    while i < x.len()
        invariant
            x@ == utf8(a@),
            y@ == utf8(b@),
            x@.len() == y@.len(),
            i <= x@.len(),
            forall|k: int| 0 <= k < i ==> x@[k] == y@[k],
        decreases x@.len() - i,
    {
        if x[i] != y[i] {
            return false;
        }
        i = i + 1;
    }
    assert(x@ =~= y@);
    true
}

/// The bytes of two texts in a row.
pub proof fn lemma_utf8_concat(a: Seq<char>, b: Seq<char>)
    ensures
        utf8(a + b) == utf8(a) + utf8(b),
    decreases a.len(),
{
    if a.len() == 0 {
        assert(a + b =~= b);
        assert(utf8(a) + utf8(b) =~= utf8(b));
    } else {
        lemma_utf8_concat(a.drop_first(), b);
        assert((a + b).drop_first() =~= a.drop_first() + b);
        assert((a + b)[0] == a[0]);
        assert(utf8(a + b) =~= encode_scalar(a[0] as u32) + (utf8(a.drop_first()) + utf8(b)));
        assert(utf8(a) + utf8(b) =~= encode_scalar(a[0] as u32) + (utf8(a.drop_first()) + utf8(b)));
    }
}

/// Two texts of the same bytes are the same text: what is stated of a text's bytes is stated of the
/// text.
pub proof fn law_utf8_injective(a: Seq<char>, b: Seq<char>)
    requires
        utf8(a) == utf8(b),
    ensures
        a == b,
{
    encode_utf8_decode_utf8(a);
    encode_utf8_decode_utf8(b);
}

/// The bytes of a text of ASCII characters are its characters.
pub proof fn lemma_utf8_ascii(a: Seq<char>)
    requires
        is_ascii_chars(a),
    ensures
        utf8(a) == Seq::new(a.len(), |i: int| a[i] as u8),
{
    is_ascii_chars_encode_utf8(a);
    assert(utf8(a) =~= Seq::new(a.len(), |i: int| a[i] as u8));
}

/// Add `s` at the end of `out`.
pub fn push(out: &mut String, s: &str)
    ensures
        utf8(final(out)@) == utf8(old(out)@) + utf8(s@),
{
    proof {
        lemma_utf8_concat(out@, s@);
    }
    out.append(s);
}

/// `n` blanks.
pub open spec fn spaces(n: nat) -> Seq<u8> {
    Seq::new(n, |i: int| 32u8)
}

/// Add `n` blanks at the end of `out`.
pub fn push_spaces(out: &mut String, n: usize)
    ensures
        utf8(final(out)@) == utf8(old(out)@) + spaces(n as nat),
{
    let ghost before = utf8(out@);
    let mut i: usize = 0;
    assert(before + spaces(0) =~= before);
    while i < n
        invariant
            i <= n,
            utf8(out@) == before + spaces(i as nat),
        decreases n - i,
    {
        proof {
            reveal_strlit(" ");
            lemma_utf8_ascii(" "@);
            assert(before + spaces(i as nat) + utf8(" "@) =~= before + spaces((i + 1) as nat));
        }
        push(out, " ");
        i = i + 1;
    }
}

/// The empty text.
pub fn no_text() -> (r: &'static str)
    ensures
        utf8(r@) == Seq::<u8>::empty(),
{
    proof {
        reveal_strlit("");
        assert(utf8(""@) =~= Seq::<u8>::empty());
    }
    ""
}

/// The text `s` as a value of its own.
pub fn own(s: &str) -> (r: String)
    ensures
        utf8(r@) == utf8(s@),
{
    s.to_owned()
}

/// The bytes of an optional text.
pub open spec fn opt_utf8(text: Option<String>) -> Option<Seq<u8>> {
    match text {
        Some(s) => Some(utf8(s@)),
        None => None,
    }
}

/// The text of the columns `start..end` of a line, white space around it aside; `None` where it
/// is blank.
pub open spec fn text_at(line: Seq<u8>, start: int, end: int) -> Option<Seq<u8>> {
    let t = trim_of(columns(line, start, end));
    if t.len() == 0 {
        None
    } else {
        Some(t)
    }
}

/// The text of the columns `start..end` of a line (see [`text_at`]).
pub fn optional_text(line: &str, start: usize, end: usize) -> (r: Option<String>)
    ensures
        opt_utf8(r) == text_at(utf8(line@), start as int, end as int),
{
    let value = trim(raw_field(line, start, end));
    if value.as_bytes().len() == 0 {
        None
    } else {
        Some(own(value))
    }
}

/// Whether two optional texts hold the same bytes.
pub fn same_option(a: &Option<String>, b: &Option<String>) -> (r: bool)
    ensures
        r == (opt_utf8(*a) == opt_utf8(*b)),
{
    match (a, b) {
        (Some(x), Some(y)) => same(x.as_str(), y.as_str()),
        (None, None) => true,
        _ => false,
    }
}

/// A copy of an optional text.
pub fn copy_option(a: &Option<String>) -> (r: Option<String>)
    ensures
        opt_utf8(r) == opt_utf8(*a),
{
    match a {
        Some(x) => Some(own(x.as_str())),
        None => None,
    }
}

/// `String::push` of the standard library: it adds one character at the end of a text.
pub assume_specification[ std::string::String::push ](s: &mut String, c: char)
    ensures
        final(s)@ == old(s)@.push(c),
;

/// Add one character at the end of `out`.
pub fn push_char(out: &mut String, c: char)
    ensures
        utf8(final(out)@) == utf8(old(out)@) + utf8(seq![c]),
{
    proof {
        lemma_utf8_concat(out@, seq![c]);
        assert(out@.push(c) =~= out@ + seq![c]);
    }
    out.push(c);
}

/// The bytes of owned lines.
pub open spec fn strings(lines: Seq<String>) -> Seq<Seq<u8>> {
    lines.map_values(|line: String| utf8(line@))
}

/// Copies of the lines `from..to`.
pub fn own_lines(lines: &Vec<&str>, from: usize, to: usize) -> (r: Vec<String>)
    requires
        from <= to <= lines@.len(),
    ensures
        strings(r@) == texts(lines@).subrange(from as int, to as int),
{
    let mut out: Vec<String> = Vec::new();
    let mut i: usize = from;
    while i < to
        invariant
            from <= i <= to <= lines@.len(),
            strings(out@) == texts(lines@).subrange(from as int, i as int),
        decreases to - i,
    {
        let ghost before = out@;
        out.push(own(lines[i]));
        assert(strings(out@) =~= strings(before).push(texts(lines@)[i as int]));
        assert(texts(lines@).subrange(from as int, i + 1) =~= texts(lines@).subrange(
            from as int,
            i as int,
        ).push(texts(lines@)[i as int]));
        i = i + 1;
    }
    assert(strings(out@) =~= texts(lines@).subrange(from as int, to as int));
    out
}

/// Add copies of lines at the end of `out`.
pub fn extend_lines(out: &mut Vec<String>, lines: &Vec<String>)
    ensures
        strings(final(out)@) == strings(old(out)@) + strings(lines@),
{
    let ghost before = out@;
    let mut i: usize = 0;
    assert(strings(before) + strings(lines@).subrange(0, 0) =~= strings(before));
    while i < lines.len()
        invariant
            i <= lines@.len(),
            strings(out@) == strings(before) + strings(lines@).subrange(0, i as int),
        decreases lines@.len() - i,
    {
        let ghost now = out@;
        out.push(own(lines[i].as_str()));
        assert(strings(out@) =~= strings(now).push(strings(lines@)[i as int]));
        assert(strings(now).push(strings(lines@)[i as int]) =~= strings(before) + strings(
            lines@,
        ).subrange(0, i + 1));
        i = i + 1;
    }
    assert(strings(lines@).subrange(0, i as int) =~= strings(lines@));
}

/// Whether two lists of lines hold the same bytes.
pub fn same_lines(a: &Vec<String>, b: &Vec<String>) -> (r: bool)
    ensures
        r == (strings(a@) == strings(b@)),
{
    if a.len() != b.len() {
        assert(strings(a@).len() != strings(b@).len());
        return false;
    }
    let mut i: usize = 0;
    while i < a.len()
        invariant
            a@.len() == b@.len(),
            i <= a@.len(),
            forall|k: int| 0 <= k < i ==> strings(a@)[k] == strings(b@)[k],
        decreases a@.len() - i,
    {
        if !same(a[i].as_str(), b[i].as_str()) {
            assert(strings(a@)[i as int] != strings(b@)[i as int]);
            return false;
        }
        i = i + 1;
    }
    assert(strings(a@) =~= strings(b@));
    true
}

/// The lines of a text, without the `LF` that ends each: one more than it has `LF`s.
pub open spec fn split_lf(b: Seq<u8>) -> Seq<Seq<u8>>
    decreases b.len(),
{
    if b.len() == 0 {
        seq![b]
    } else if b.last() == 10 {
        split_lf(b.drop_last()).push(Seq::empty())
    } else {
        let head = split_lf(b.drop_last());
        head.drop_last().push(head.last().push(b.last()))
    }
}

/// A text has at least one line.
pub proof fn lemma_split_lf(b: Seq<u8>)
    ensures
        split_lf(b).len() >= 1,
    decreases b.len(),
{
    if b.len() > 0 {
        lemma_split_lf(b.drop_last());
    }
}

/// The lines of a text (see [`split_lf`]).
pub fn split_newlines<'a>(text: &'a str) -> (r: Vec<&'a str>)
    ensures
        texts(r@) == split_lf(utf8(text@)),
        r@.len() >= 1,
{
    let b = text.as_bytes();
    let mut out: Vec<&'a str> = Vec::new();
    let mut start: usize = 0;
    let mut i: usize = 0;
    assert(texts(out@).push(b@.subrange(0, 0)) =~= split_lf(b@.subrange(0, 0)));
    while i < b.len()
        invariant
            b@ == utf8(text@),
            start <= i <= b@.len(),
            boundary(b@, start as int),
            texts(out@).push(b@.subrange(start as int, i as int)) == split_lf(
                b@.subrange(0, i as int),
            ),
        decreases b@.len() - i,
    {
        let ghost before = out@;
        let ghost head = b@.subrange(0, i as int);
        let ghost next = b@.subrange(0, i + 1);
        assert(next.drop_last() =~= head);
        assert(next.last() == b@[i as int]);
        if b[i] == 10 {
            proof {
                lemma_ascii_boundary(text@, i as int);
            }
            out.push(slice(text, start, i));
            assert(texts(out@) =~= texts(before).push(b@.subrange(start as int, i as int)));
            start = i + 1;
            assert(b@.subrange(start as int, i + 1) =~= Seq::empty());
        } else {
            assert(b@.subrange(start as int, i + 1) =~= b@.subrange(start as int, i as int).push(
                b@[i as int],
            ));
            let ghost pieces = texts(before).push(b@.subrange(start as int, i as int));
            assert(pieces.drop_last() =~= texts(before));
        }
        i = i + 1;
    }
    let ghost before = out@;
    assert(b@.subrange(0, i as int) =~= b@);
    out.push(slice(text, start, i));
    assert(texts(out@) =~= texts(before).push(b@.subrange(start as int, i as int)));
    out
}

/// Lines each followed by `LF` but the last.
pub open spec fn join_lf(lines: Seq<Seq<u8>>) -> Seq<u8>
    decreases lines.len(),
{
    if lines.len() == 0 {
        Seq::empty()
    } else if lines.len() == 1 {
        lines[0]
    } else {
        join_lf(lines.drop_last()).push(10) + lines.last()
    }
}

/// Joining the lines of a text gives the text.
pub proof fn lemma_join_split(b: Seq<u8>)
    ensures
        join_lf(split_lf(b)) == b,
    decreases b.len(),
{
    lemma_split_lf(b);
    if b.len() > 0 {
        let head = b.drop_last();
        let h = split_lf(head);
        lemma_join_split(head);
        lemma_split_lf(head);
        let s = split_lf(b);
        assert(b =~= head.push(b.last()));
        if b.last() == 10 {
            assert(s.drop_last() =~= h);
            assert(join_lf(s) =~= b);
        } else {
            assert(s.drop_last() =~= h.drop_last());
            assert(s.last() == h.last().push(b.last()));
            if h.len() == 1 {
                assert(join_lf(s) =~= b);
            } else {
                assert(join_lf(s) =~= join_lf(h).push(b.last()));
            }
        }
    }
}

} // verus!

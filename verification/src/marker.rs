//! Where the blocks of a body start, and RINEX 4 frame markers.

use vstd::prelude::*;

use crate::decimal::{digit, integer_text, read_integer};
use crate::error::{bad_field, Fault, NavParseError};
use crate::id::{satellite_of_token, system_of_letter, GnssSatelliteId, GnssSystem};
use crate::record::NavMessage;
use crate::text::{
    boundary, no_text, same, slice, slice_of, texts, trim, trim_of, utf8, word_positions,
    word_spans,
};

verus! {

/// Whether a byte is an ASCII letter.
pub open spec fn letter(b: u8) -> bool {
    65 <= b <= 90 || 97 <= b <= 122
}

/// Whether a byte is an ASCII letter.
fn is_letter(b: u8) -> (r: bool)
    ensures
        r == letter(b),
{
    (65 <= b && b <= 90) || (97 <= b && b <= 122)
}

/// Whether a line starts a RINEX 3 (or lettered RINEX 2) record: a system letter, then a PRN of
/// one or two digits in columns 2-3, the one-digit form written `G 1` with a space in column 2.
pub open spec fn record_start(line: Seq<u8>) -> bool {
    line.len() >= 3 && letter(line[0]) && (digit(line[1]) || line[1] == 32) && digit(line[2])
}

/// Whether a line starts a RINEX 3 (or lettered RINEX 2) record (see [`record_start`]).
pub fn is_record_start(line: &str) -> (r: bool)
    ensures
        r == record_start(utf8(line@)),
{
    let b = line.as_bytes();
    b.len() >= 3 && is_letter(b[0]) && ((48 <= b[1] && b[1] <= 57) || b[1] == 32) && 48 <= b[2]
        && b[2] <= 57
}

/// Whether a line starts a RINEX 2 record with a numeric `I2` PRN: a PRN in columns 1-2, a blank
/// column 3, and a two-digit year in columns 4-5.
pub open spec fn v2_record_start(line: Seq<u8>) -> bool {
    line.len() >= 5 && (line[0] == 32 || digit(line[0])) && digit(line[1]) && line[2] == 32 && (
    line[3] == 32 || digit(line[3])) && digit(line[4])
}

/// Whether a line starts a RINEX 2 record with a numeric PRN (see [`v2_record_start`]).
pub fn is_v2_numeric_record_start(line: &str) -> (r: bool)
    ensures
        r == v2_record_start(utf8(line@)),
{
    let b = line.as_bytes();
    b.len() >= 5 && (b[0] == 32 || (48 <= b[0] && b[0] <= 57)) && 48 <= b[1] && b[1] <= 57 && b[2]
        == 32 && (b[3] == 32 || (48 <= b[3] && b[3] <= 57)) && 48 <= b[4] && b[4] <= 57
}

/// Whether a version-4 line is a frame marker (`> ...`).
pub open spec fn frame_marker(line: Seq<u8>) -> bool {
    line.len() >= 2 && line[0] == 62 && line[1] == 32
}

/// Whether a version-4 line is a frame marker (`> ...`).
pub fn is_v4_frame_marker(line: &str) -> (r: bool)
    ensures
        r == frame_marker(utf8(line@)),
{
    let b = line.as_bytes();
    b.len() >= 2 && b[0] == 62 && b[1] == 32
}

/// Whether a text holds digits only.
pub open spec fn all_digits(b: Seq<u8>) -> bool {
    forall|k: int| 0 <= k < b.len() ==> digit(#[trigger] b[k])
}

/// Whether a text holds digits only.
fn only_digits(s: &str) -> (r: bool)
    ensures
        r == all_digits(utf8(s@)),
{
    let b = s.as_bytes();
    crate::decimal::digits_end(b, 0) == b.len() || {
        proof {
            crate::decimal::lemma_digit_run(b@, 0);
        }
        false
    }
}

/// The satellite token of a block: the first three columns of its first line.
pub open spec fn block_satellite(block: Seq<Seq<u8>>) -> Seq<u8> {
    if block.len() == 0 {
        Seq::empty()
    } else {
        trim_of(slice_of(block[0], 0, 3))
    }
}

/// The satellite token of a block (see [`block_satellite`]).
pub fn nav_block_satellite<'a>(block: &[&'a str]) -> (r: &'a str)
    ensures
        utf8(r@) == block_satellite(texts(block@)),
{
    if block.len() == 0 {
        no_text()
    } else {
        trim(slice(block[0], 0, 3))
    }
}

/// Where the words of a frame marker start: after its `>`.
pub open spec fn marker_from(marker: Seq<u8>) -> int {
    if marker.len() > 0 && marker[0] == 62 {
        1
    } else {
        0
    }
}

/// The word `k` of a frame marker.
pub open spec fn marker_word(marker: Seq<u8>, k: int) -> Seq<u8> {
    let spans = word_spans(marker, marker_from(marker));
    marker.subrange(spans[k].0, spans[k].1)
}

/// The number of words of a frame marker.
pub open spec fn marker_words(marker: Seq<u8>) -> int {
    word_spans(marker, marker_from(marker)).len() as int
}

/// The words `j` and `k` of a frame marker with what stands between them.
pub open spec fn marker_span(marker: Seq<u8>, j: int, k: int) -> Seq<u8> {
    let spans = word_spans(marker, marker_from(marker));
    marker.subrange(spans[j].0, spans[k].1)
}

/// What an ephemeris frame's marker names.
pub ghost enum EphMarker {
    /// A satellite and a message token.
    Eph(Seq<u8>, Seq<u8>),
    /// A frame of another kind.
    Other,
}

/// The satellite token of an ephemeris frame's marker and the number of the word after it. A
/// satellite may be written with its letter and its number apart.
pub open spec fn marker_satellite(marker: Seq<u8>) -> Result<(Seq<u8>, int), Fault> {
    let first = marker_word(marker, 1);
    if !letter(first[0]) {
        Err(bad_field(first, "system"))
    } else if first.len() == 1 {
        if marker_words(marker) < 3 || !all_digits(marker_word(marker, 2)) {
            Err(bad_field(first, "prn"))
        } else if marker_word(marker, 2).len() > 2 {
            Err(bad_field(marker_span(marker, 1, 2), "prn"))
        } else {
            Ok((marker_span(marker, 1, 2), 3))
        }
    } else {
        let number = first.subrange(1, first.len() as int);
        if !all_digits(number) || number.len() > 2 {
            Err(bad_field(first, "prn"))
        } else {
            Ok((first, 2))
        }
    }
}

/// What the marker of a frame names, or what is wrong with it; `body_sat` is the satellite the
/// frame's body names.
pub open spec fn eph_marker(marker: Seq<u8>, body_sat: Seq<u8>) -> Result<EphMarker, Fault> {
    let n = marker_words(marker);
    if n == 0 {
        Err(bad_field(body_sat, "frame marker"))
    } else if marker_word(marker, 0) == utf8("ION"@) || marker_word(marker, 0) == utf8("STO"@)
        || marker_word(marker, 0) == utf8("EOP"@) {
        Ok(EphMarker::Other)
    } else if marker_word(marker, 0) != utf8("EPH"@) {
        Err(bad_field(body_sat, "frame marker"))
    } else if n < 2 {
        Err(bad_field(body_sat, "prn"))
    } else {
        match marker_satellite(marker) {
            Err(fault) => Err(fault),
            Ok((sv, next)) => if n <= next {
                Err(bad_field(sv, "message"))
            } else if n > next + 1 {
                Err(bad_field(sv, "frame marker"))
            } else {
                Ok(EphMarker::Eph(sv, marker_word(marker, next)))
            },
        }
    }
}

/// What an ephemeris frame's marker names.
pub enum V4MarkerHeader<'a> {
    /// A satellite and a message token.
    Eph {
        /// The satellite token.
        sv: &'a str,
        /// The message token.
        msg_token: &'a str,
    },
    /// A frame of another kind.
    RecognizedNonEph,
}

/// What a [`V4MarkerHeader`] names.
pub open spec fn marker_view(marker: V4MarkerHeader<'_>) -> EphMarker {
    match marker {
        V4MarkerHeader::Eph { sv, msg_token } => EphMarker::Eph(utf8(sv@), utf8(msg_token@)),
        V4MarkerHeader::RecognizedNonEph => EphMarker::Other,
    }
}

/// The positions of the words of a frame marker.
struct MarkerWords<'a> {
    marker: &'a str,
    spans: Vec<(usize, usize)>,
}

impl<'a> MarkerWords<'a> {
    spec fn wf(&self) -> bool {
        let b = utf8(self.marker@);
        &&& self.spans@.len() == marker_words(b)
        &&& forall|k: int|
            0 <= k < self.spans@.len() ==> (self.spans@[k].0 as int, self.spans@[k].1 as int)
                == #[trigger] word_spans(b, marker_from(b))[k]
        &&& forall|k: int|
            0 <= k < self.spans@.len() ==> (#[trigger] self.spans@[k]).0 < self.spans@[k].1
                <= b.len() && boundary(b, self.spans@[k].0 as int) && boundary(
                b,
                self.spans@[k].1 as int,
            )
        &&& forall|j: int, k: int|
            0 <= j <= k < self.spans@.len() ==> (#[trigger] self.spans@[j]).0
                <= (#[trigger] self.spans@[k]).0
    }

    fn new(marker: &'a str) -> (r: MarkerWords<'a>)
        ensures
            r.wf(),
            r.marker == marker,
    {
        let b = marker.as_bytes();
        let from: usize = if b.len() > 0 && b[0] == 62 {
            proof {
                crate::text::lemma_ascii_boundary(marker@, 0);
            }
            1
        } else {
            0
        };
        let spans = word_positions(marker, from);
        proof {
            crate::text::lemma_spans_ordered(b@, from as int);
            let all = word_spans(b@, from as int);
            assert forall|j: int, k: int| 0 <= j <= k < spans@.len() implies (#[trigger] spans@[j]).0
                <= (#[trigger] spans@[k]).0 by {
                assert(all[j].0 <= all[k].0);
                assert((spans@[j].0 as int, spans@[j].1 as int) == all[j]);
                assert((spans@[k].0 as int, spans@[k].1 as int) == all[k]);
            }
        }
        MarkerWords { marker, spans }
    }

    /// The words `j` to `k` with what stands between them.
    fn span(&self, j: usize, k: usize) -> (r: &'a str)
        requires
            self.wf(),
            j <= k < self.spans@.len(),
        ensures
            utf8(r@) == marker_span(utf8(self.marker@), j as int, k as int),
            utf8(r@).len() >= 1,
    {
        let ghost b = utf8(self.marker@);
        assert(word_spans(b, marker_from(b))[j as int] == (
            self.spans@[j as int].0 as int,
            self.spans@[j as int].1 as int,
        ));
        assert(word_spans(b, marker_from(b))[k as int] == (
            self.spans@[k as int].0 as int,
            self.spans@[k as int].1 as int,
        ));
        assert(self.spans@[j as int].0 <= self.spans@[k as int].0);
        slice(self.marker, self.spans[j].0, self.spans[k].1)
    }

    /// The word `k`.
    fn word(&self, k: usize) -> (r: &'a str)
        requires
            self.wf(),
            k < self.spans@.len(),
        ensures
            utf8(r@) == marker_word(utf8(self.marker@), k as int),
            utf8(r@).len() >= 1,
    {
        self.span(k, k)
    }

    /// The satellite token and the number of the word after it (see [`marker_satellite`]).
    fn satellite(&self) -> (r: Result<(&'a str, usize), NavParseError>)
        requires
            self.wf(),
            self.spans@.len() >= 2,
        ensures
            match r {
                Ok((sv, next)) => marker_satellite(utf8(self.marker@)) == Ok::<
                    (Seq<u8>, int),
                    Fault,
                >((utf8(sv@), next as int)),
                Err(e) => marker_satellite(utf8(self.marker@)) == Err::<(Seq<u8>, int), Fault>(e@),
            },
            r matches Ok((sv, next)) ==> utf8(sv@).len() >= 1 && 2 <= next <= 3,
    {
        let first = self.word(1);
        let fb = first.as_bytes();
        if !is_letter(fb[0]) {
            return Err(NavParseError::bad(first, "system"));
        }
        if fb.len() == 1 {
            if self.spans.len() < 3 {
                return Err(NavParseError::bad(first, "prn"));
            }
            let number = self.word(2);
            if !only_digits(number) {
                return Err(NavParseError::bad(first, "prn"));
            }
            let combined = self.span(1, 2);
            if number.as_bytes().len() > 2 {
                return Err(NavParseError::bad(combined, "prn"));
            }
            Ok((combined, 3))
        } else {
            proof {
                crate::text::lemma_ascii_boundary(first@, 0);
            }
            let number = slice(first, 1, fb.len());
            if !only_digits(number) || number.as_bytes().len() > 2 {
                return Err(NavParseError::bad(first, "prn"));
            }
            Ok((first, 2))
        }
    }
}

/// Read the marker of an ephemeris frame (see [`eph_marker`]).
pub fn parse_v4_eph_marker<'a>(marker: &'a str, body: &[&str]) -> (r: Result<
    V4MarkerHeader<'a>,
    NavParseError,
>)
    ensures
        match r {
            Ok(m) => eph_marker(utf8(marker@), block_satellite(texts(body@))) == Ok::<
                EphMarker,
                Fault,
            >(marker_view(m)),
            Err(e) => eph_marker(utf8(marker@), block_satellite(texts(body@))) == Err::<
                EphMarker,
                Fault,
            >(e@),
        },
        r matches Ok(V4MarkerHeader::Eph { sv, msg_token }) ==> utf8(sv@).len() >= 1,
        r matches Err(e) ==> e is BadField,
{
    let body_sat = nav_block_satellite(body);
    let words = MarkerWords::new(marker);
    let n: usize = words.spans.len();
    if n == 0 {
        return Err(NavParseError::bad(body_sat, "frame marker"));
    }
    let frame_type = words.word(0);
    if same(frame_type, "ION") || same(frame_type, "STO") || same(frame_type, "EOP") {
        return Ok(V4MarkerHeader::RecognizedNonEph);
    }
    if !same(frame_type, "EPH") {
        return Err(NavParseError::bad(body_sat, "frame marker"));
    }
    if n < 2 {
        return Err(NavParseError::bad(body_sat, "prn"));
    }
    let (sv, next): (&'a str, usize) = match words.satellite() {
        Ok(found) => found,
        Err(e) => {
            return Err(e);
        },
    };
    if n <= next {
        return Err(NavParseError::bad(sv, "message"));
    }
    if n > next + 1 {
        return Err(NavParseError::bad(sv, "frame marker"));
    }
    Ok(V4MarkerHeader::Eph { sv, msg_token: words.word(next) })
}

/// The frame type, satellite and message token of a frame marker `> EPH G01 LNAV`; `None` where
/// one is missing. A satellite may be written with its letter and its number of one or two digits
/// apart.
pub open spec fn frame_words(marker: Seq<u8>) -> Option<(Seq<u8>, Seq<u8>, Seq<u8>)> {
    let n = marker_words(marker);
    if marker_from(marker) == 0 || n < 3 {
        None
    } else {
        let first = marker_word(marker, 1);
        let number = marker_word(marker, 2);
        if first.len() == 1 && letter(first[0]) && all_digits(number) && number.len() <= 2 {
            if n < 4 {
                None
            } else {
                Some((marker_word(marker, 0), marker_span(marker, 1, 2), marker_word(marker, 3)))
            }
        } else {
            Some((marker_word(marker, 0), first, number))
        }
    }
}

/// Split a version-4 frame marker into frame type, satellite and message token (see
/// [`frame_words`]).
pub fn parse_v4_marker<'a>(line: &'a str) -> (r: Option<(&'a str, &'a str, &'a str)>)
    ensures
        match r {
            Some((frame, sv, token)) => frame_words(utf8(line@)) == Some(
                (utf8(frame@), utf8(sv@), utf8(token@)),
            ) && utf8(sv@).len() >= 1,
            None => frame_words(utf8(line@)) is None,
        },
{
    let b = line.as_bytes();
    if b.len() == 0 || b[0] != 62 {
        return None;
    }
    let words = MarkerWords::new(line);
    let n: usize = words.spans.len();
    if n < 3 {
        return None;
    }
    let first = words.word(1);
    let number = words.word(2);
    let fb = first.as_bytes();
    if fb.len() == 1 && is_letter(fb[0]) && only_digits(number) && number.as_bytes().len() <= 2 {
        if n < 4 {
            None
        } else {
            Some((words.word(0), words.span(1, 2), words.word(3)))
        }
    } else {
        Some((words.word(0), first, number))
    }
}

/// The type of a frame: the first word of its marker, empty where it has none.
pub open spec fn frame_type_of(marker: Seq<u8>) -> Seq<u8> {
    if marker_words(marker) == 0 {
        Seq::empty()
    } else {
        marker_word(marker, 0)
    }
}

/// The type of a frame (see [`frame_type_of`]).
pub fn frame_type<'a>(marker: &'a str) -> (r: &'a str)
    ensures
        utf8(r@) == frame_type_of(utf8(marker@)),
{
    let words = MarkerWords::new(marker);
    if words.spans.len() == 0 {
        no_text()
    } else {
        words.word(0)
    }
}

/// The decoded Keplerian message a version-4 EPH message token names for a system. `CNV2` is
/// system-overloaded: GPS/QZSS CNV2 is decoded as CNAV-2, while BeiDou CNV2 is a different roster
/// and is not decoded.
pub open spec fn message_of_token(token: Seq<u8>, system: GnssSystem) -> Option<NavMessage> {
    match system {
        GnssSystem::Gps => if token == utf8("LNAV"@) {
            Some(NavMessage::GpsLnav)
        } else if token == utf8("CNAV"@) {
            Some(NavMessage::GpsCnav)
        } else if token == utf8("CNV2"@) {
            Some(NavMessage::GpsCnav2)
        } else {
            None
        },
        GnssSystem::Qzss => if token == utf8("LNAV"@) {
            Some(NavMessage::QzssLnav)
        } else if token == utf8("CNAV"@) {
            Some(NavMessage::QzssCnav)
        } else if token == utf8("CNV2"@) {
            Some(NavMessage::QzssCnav2)
        } else {
            None
        },
        GnssSystem::Galileo => if token == utf8("INAV"@) {
            Some(NavMessage::GalileoInav)
        } else if token == utf8("FNAV"@) {
            Some(NavMessage::GalileoFnav)
        } else {
            None
        },
        GnssSystem::BeiDou => if token == utf8("D1"@) {
            Some(NavMessage::BeidouD1)
        } else if token == utf8("D2"@) {
            Some(NavMessage::BeidouD2)
        } else {
            None
        },
        GnssSystem::Navic => if token == utf8("LNAV"@) {
            Some(NavMessage::NavicLnav)
        } else {
            None
        },
        _ => None,
    }
}

/// The decoded Keplerian message a version-4 EPH message token names (see [`message_of_token`]).
pub fn nav_message_from_v4_token(token: &str, system: GnssSystem) -> (r: Option<NavMessage>)
    ensures
        r == message_of_token(utf8(token@), system),
{
    match system {
        GnssSystem::Gps => if same(token, "LNAV") {
            Some(NavMessage::GpsLnav)
        } else if same(token, "CNAV") {
            Some(NavMessage::GpsCnav)
        } else if same(token, "CNV2") {
            Some(NavMessage::GpsCnav2)
        } else {
            None
        },
        GnssSystem::Qzss => if same(token, "LNAV") {
            Some(NavMessage::QzssLnav)
        } else if same(token, "CNAV") {
            Some(NavMessage::QzssCnav)
        } else if same(token, "CNV2") {
            Some(NavMessage::QzssCnav2)
        } else {
            None
        },
        GnssSystem::Galileo => if same(token, "INAV") {
            Some(NavMessage::GalileoInav)
        } else if same(token, "FNAV") {
            Some(NavMessage::GalileoFnav)
        } else {
            None
        },
        GnssSystem::BeiDou => if same(token, "D1") {
            Some(NavMessage::BeidouD1)
        } else if same(token, "D2") {
            Some(NavMessage::BeidouD2)
        } else {
            None
        },
        GnssSystem::Navic => if same(token, "LNAV") {
            Some(NavMessage::NavicLnav)
        } else {
            None
        },
        _ => None,
    }
}

/// Whether two tokens name the same satellite; tokens that name none have to be the same text.
pub open spec fn tokens_match(a: Seq<u8>, b: Seq<u8>) -> bool {
    match (satellite_of_token(a), satellite_of_token(b)) {
        (Some(x), Some(y)) => x == y,
        _ => a == b,
    }
}

/// Whether two tokens name the same satellite (see [`tokens_match`]).
pub fn satellites_match(marker_sv: &str, body_sv: &str) -> (r: bool)
    ensures
        r == tokens_match(utf8(marker_sv@), utf8(body_sv@)),
{
    match (GnssSatelliteId::parse(marker_sv), GnssSatelliteId::parse(body_sv)) {
        (Some(marker), Some(body)) => marker == body,
        _ => same(marker_sv, body_sv),
    }
}

/// Whether a message is one of a system.
pub open spec fn message_matches(message: NavMessage, system: GnssSystem) -> bool {
    match message {
        NavMessage::GpsLnav | NavMessage::GpsCnav | NavMessage::GpsCnav2 => system
            == GnssSystem::Gps,
        NavMessage::QzssLnav | NavMessage::QzssCnav | NavMessage::QzssCnav2 => system
            == GnssSystem::Qzss,
        NavMessage::GalileoInav | NavMessage::GalileoFnav => system == GnssSystem::Galileo,
        NavMessage::BeidouD1 | NavMessage::BeidouD2 => system == GnssSystem::BeiDou,
        NavMessage::NavicLnav => system == GnssSystem::Navic,
        NavMessage::GalileoUnclassified => false,
    }
}

/// Whether a message is one of a system (see [`message_matches`]).
pub fn nav_message_matches_system(message: NavMessage, system: GnssSystem) -> (r: bool)
    ensures
        r == message_matches(message, system),
{
    matches!(
        (message, system),
        (NavMessage::GpsLnav | NavMessage::GpsCnav | NavMessage::GpsCnav2, GnssSystem::Gps)
            | (NavMessage::QzssLnav | NavMessage::QzssCnav | NavMessage::QzssCnav2, GnssSystem::Qzss)
            | (NavMessage::GalileoInav | NavMessage::GalileoFnav, GnssSystem::Galileo)
            | (NavMessage::BeidouD1 | NavMessage::BeidouD2, GnssSystem::BeiDou)
            | (NavMessage::NavicLnav, GnssSystem::Navic)
    )
}

/// What is wrong with an ephemeris frame's body, given the satellite and message of its marker: a
/// body that names another satellite, or one of a system the message is not of. A body that names
/// no satellite is left to its reader.
pub open spec fn marker_fault(sv: Seq<u8>, message: NavMessage, body: Seq<Seq<u8>>) -> Option<
    Fault,
> {
    let body_sv = block_satellite(body);
    if body_sv.len() == 0 {
        None
    } else if !tokens_match(sv, body_sv) {
        Some(bad_field(sv, "frame marker"))
    } else {
        match system_of_letter(body_sv[0]) {
            None => Some(bad_field(body_sv, "system")),
            Some(system) => if message_matches(message, system) {
                None
            } else {
                Some(bad_field(body_sv, "message"))
            },
        }
    }
}

/// Hold an ephemeris frame's body to its marker (see [`marker_fault`]).
pub fn validate_v4_ephemeris_marker(marker_sv: &str, message: NavMessage, body: &[&str]) -> (r:
    Result<(), NavParseError>)
    ensures
        match r {
            Ok(()) => marker_fault(utf8(marker_sv@), message, texts(body@)) is None,
            Err(e) => marker_fault(utf8(marker_sv@), message, texts(body@)) == Some(e@),
        },
{
    let body_sv = nav_block_satellite(body);
    let bb = body_sv.as_bytes();
    if bb.len() == 0 {
        return Ok(());
    }
    if !satellites_match(marker_sv, body_sv) {
        return Err(NavParseError::bad(marker_sv, "frame marker"));
    }
    match GnssSystem::from_letter(bb[0]) {
        None => Err(NavParseError::bad(body_sv, "system")),
        Some(system) => if nav_message_matches_system(message, system) {
            Ok(())
        } else {
            Err(NavParseError::bad(body_sv, "message"))
        },
    }
}

/// The system the first letter of a token names.
pub open spec fn token_system(token: Seq<u8>) -> Option<GnssSystem> {
    if token.len() == 0 {
        None
    } else {
        system_of_letter(token[0])
    }
}

/// The system the first letter of a token names.
pub fn system_of_token(token: &str) -> (r: Option<GnssSystem>)
    ensures
        r == token_system(utf8(token@)),
{
    let b = token.as_bytes();
    if b.len() == 0 {
        None
    } else {
        GnssSystem::from_letter(b[0])
    }
}

/// The system of the records of a RINEX 2 file type.
pub open spec fn v2_system(file_type: char) -> GnssSystem {
    if file_type == 'G' {
        GnssSystem::Glonass
    } else if file_type == 'H' {
        GnssSystem::Sbas
    } else if file_type == 'J' {
        GnssSystem::Qzss
    } else if file_type == 'L' {
        GnssSystem::Galileo
    } else {
        GnssSystem::Gps
    }
}

/// The system of the records of a RINEX 2 file type.
pub fn v2_file_system(file_type: char) -> (r: GnssSystem)
    ensures
        r == v2_system(file_type),
{
    if file_type == 'G' {
        GnssSystem::Glonass
    } else if file_type == 'H' {
        GnssSystem::Sbas
    } else if file_type == 'J' {
        GnssSystem::Qzss
    } else if file_type == 'L' {
        GnssSystem::Galileo
    } else {
        GnssSystem::Gps
    }
}

/// The satellite a RINEX 2 record with a numeric PRN names, by the file type: `N` GPS (PRN 93-97
/// are QZSS 193-197), `G` GLONASS, `H` SBAS (the PRN less 100), `J` QZSS, `L` Galileo.
pub open spec fn v2_satellite(prn_field: Seq<u8>, file_type: char) -> Option<GnssSatelliteId> {
    let system = v2_system(file_type);
    match integer_text(trim_of(prn_field)) {
        None => None,
        Some(n) => if !(1 <= n <= 99) {
            None
        } else if system == GnssSystem::Gps && 93 <= n <= 97 {
            Some(GnssSatelliteId { system: GnssSystem::Qzss, prn: (n - 92) as u8 })
        } else {
            Some(GnssSatelliteId { system, prn: n as u8 })
        },
    }
}

/// The satellite a RINEX 2 record with a numeric PRN names (see [`v2_satellite`]).
pub fn v2_numeric_satellite(prn_field: &str, file_type: char) -> (r: Option<GnssSatelliteId>)
    requires
        utf8(prn_field@).len() <= 19,
    ensures
        r == v2_satellite(utf8(prn_field@), file_type),
{
    let system = v2_file_system(file_type);
    match read_integer(trim(prn_field)) {
        None => None,
        Some(n) => if n < 1 || n > 99 {
            None
        } else if system == GnssSystem::Gps && 93 <= n && n <= 97 {
            GnssSatelliteId::new(GnssSystem::Qzss, (n - 92) as u8)
        } else {
            GnssSatelliteId::new(system, n as u8)
        },
    }
}

} // verus!

//! What satellite and message tokens name, and where blocks start.

use vstd::prelude::*;

use crate::body::{
    block_of, data_block, data_kind, eph_block, frame_body, starts_block, Content, Reason,
};
use crate::cnav::cnav_record;
use crate::decimal::{digit, digits_text, lemma_pow10_values, natural, pow10};
use crate::entry_reread::{lemma_data_marker, lemma_data_prefixes};
use crate::fields::Layout;
use crate::frame_reread::lemma_drop_to;
use crate::frames::{EarthOrientation, SystemTimeOffset};
use crate::geo::sbas_record;
use crate::glonass::glonass_record;
use crate::id::{
    satellite_of_token, system_of_letter, token_of_satellite, GnssSatelliteId, GnssSystem,
};
use crate::keplerian::keplerian_record;
use crate::lines::marker_text;
use crate::marker::{
    block_satellite, eph_marker, letter, message_matches, message_of_token, token_system,
    v2_satellite, EphMarker,
};
use crate::numerals::{digits_only, law_integer, lemma_place_value, place_value};
use crate::positions::{law_ionosphere_columns, law_offset_columns, law_orientation_columns};
use crate::record::{NavMessage, NavVersion};
use crate::reread::lemma_token;
use crate::restate::{lemma_marker_reads, lemma_message_tokens, word};
use crate::text::{lemma_utf8_ascii, slice_of, space_at, spaces, trim_of, utf8};
use crate::write::token_of_message;

verus! {

/// The letter of a system.
pub open spec fn letter_of(system: GnssSystem) -> char {
    match system {
        GnssSystem::Gps => 'G',
        GnssSystem::Glonass => 'R',
        GnssSystem::Galileo => 'E',
        GnssSystem::BeiDou => 'C',
        GnssSystem::Qzss => 'J',
        GnssSystem::Navic => 'I',
        GnssSystem::Sbas => 'S',
    }
}

/// A satellite token is the letter of the system and a number of one or two digits, not zero; any
/// such token names the satellite of that system and number.
pub proof fn law_satellite_token(token: Seq<u8>)
    ensures
        match satellite_of_token(token) {
            Some(sat) => {
                let number = trim_of(token.drop_first());
                &&& token.len() > 0
                &&& token[0] as char == letter_of(sat.system)
                &&& digits_only(number)
                &&& 1 <= number.len() <= 2
                &&& sat.prn == place_value(number)
                &&& 1 <= sat.prn <= 99
            },
            None => token.len() == 0 || (forall|system: GnssSystem|
                token[0] as char != #[trigger] letter_of(system)) || ({
                let number = trim_of(token.drop_first());
                ||| !digits_only(number)
                ||| number.len() == 0
                ||| number.len() > 2
                ||| place_value(number) == 0
            }),
        },
{
    if token.len() > 0 {
        assert(token.drop_first() =~= token.subrange(1, token.len() as int));
        let number = trim_of(token.drop_first());
        if digits_only(number) && 1 <= number.len() <= 2 {
            lemma_place_value(number);
            lemma_pow10_values();
            lemma_two_digits(number);
        }
        if satellite_of_token(token) is None {
            if let Some(system) = system_of_letter(token[0]) {
                assert forall|k: int| 0 <= k < number.len() implies (digit(#[trigger] number[k])
                    <==> 48 <= number[k] <= 57) by {}
                if digits_only(number) && 1 <= number.len() <= 2 && place_value(number) > 0 {
                    assert forall|k: int| 0 <= k < number.len() implies digit(
                        #[trigger] number[k],
                    ) by {}
                    assert(natural(number) > 0);
                }
            } else {
                assert forall|system: GnssSystem| token[0] as char != #[trigger] letter_of(
                    system,
                ) by {}
            }
        } else {
            assert(digits_only(number)) by {
                assert forall|k: int| 0 <= k < number.len() implies 48 <= #[trigger] number[k]
                    <= 57 by {
                    assert(digit(number[k]));
                }
            }
            lemma_place_value(number);
            lemma_two_digits(number);
            lemma_pow10_values();
        }
    }
}

/// Two digits state less than a hundred.
proof fn lemma_two_digits(b: Seq<u8>)
    requires
        digits_only(b),
        b.len() <= 2,
    ensures
        natural(b) < 100,
{
    lemma_place_value(b);
    reveal_with_fuel(place_value, 3);
    assert(pow10(0) == 1 && pow10(1) == 10) by {
        lemma_pow10_values();
    }
    if b.len() == 1 {
        let x = (b[0] - 48) as nat;
        assert(x * pow10(0) <= 9) by (nonlinear_arith)
            requires
                x <= 9,
                pow10(0) == 1,
        ;
        assert(place_value(b.drop_first()) == 0);
    } else if b.len() == 2 {
        let x = (b[0] - 48) as nat;
        let rest = b.drop_first();
        let y = (rest[0] - 48) as nat;
        assert(rest[0] == b[1]);
        assert(x * pow10(1) <= 90) by (nonlinear_arith)
            requires
                x <= 9,
                pow10(1) == 10,
        ;
        assert(y * pow10(0) <= 9) by (nonlinear_arith)
            requires
                y <= 9,
                pow10(0) == 1,
        ;
        assert(place_value(rest.drop_first()) == 0);
        assert(place_value(rest) == y * pow10(0) + place_value(rest.drop_first()));
    }
}

/// A satellite is written as the letter of its system and its number in two digits.
pub proof fn law_satellite_written(sat: GnssSatelliteId)
    requires
        sat.wf(),
    ensures
        ({
            let t = token_of_satellite(sat);
            &&& t.len() == 3
            &&& t[0] as char == letter_of(sat.system)
            &&& 48 <= t[1] <= 57 && 48 <= t[2] <= 57
            &&& 10 * (t[1] - 48) + (t[2] - 48) == sat.prn
        }),
{
    lemma_token(sat);
    reveal_with_fuel(digits_text, 3);
    let t = token_of_satellite(sat);
    let d = digits_text(sat.prn as nat, 2);
    assert(t[1] == d[0] && t[2] == d[1]);
}

/// In RINEX 2 the file type names the system, `N` for GPS, `G` for GLONASS, `H` for SBAS, `J` for
/// QZSS and `L` for Galileo, and the two columns of the number the satellite; GPS numbers 93 to 97
/// are the QZSS satellites 1 to 5.
pub proof fn law_v2_satellite(digits: Seq<u8>, file_type: char)
    requires
        digits_only(digits),
        1 <= digits.len() <= 2,
    ensures
        ({
            let n = place_value(digits);
            match v2_satellite(digits, file_type) {
                Some(sat) => 1 <= n && (if file_type == 'G' {
                    sat.system is Glonass && sat.prn == n
                } else if file_type == 'H' {
                    sat.system is Sbas && sat.prn == n
                } else if file_type == 'J' {
                    sat.system is Qzss && sat.prn == n
                } else if file_type == 'L' {
                    sat.system is Galileo && sat.prn == n
                } else if 93 <= n <= 97 {
                    sat.system is Qzss && sat.prn + 92 == n
                } else {
                    sat.system is Gps && sat.prn == n
                }),
                None => n == 0,
            }
        }),
{
    assert(trim_of(digits) == digits) by {
        let n = digits.len() as int;
        assert(space_at(digits, 0) == 0) by {
            assert(48 <= digits[0] <= 57);
        }
        lemma_drop_to(digits, 0, n, n);
        assert(digits.subrange(0, n) =~= digits);
    }
    lemma_two_digits(digits);
    lemma_place_value(digits);
    law_integer(Seq::empty(), digits);
    assert(Seq::<u8>::empty() + digits =~= digits);
    assert(Seq::<u8>::empty() != seq![45u8]) by {
        assert(seq![45u8].len() == 1);
    }
}

/// The token of a message.
pub open spec fn message_name(message: NavMessage) -> Seq<u8> {
    match message {
        NavMessage::GpsLnav | NavMessage::QzssLnav | NavMessage::NavicLnav => utf8("LNAV"@),
        NavMessage::GpsCnav | NavMessage::QzssCnav => utf8("CNAV"@),
        NavMessage::GpsCnav2 | NavMessage::QzssCnav2 => utf8("CNV2"@),
        NavMessage::GalileoInav => utf8("INAV"@),
        NavMessage::GalileoFnav => utf8("FNAV"@),
        NavMessage::BeidouD1 => utf8("D1"@),
        NavMessage::BeidouD2 => utf8("D2"@),
        NavMessage::GalileoUnclassified => Seq::empty(),
    }
}

/// The system that transmits a message.
pub open spec fn message_system(message: NavMessage) -> GnssSystem {
    match message {
        NavMessage::GpsLnav | NavMessage::GpsCnav | NavMessage::GpsCnav2 => GnssSystem::Gps,
        NavMessage::QzssLnav | NavMessage::QzssCnav | NavMessage::QzssCnav2 => GnssSystem::Qzss,
        NavMessage::GalileoInav | NavMessage::GalileoFnav | NavMessage::GalileoUnclassified =>
        GnssSystem::Galileo,
        NavMessage::BeidouD1 | NavMessage::BeidouD2 => GnssSystem::BeiDou,
        NavMessage::NavicLnav => GnssSystem::Navic,
    }
}

/// A message token of a system names the message of that system and token, and a token that is no
/// such message's names none; a message matches the system that transmits it, and is written by its
/// token.
pub proof fn law_message_token(token: Seq<u8>, system: GnssSystem, message: NavMessage)
    requires
        !(message is GalileoUnclassified),
    ensures
        message_of_token(token, system) == Some(message) <==> token == message_name(message)
            && system == message_system(message),
        message_of_token(token, system) != Some(NavMessage::GalileoUnclassified),
        message_matches(message, system) <==> system == message_system(message),
        token_of_message(message) == Some(message_name(message)),
{
    lemma_message_tokens();
}

/// A RINEX 4 block starts at a line whose first characters are `>` and a blank, a RINEX 3 block at one
/// that starts with a letter, a digit or a blank, and a digit, and a RINEX 2 block also at a number of
/// at most two digits before a blank and a year of at most two digits.
pub proof fn law_block_start(line: Seq<u8>)
    ensures
        starts_block(line, 4) <==> line.len() >= 2 && line[0] as char == '>' && line[1] as char
            == ' ',
        starts_block(line, 3) <==> line.len() >= 3 && ('A' <= line[0] as char && line[0] as char
            <= 'Z' || 'a' <= line[0] as char && line[0] as char <= 'z') && (line[1] as char == ' '
            || 48 <= line[1] <= 57) && 48 <= line[2] <= 57,
        starts_block(line, 2) <==> starts_block(line, 3) || line.len() >= 5 && (line[0] as char == ' '
            || 48 <= line[0] <= 57) && 48 <= line[1] <= 57 && line[2] as char == ' ' && (line[3]
            as char == ' ' || 48 <= line[3] <= 57) && 48 <= line[4] <= 57,
{
}

/// A frame marker `> EPH`, a satellite and a message is read as that satellite and message.
pub proof fn law_ephemeris_marker(sat: GnssSatelliteId, message: Seq<u8>, body_sat: Seq<u8>)
    requires
        sat.wf(),
        word(message),
    ensures
        ({
            let marker = utf8("> EPH "@) + token_of_satellite(sat) + seq![32u8] + message;
            &&& eph_marker(marker, body_sat) matches Ok(EphMarker::Eph(sv, token))
            &&& token == message
            &&& satellite_of_token(sv) == Some(sat)
        }),
{
    lemma_marker_reads(sat, message, body_sat);
    lemma_token(sat);
    assert(spaces(1) =~= seq![32u8]);
    assert(marker_text(utf8("> EPH "@), sat, message) =~= utf8("> EPH "@) + token_of_satellite(sat)
        + seq![32u8] + message);
}

/// A record that is read is of the satellite it is read for, and of the message named.
proof fn lemma_own_satellite(
    lines: Seq<Seq<u8>>,
    id: GnssSatelliteId,
    sat: Seq<u8>,
    named: Option<NavMessage>,
    version: NavVersion,
    layout: Layout,
)
    ensures
        keplerian_record(lines, id, sat, named, version, layout) matches Ok((r, _)) ==> r.satellite_id
            == id && (named matches Some(m) ==> r.message == m),
        glonass_record(lines, id, sat, version, layout) matches Ok((r, _)) ==> r.satellite_id == id,
        sbas_record(lines, id, sat, layout) matches Ok((r, _)) ==> r.satellite_id == id,
        named matches Some(m) ==> (cnav_record(lines, id, sat, m) matches Ok((r, _)) ==> r.satellite_id
            == id && r.message == m),
{
    assert(keplerian_record(lines, id, sat, named, version, layout) matches Ok((r, _))
        ==> r.satellite_id == id && (named matches Some(m) ==> r.message == m)) by {
        reveal(keplerian_record);
    }
    assert(glonass_record(lines, id, sat, version, layout) matches Ok((r, _)) ==> r.satellite_id == id)
        by {
        reveal(glonass_record);
    }
    assert(sbas_record(lines, id, sat, layout) matches Ok((r, _)) ==> r.satellite_id == id) by {
        reveal(sbas_record);
    }
    if let Some(m) = named {
        assert(cnav_record(lines, id, sat, m) matches Ok((r, _)) ==> r.satellite_id == id && r.message
            == m) by {
            reveal(cnav_record);
        }
    }
}

/// The satellite of a RINEX 3 record is the one its first three columns name, and the record is of
/// the kind of its system.
pub proof fn law_record_satellite(block: Seq<Seq<u8>>, version: NavVersion, file_type: char)
    requires
        block.len() > 0,
        block[0].len() > 0,
        letter(block[0][0]),
        version.major <= 3,
    ensures
        ({
            let token = trim_of(slice_of(block[0], 0, 3));
            let named = satellite_of_token(token);
            let r = block_of(block, version, file_type);
            &&& r.kind is Ephemeris
            &&& match r.content {
                Content::Ephemeris(record) => named == Some(record.satellite_id) && !(
                record.satellite_id.system is Glonass) && !(record.satellite_id.system is Sbas),
                Content::Glonass(record) => named == Some(record.satellite_id)
                    && record.satellite_id.system is Glonass,
                Content::Sbas(record) => named == Some(record.satellite_id)
                    && record.satellite_id.system is Sbas,
                Content::Kept(sat, message, reason) => sat == token && message is None
                    && reason is Malformed,
                _ => false,
            }
        }),
{
    reveal(block_of);
    let token = trim_of(slice_of(block[0], 0, 3));
    let layout = if version.major == 2 {
        Layout::V2Lettered
    } else {
        Layout::V3
    };
    if let Some(id) = satellite_of_token(token) {
        lemma_own_satellite(block, id, token, None, version, layout);
    }
}

/// The record of a RINEX 4 ephemeris frame is of the satellite and message of its marker.
pub proof fn law_frame_satellite(
    sat: GnssSatelliteId,
    message: NavMessage,
    body: Seq<Seq<u8>>,
    version: NavVersion,
    file_type: char,
)
    requires
        sat.wf(),
        version.major == 4,
        !(message is GalileoUnclassified),
        sat.system == message_system(message),
    ensures
        ({
            let marker = utf8("> EPH "@) + token_of_satellite(sat) + seq![32u8] + message_name(
                message,
            );
            let r = block_of(seq![marker] + body, version, file_type);
            match r.content {
                Content::Ephemeris(record) => record.satellite_id == sat && record.message == message,
                Content::Kept(_, token, reason) => token == Some(message_name(message))
                    && reason is Malformed,
                _ => false,
            }
        }),
{
    reveal(block_of);
    lemma_message_tokens();
    let name = message_name(message);
    law_message_token(name, sat.system, message);
    let own = token_of_satellite(sat);
    lemma_token(sat);
    let marker = utf8("> EPH "@) + own + seq![32u8] + name;
    assert(word(name));
    lemma_marker_reads(sat, name, block_satellite(body));
    assert(spaces(1) =~= seq![32u8]);
    assert(marker_text(utf8("> EPH "@), sat, name) =~= marker);
    let block = seq![marker] + body;
    assert(frame_body(block) =~= body);
    assert(block[0] == marker);
    lemma_own_satellite(body, sat, own, Some(message), version, Layout::V3);
}

/// A RINEX 4 frame marked `STO`, `EOP` or `ION` is read as a frame of that kind, of the satellite and
/// message of its marker.
pub proof fn law_data_frame(
    sat: GnssSatelliteId,
    token: Seq<u8>,
    body: Seq<Seq<u8>>,
    version: NavVersion,
    file_type: char,
)
    requires
        sat.wf(),
        word(token),
        version.major == 4,
    ensures
        ({
            let rest = token_of_satellite(sat) + seq![32u8] + token;
            let sto = block_of(seq![utf8("> STO "@) + rest] + body, version, file_type);
            let eop = block_of(seq![utf8("> EOP "@) + rest] + body, version, file_type);
            let ion = block_of(seq![utf8("> ION "@) + rest] + body, version, file_type);
            &&& sto.kind is SystemTimeOffset && match sto.content {
                Content::Offset(f) => f.satellite_id == sat && f.token == token,
                Content::Kept(_, t, reason) => t == Some(token) && reason is Malformed,
                _ => false,
            }
            &&& eop.kind is EarthOrientation && match eop.content {
                Content::Orientation(f) => f.satellite_id == sat && f.token == token,
                Content::Kept(_, t, reason) => t == Some(token) && reason is Malformed,
                _ => false,
            }
            &&& ion.kind is Ionosphere && match ion.content {
                Content::Ion(f) => f.satellite_id == sat && f.token == token,
                Content::Kept(_, t, _) => t == Some(token),
                _ => false,
            }
        }),
{
    lemma_data_prefixes();
    lemma_message_tokens();
    lemma_one_data_frame(utf8("STO"@), utf8("> STO "@), sat, token, body, version, file_type);
    lemma_one_data_frame(utf8("EOP"@), utf8("> EOP "@), sat, token, body, version, file_type);
    lemma_one_data_frame(utf8("ION"@), utf8("> ION "@), sat, token, body, version, file_type);
    let own = token_of_satellite(sat);
    law_offset_columns(body, sat, own, token);
    law_orientation_columns(body, sat, own, token);
    law_ionosphere_columns(body, sat, own, token);
}

/// A frame of a data marker is read by its kind.
proof fn lemma_one_data_frame(
    name: Seq<u8>,
    prefix: Seq<u8>,
    sat: GnssSatelliteId,
    token: Seq<u8>,
    body: Seq<Seq<u8>>,
    version: NavVersion,
    file_type: char,
)
    requires
        sat.wf(),
        word(token),
        version.major == 4,
        name == utf8("STO"@) || name == utf8("EOP"@) || name == utf8("ION"@),
        name.len() == 3 && word(name),
        prefix == seq![62u8, 32u8, name[0], name[1], name[2], 32u8],
    ensures
        block_of(
            seq![prefix + (token_of_satellite(sat) + seq![32u8] + token)] + body,
            version,
            file_type,
        ) == data_block(data_kind(name), body, token_of_satellite(sat), token, sat),
{
    reveal(block_of);
    let own = token_of_satellite(sat);
    lemma_token(sat);
    lemma_data_marker(name, prefix, sat, token);
    let marker = prefix + (own + seq![32u8] + token);
    assert(spaces(1) =~= seq![32u8]);
    assert(marker_text(prefix, sat, token) =~= marker);
    let block = seq![marker] + body;
    assert(frame_body(block) =~= body);
    assert(block[0] == marker);
}

/// A RINEX 4 frame of the message `FDMA` of a GLONASS satellite is read as a GLONASS record, and one
/// of `SBAS` of an SBAS satellite as an SBAS record; the BeiDou messages `CNV1`, `CNV2` and `CNV3` and
/// the NavIC message `L1NV` are kept undecoded.
pub proof fn law_other_frames(
    sat: GnssSatelliteId,
    token: Seq<u8>,
    body: Seq<Seq<u8>>,
    version: NavVersion,
    file_type: char,
)
    requires
        sat.wf(),
        version.major == 4,
        block_satellite(body).len() == 0 || satellite_of_token(block_satellite(body)) == Some(sat),
        sat.system is Glonass && token == utf8("FDMA"@) || sat.system is Sbas && token == utf8(
            "SBAS"@,
        ) || sat.system is BeiDou && (token == utf8("CNV1"@) || token == utf8("CNV2"@) || token
            == utf8("CNV3"@)) || sat.system is Navic && token == utf8("L1NV"@),
    ensures
        ({
            let marker = utf8("> EPH "@) + token_of_satellite(sat) + seq![32u8] + token;
            match block_of(seq![marker] + body, version, file_type).content {
                Content::Glonass(r) => sat.system is Glonass && r.satellite_id == sat,
                Content::Sbas(r) => sat.system is Sbas && r.satellite_id == sat,
                Content::Kept(_, t, Reason::NotDecoded) => t == Some(token) && (sat.system is BeiDou
                    || sat.system is Navic),
                Content::Kept(_, t, Reason::Malformed(_)) => t == Some(token) && (
                sat.system is Glonass || sat.system is Sbas),
                _ => false,
            }
        }),
{
    lemma_message_tokens();
    lemma_other_tokens();
    let own = token_of_satellite(sat);
    assert(word(token));
    lemma_ephemeris_frame(sat, token, body, version, file_type);
    lemma_own_satellite(body, sat, own, None, version, Layout::V3);
    assert(message_of_token(token, sat.system) is None);
}

/// A frame of an ephemeris marker is read by its message.
proof fn lemma_ephemeris_frame(
    sat: GnssSatelliteId,
    token: Seq<u8>,
    body: Seq<Seq<u8>>,
    version: NavVersion,
    file_type: char,
)
    requires
        sat.wf(),
        word(token),
        version.major == 4,
        block_satellite(body).len() == 0 || satellite_of_token(block_satellite(body)) == Some(sat),
    ensures
        block_of(
            seq![utf8("> EPH "@) + token_of_satellite(sat) + seq![32u8] + token] + body,
            version,
            file_type,
        ) == eph_block(body, token_of_satellite(sat), token, sat.system, sat, version),
{
    reveal(block_of);
    lemma_message_tokens();
    let own = token_of_satellite(sat);
    lemma_token(sat);
    let marker = utf8("> EPH "@) + own + seq![32u8] + token;
    lemma_marker_reads(sat, token, block_satellite(body));
    assert(spaces(1) =~= seq![32u8]);
    assert(marker_text(utf8("> EPH "@), sat, token) =~= marker);
    let block = seq![marker] + body;
    assert(frame_body(block) =~= body);
    assert(block[0] == marker);
    assert(token_system(own) == Some(sat.system));
    assert(satellite_of_token(own) == Some(sat));
}

/// The tokens of messages that no Keplerian record is of.
proof fn lemma_other_tokens()
    ensures
        utf8("FDMA"@) == seq![70u8, 68u8, 77u8, 65u8],
        utf8("SBAS"@) == seq![83u8, 66u8, 65u8, 83u8],
        utf8("CNV1"@) == seq![67u8, 78u8, 86u8, 49u8],
        utf8("CNV2"@) == seq![67u8, 78u8, 86u8, 50u8],
        utf8("CNV3"@) == seq![67u8, 78u8, 86u8, 51u8],
        utf8("L1NV"@) == seq![76u8, 49u8, 78u8, 86u8],
{
    reveal_strlit("FDMA");
    reveal_strlit("SBAS");
    reveal_strlit("CNV1");
    reveal_strlit("CNV2");
    reveal_strlit("CNV3");
    reveal_strlit("L1NV");
    lemma_utf8_ascii("FDMA"@);
    lemma_utf8_ascii("SBAS"@);
    lemma_utf8_ascii("CNV1"@);
    lemma_utf8_ascii("CNV2"@);
    lemma_utf8_ascii("CNV3"@);
    lemma_utf8_ascii("L1NV"@);
    assert(utf8("FDMA"@) =~= seq![70u8, 68u8, 77u8, 65u8]);
    assert(utf8("SBAS"@) =~= seq![83u8, 66u8, 65u8, 83u8]);
    assert(utf8("CNV1"@) =~= seq![67u8, 78u8, 86u8, 49u8]);
    assert(utf8("CNV2"@) =~= seq![67u8, 78u8, 86u8, 50u8]);
    assert(utf8("CNV3"@) =~= seq![67u8, 78u8, 86u8, 51u8]);
    assert(utf8("L1NV"@) =~= seq![76u8, 49u8, 78u8, 86u8]);
}

} // verus!

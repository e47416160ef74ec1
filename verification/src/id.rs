//! Satellite systems and satellite identifiers.

use vstd::prelude::*;

use crate::decimal::{digit, natural, push_digits};
use crate::text::{push, slice, trim, trim_of, utf8};

verus! {

/// A satellite navigation system.
#[derive(Debug, Clone, Copy, PartialEq, Eq, Structural)]
pub enum GnssSystem {
    /// GPS, letter `G`.
    Gps,
    /// GLONASS, letter `R`.
    Glonass,
    /// Galileo, letter `E`.
    Galileo,
    /// BeiDou, letter `C`.
    BeiDou,
    /// QZSS, letter `J`.
    Qzss,
    /// NavIC, letter `I`.
    Navic,
    /// SBAS, letter `S`.
    Sbas,
}

/// A satellite: its system and its number in the system, 1 to 99.
#[derive(Debug, Clone, Copy, PartialEq, Eq, Structural)]
pub struct GnssSatelliteId {
    /// The system.
    pub system: GnssSystem,
    /// The number in the system.
    pub prn: u8,
}

/// The letter of a system.
pub open spec fn system_letter(system: GnssSystem) -> u8 {
    match system {
        GnssSystem::Gps => 71,
        GnssSystem::Glonass => 82,
        GnssSystem::Galileo => 69,
        GnssSystem::BeiDou => 67,
        GnssSystem::Qzss => 74,
        GnssSystem::Navic => 73,
        GnssSystem::Sbas => 83,
    }
}

/// The system a letter names.
pub open spec fn system_of_letter(letter: u8) -> Option<GnssSystem> {
    if letter == 71 {
        Some(GnssSystem::Gps)
    } else if letter == 82 {
        Some(GnssSystem::Glonass)
    } else if letter == 69 {
        Some(GnssSystem::Galileo)
    } else if letter == 67 {
        Some(GnssSystem::BeiDou)
    } else if letter == 74 {
        Some(GnssSystem::Qzss)
    } else if letter == 73 {
        Some(GnssSystem::Navic)
    } else if letter == 83 {
        Some(GnssSystem::Sbas)
    } else {
        None
    }
}

/// The satellite a token names: a system letter and a number from 1 to 99 of one or two digits,
/// with white space allowed between them.
pub open spec fn satellite_of_token(token: Seq<u8>) -> Option<GnssSatelliteId> {
    if token.len() == 0 {
        None
    } else {
        let number = trim_of(token.subrange(1, token.len() as int));
        match system_of_letter(token[0]) {
            Some(system) => if 1 <= number.len() <= 2 && (forall|k: int|
                0 <= k < number.len() ==> digit(#[trigger] number[k])) && natural(number) > 0 {
                Some(GnssSatelliteId { system, prn: natural(number) as u8 })
            } else {
                None
            },
            None => None,
        }
    }
}

/// The three-character token of a satellite.
pub open spec fn token_of_satellite(sat: GnssSatelliteId) -> Seq<u8> {
    seq![system_letter(sat.system)] + crate::decimal::digits_text(sat.prn as nat, 2)
}

impl GnssSystem {
    /// The system the letter with code `letter` names.
    pub fn from_letter(letter: u8) -> (r: Option<GnssSystem>)
        ensures
            r == system_of_letter(letter),
    {
        if letter == 71 {
            Some(GnssSystem::Gps)
        } else if letter == 82 {
            Some(GnssSystem::Glonass)
        } else if letter == 69 {
            Some(GnssSystem::Galileo)
        } else if letter == 67 {
            Some(GnssSystem::BeiDou)
        } else if letter == 74 {
            Some(GnssSystem::Qzss)
        } else if letter == 73 {
            Some(GnssSystem::Navic)
        } else if letter == 83 {
            Some(GnssSystem::Sbas)
        } else {
            None
        }
    }

    /// The letter of the system.
    pub fn letter(self) -> (r: &'static str)
        ensures
            utf8(r@) == seq![system_letter(self)],
    {
        proof {
            reveal_strlit("G");
            reveal_strlit("R");
            reveal_strlit("E");
            reveal_strlit("C");
            reveal_strlit("J");
            reveal_strlit("I");
            reveal_strlit("S");
            crate::text::lemma_utf8_ascii("G"@);
            crate::text::lemma_utf8_ascii("R"@);
            crate::text::lemma_utf8_ascii("E"@);
            crate::text::lemma_utf8_ascii("C"@);
            crate::text::lemma_utf8_ascii("J"@);
            crate::text::lemma_utf8_ascii("I"@);
            crate::text::lemma_utf8_ascii("S"@);
        }
        let r: &'static str = match self {
            GnssSystem::Gps => "G",
            GnssSystem::Glonass => "R",
            GnssSystem::Galileo => "E",
            GnssSystem::BeiDou => "C",
            GnssSystem::Qzss => "J",
            GnssSystem::Navic => "I",
            GnssSystem::Sbas => "S",
        };
        assert(utf8(r@) =~= seq![system_letter(self)]);
        r
    }
}

impl GnssSatelliteId {
    /// The number is one a token can state.
    pub open spec fn wf(self) -> bool {
        1 <= self.prn <= 99
    }

    /// A satellite of `system`; `None` where `prn` is not from 1 to 99.
    pub fn new(system: GnssSystem, prn: u8) -> (r: Option<GnssSatelliteId>)
        ensures
            r == (if 1 <= prn <= 99 {
                Some(GnssSatelliteId { system, prn })
            } else {
                None
            }),
    {
        if 1 <= prn && prn <= 99 {
            Some(GnssSatelliteId { system, prn })
        } else {
            None
        }
    }

    /// The satellite a token names (see [`satellite_of_token`]).
    pub fn parse(token: &str) -> (r: Option<GnssSatelliteId>)
        ensures
            r == satellite_of_token(utf8(token@)),
            r matches Some(sat) ==> sat.wf(),
    {
        let b = token.as_bytes();
        if b.len() == 0 {
            return None;
        }
        let system = match GnssSystem::from_letter(b[0]) {
            Some(system) => system,
            None => {
                return None;
            },
        };
        proof {
            crate::text::lemma_ascii_boundary(token@, 0);
        }
        let number = trim(slice(token, 1, b.len())).as_bytes();
        if number.len() == 1 {
            let c: u8 = number[0];
            assert(number@.drop_last() =~= Seq::<u8>::empty());
            reveal_with_fuel(natural, 2);
            if 48 < c && c <= 57 {
                return Some(GnssSatelliteId { system, prn: c - 48 });
            }
            assert(digit(number@[0]) ==> c == 48);
        } else if number.len() == 2 {
            let c: u8 = number[0];
            let d: u8 = number[1];
            assert(number@.drop_last() =~= seq![c]);
            assert(seq![c].drop_last() =~= Seq::<u8>::empty());
            reveal_with_fuel(natural, 3);
            if 48 <= c && c <= 57 && 48 <= d && d <= 57 && (c > 48 || d > 48) {
                return Some(GnssSatelliteId { system, prn: (c - 48) * 10 + (d - 48) });
            }
            assert(digit(number@[0]) && digit(number@[1]) ==> c == 48 && d == 48);
        }
        None
    }

    /// Add the three-character token of the satellite at the end of `out`.
    pub fn push_token(self, out: &mut String)
        ensures
            utf8(final(out)@) == utf8(old(out)@) + token_of_satellite(self),
    {
        let ghost before = utf8(out@);
        push(out, self.system.letter());
        push_digits(out, self.prn as u128, 2);
        assert(utf8(out@) =~= before + token_of_satellite(self));
    }

    /// The three-character token of the satellite.
    pub fn token(self) -> (r: String)
        ensures
            utf8(r@) == token_of_satellite(self),
    {
        let mut r = String::new();
        assert(utf8(r@) =~= Seq::empty());
        self.push_token(&mut r);
        assert(utf8(r@) =~= token_of_satellite(self));
        r
    }
}

} // verus!

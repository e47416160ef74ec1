//! Broadcast records and what they carry.

use vstd::prelude::*;

use crate::decimal::Decimal;
use crate::id::{GnssSatelliteId, GnssSystem};
use crate::time::{GnssWeekTow, NavEpoch, Seconds, TimeScale};

verus! {

/// A RINEX version number as the `RINEX VERSION / TYPE` record states it.
#[derive(Debug, Clone, Copy, PartialEq, Eq, PartialOrd, Ord, Hash, Structural)]
pub struct NavVersion {
    /// Major version, 2, 3 or 4.
    pub major: u8,
    /// Minor version, the digits after the point (`3.05` is minor 5).
    pub minor: u8,
}

impl NavVersion {
    /// Whether the GPS fit-interval field holds a flag: RINEX 3.00 to 3.02.
    pub open spec fn legacy_fit_flag(self) -> bool {
        self.major == 3 && self.minor <= 2
    }

    /// Whether a GLONASS record carries the fourth broadcast-orbit line: RINEX 3.05 on.
    pub open spec fn fourth_glonass_line(self) -> bool {
        self.major >= 4 || (self.major == 3 && self.minor >= 5)
    }

    /// Build a version.
    pub fn new(major: u8, minor: u8) -> (r: NavVersion)
        ensures
            r == (NavVersion { major, minor }),
    {
        NavVersion { major, minor }
    }

    /// Whether the GPS fit-interval field holds a flag.
    pub fn gps_fit_interval_uses_legacy_flag(self) -> (r: bool)
        ensures
            r == self.legacy_fit_flag(),
    {
        self.major == 3 && self.minor <= 2
    }

    /// Whether a GLONASS record carries the fourth broadcast-orbit line (status flags, L1/L2
    /// group delay difference, URAI and health flags).
    pub fn glonass_has_fourth_orbit_line(self) -> (r: bool)
        ensures
            r == self.fourth_glonass_line(),
    {
        self.major >= 4 || (self.major == 3 && self.minor >= 5)
    }
}

/// Which broadcast navigation message a record carries.
#[derive(Debug, Clone, Copy, PartialEq, Eq, Structural)]
pub enum NavMessage {
    /// GPS legacy navigation message.
    GpsLnav,
    /// GPS CNAV message (L2C/L5), RINEX 4 token `CNAV`.
    GpsCnav,
    /// GPS CNAV-2 message (L1C), RINEX 4 token `CNV2`.
    GpsCnav2,
    /// QZSS legacy navigation message.
    QzssLnav,
    /// QZSS CNAV message, RINEX 4 token `CNAV`.
    QzssCnav,
    /// QZSS CNAV-2 message, RINEX 4 token `CNV2`.
    QzssCnav2,
    /// Galileo integrity navigation message (E1/E5b dual, E1 single-frequency).
    GalileoInav,
    /// Galileo F/NAV message (E5a).
    GalileoFnav,
    /// A Galileo record whose data-source word names neither I/NAV nor F/NAV alone. The word is
    /// kept on the record ([`BroadcastRecord::galileo_data_sources`]).
    GalileoUnclassified,
    /// BeiDou D1 message (MEO/IGSO satellites).
    BeidouD1,
    /// BeiDou D2 message (geostationary satellites).
    BeidouD2,
    /// NavIC (IRNSS) legacy navigation message, RINEX 4 token `LNAV`.
    NavicLnav,
}

impl NavMessage {
    /// Whether this is a CNAV-2 message.
    pub open spec fn cnav2(self) -> bool {
        self == NavMessage::GpsCnav2 || self == NavMessage::QzssCnav2
    }

    /// Whether this is a GPS/QZSS CNAV-family message.
    pub open spec fn cnav_family(self) -> bool {
        self == NavMessage::GpsCnav || self == NavMessage::QzssCnav || self.cnav2()
    }

    /// Whether this is a GPS/QZSS CNAV-family message.
    pub fn is_cnav_family(self) -> (r: bool)
        ensures
            r == self.cnav_family(),
    {
        matches!(
            self,
            NavMessage::GpsCnav | NavMessage::GpsCnav2 | NavMessage::QzssCnav
                | NavMessage::QzssCnav2
        )
    }

    /// Whether this is a CNAV-2 message.
    pub fn is_cnav2(self) -> (r: bool)
        ensures
            r == self.cnav2(),
    {
        matches!(self, NavMessage::GpsCnav2 | NavMessage::QzssCnav2)
    }
}

/// Broadcast issue-of-data plus the navigation message identity.
#[derive(Debug, Clone, Copy, PartialEq, Eq, Structural)]
pub struct BroadcastIssue {
    /// The native issue value: IODE for GPS and QZSS, IODnav for Galileo, AODE for BeiDou, IODEC
    /// for NavIC.
    pub issue: u32,
    /// The navigation message carrying the issue value.
    pub message: NavMessage,
}

/// A broadcast group-delay term carried by a RINEX NAV record.
#[derive(Debug, Clone, Copy, PartialEq, Eq, Structural)]
pub enum BroadcastGroupDelayTerm {
    /// GPS/QZSS LNAV TGD (also the NavIC TGD).
    GpsTgd,
    /// Galileo BGD E5a/E1.
    GalileoBgdE5aE1,
    /// Galileo BGD E5b/E1.
    GalileoBgdE5bE1,
    /// BeiDou TGD1.
    BeidouTgd1,
    /// BeiDou TGD2.
    BeidouTgd2,
    /// GPS/QZSS CNAV ISC for L1 C/A.
    CnavIscL1Ca,
    /// GPS/QZSS CNAV ISC for L2C.
    CnavIscL2C,
    /// GPS/QZSS CNAV ISC for L5 I5.
    CnavIscL5I5,
    /// GPS/QZSS CNAV ISC for L5 Q5.
    CnavIscL5Q5,
    /// GPS/QZSS CNAV-2 ISC for L1C data.
    CnavIscL1Cd,
    /// GPS/QZSS CNAV-2 ISC for L1C pilot.
    CnavIscL1Cp,
}

/// A GPS/QZSS signal a CNAV-family group-delay correction applies to.
#[derive(Debug, Clone, Copy, PartialEq, Eq, Structural)]
pub enum CnavSignal {
    /// L1 C/A.
    L1Ca,
    /// L2C.
    L2C,
    /// L5 I5.
    L5I5,
    /// L5 Q5.
    L5Q5,
    /// L1C pilot.
    L1Cp,
    /// L1C data.
    L1Cd,
}

/// A group delay, seconds, as the broadcast terms it is formed of.
#[derive(Debug, Clone, Copy, PartialEq, Eq, Structural)]
pub enum GroupDelay {
    /// No delay.
    Zero,
    /// A term as stated.
    Term(Decimal),
    /// A term, negated.
    Negated(Decimal),
    /// The first term less the second.
    Difference(Decimal, Decimal),
    /// The NavIC TGD for the L5 single-frequency user: the term times the square of the ratio of
    /// the S-band carrier to the L5 carrier.
    NavicL5(Decimal),
    /// The GLONASS L1/L2 delay difference for the G1 single-frequency user: the term, negated, over
    /// the square of the ratio of the G1 carrier to the G2 carrier less 1.
    GlonassG1(Decimal),
}

/// Per-signal broadcast group delays preserved from one NAV record.
#[derive(Debug, Clone, Copy, PartialEq, Eq, Structural)]
pub struct BroadcastGroupDelays {
    /// GPS/QZSS LNAV TGD (and the NavIC TGD), seconds.
    pub gps_tgd_s: Option<Decimal>,
    /// Galileo BGD E5a/E1, seconds.
    pub galileo_bgd_e5a_e1_s: Option<Decimal>,
    /// Galileo BGD E5b/E1, seconds.
    pub galileo_bgd_e5b_e1_s: Option<Decimal>,
    /// BeiDou TGD1, seconds.
    pub beidou_tgd1_s: Option<Decimal>,
    /// BeiDou TGD2, seconds.
    pub beidou_tgd2_s: Option<Decimal>,
    /// GPS/QZSS CNAV ISC for L1 C/A, seconds.
    pub cnav_isc_l1ca_s: Option<Decimal>,
    /// GPS/QZSS CNAV ISC for L2C, seconds.
    pub cnav_isc_l2c_s: Option<Decimal>,
    /// GPS/QZSS CNAV ISC for L5 I5, seconds.
    pub cnav_isc_l5i5_s: Option<Decimal>,
    /// GPS/QZSS CNAV ISC for L5 Q5, seconds.
    pub cnav_isc_l5q5_s: Option<Decimal>,
    /// GPS/QZSS CNAV-2 ISC for L1C data, seconds.
    pub cnav_isc_l1cd_s: Option<Decimal>,
    /// GPS/QZSS CNAV-2 ISC for L1C pilot, seconds.
    pub cnav_isc_l1cp_s: Option<Decimal>,
}

/// No group-delay term.
pub open spec fn no_delays() -> BroadcastGroupDelays {
    BroadcastGroupDelays {
        gps_tgd_s: None,
        galileo_bgd_e5a_e1_s: None,
        galileo_bgd_e5b_e1_s: None,
        beidou_tgd1_s: None,
        beidou_tgd2_s: None,
        cnav_isc_l1ca_s: None,
        cnav_isc_l2c_s: None,
        cnav_isc_l5i5_s: None,
        cnav_isc_l5q5_s: None,
        cnav_isc_l1cd_s: None,
        cnav_isc_l1cp_s: None,
    }
}

impl Default for BroadcastGroupDelays {
    fn default() -> (r: BroadcastGroupDelays)
        ensures
            r == no_delays(),
    {
        BroadcastGroupDelays {
            gps_tgd_s: None,
            galileo_bgd_e5a_e1_s: None,
            galileo_bgd_e5b_e1_s: None,
            beidou_tgd1_s: None,
            beidou_tgd2_s: None,
            cnav_isc_l1ca_s: None,
            cnav_isc_l2c_s: None,
            cnav_isc_l5i5_s: None,
            cnav_isc_l5q5_s: None,
            cnav_isc_l1cd_s: None,
            cnav_isc_l1cp_s: None,
        }
    }
}

impl BroadcastGroupDelays {
    /// The value of a term.
    pub open spec fn term(self, term: BroadcastGroupDelayTerm) -> Option<Decimal> {
        match term {
            BroadcastGroupDelayTerm::GpsTgd => self.gps_tgd_s,
            BroadcastGroupDelayTerm::GalileoBgdE5aE1 => self.galileo_bgd_e5a_e1_s,
            BroadcastGroupDelayTerm::GalileoBgdE5bE1 => self.galileo_bgd_e5b_e1_s,
            BroadcastGroupDelayTerm::BeidouTgd1 => self.beidou_tgd1_s,
            BroadcastGroupDelayTerm::BeidouTgd2 => self.beidou_tgd2_s,
            BroadcastGroupDelayTerm::CnavIscL1Ca => self.cnav_isc_l1ca_s,
            BroadcastGroupDelayTerm::CnavIscL2C => self.cnav_isc_l2c_s,
            BroadcastGroupDelayTerm::CnavIscL5I5 => self.cnav_isc_l5i5_s,
            BroadcastGroupDelayTerm::CnavIscL5Q5 => self.cnav_isc_l5q5_s,
            BroadcastGroupDelayTerm::CnavIscL1Cd => self.cnav_isc_l1cd_s,
            BroadcastGroupDelayTerm::CnavIscL1Cp => self.cnav_isc_l1cp_s,
        }
    }

    /// The inter-signal correction of a signal.
    pub open spec fn isc(self, signal: CnavSignal) -> Option<Decimal> {
        match signal {
            CnavSignal::L1Ca => self.cnav_isc_l1ca_s,
            CnavSignal::L2C => self.cnav_isc_l2c_s,
            CnavSignal::L5I5 => self.cnav_isc_l5i5_s,
            CnavSignal::L5Q5 => self.cnav_isc_l5q5_s,
            CnavSignal::L1Cp => self.cnav_isc_l1cp_s,
            CnavSignal::L1Cd => self.cnav_isc_l1cd_s,
        }
    }

    /// The delay a message of a system states for its single-frequency user.
    pub open spec fn message_delay(self, system: GnssSystem, message: NavMessage) -> Option<
        GroupDelay,
    > {
        let stated = |value: Option<Decimal>|
            match value {
                Some(d) => Some(GroupDelay::Term(d)),
                None => None,
            };
        if (system == GnssSystem::Gps && message == NavMessage::GpsLnav) || (system
            == GnssSystem::Qzss && message == NavMessage::QzssLnav) {
            stated(self.gps_tgd_s)
        } else if system == GnssSystem::Navic && message == NavMessage::NavicLnav {
            match self.gps_tgd_s {
                Some(d) => Some(GroupDelay::NavicL5(d)),
                None => None,
            }
        } else if system == GnssSystem::Galileo && message == NavMessage::GalileoFnav {
            stated(self.galileo_bgd_e5a_e1_s)
        } else if system == GnssSystem::Galileo && (message == NavMessage::GalileoInav || message
            == NavMessage::GalileoUnclassified) {
            stated(self.galileo_bgd_e5b_e1_s)
        } else if system == GnssSystem::BeiDou && (message == NavMessage::BeidouD1 || message
            == NavMessage::BeidouD2) {
            stated(self.beidou_tgd1_s)
        } else if (system == GnssSystem::Gps || system == GnssSystem::Qzss)
            && message.cnav_family() {
            match (self.gps_tgd_s, self.cnav_isc_l1ca_s) {
                (Some(tgd), Some(isc)) => Some(GroupDelay::Difference(tgd, isc)),
                (Some(tgd), None) => Some(GroupDelay::Term(tgd)),
                (None, Some(isc)) => Some(GroupDelay::Negated(isc)),
                (None, None) => Some(GroupDelay::Zero),
            }
        } else {
            None
        }
    }

    /// The total CNAV single-frequency clock adjustment for a signal, TGD less its ISC, where both
    /// are there.
    pub open spec fn cnav_correction(self, signal: CnavSignal) -> Option<GroupDelay> {
        match (self.gps_tgd_s, self.isc(signal)) {
            (Some(tgd), Some(isc)) => Some(GroupDelay::Difference(tgd, isc)),
            _ => None,
        }
    }

    /// Build a GPS/QZSS LNAV delay set with an optional TGD.
    pub fn gps_lnav_opt(tgd_s: Option<Decimal>) -> (r: BroadcastGroupDelays)
        ensures
            r == (BroadcastGroupDelays { gps_tgd_s: tgd_s, ..no_delays() }),
    {
        let mut r = BroadcastGroupDelays::default();
        r.gps_tgd_s = tgd_s;
        r
    }

    /// Build the GPS LNAV delay set.
    pub fn gps_lnav(tgd_s: Decimal) -> (r: BroadcastGroupDelays)
        ensures
            r == (BroadcastGroupDelays { gps_tgd_s: Some(tgd_s), ..no_delays() }),
    {
        BroadcastGroupDelays::gps_lnav_opt(Some(tgd_s))
    }

    /// Build a Galileo delay set with optional BGD terms.
    pub fn galileo_opt(bgd_e5a_e1_s: Option<Decimal>, bgd_e5b_e1_s: Option<Decimal>) -> (r:
        BroadcastGroupDelays)
        ensures
            r == (BroadcastGroupDelays {
                galileo_bgd_e5a_e1_s: bgd_e5a_e1_s,
                galileo_bgd_e5b_e1_s: bgd_e5b_e1_s,
                ..no_delays()
            }),
    {
        let mut r = BroadcastGroupDelays::default();
        r.galileo_bgd_e5a_e1_s = bgd_e5a_e1_s;
        r.galileo_bgd_e5b_e1_s = bgd_e5b_e1_s;
        r
    }

    /// Build the Galileo delay set.
    pub fn galileo(bgd_e5a_e1_s: Decimal, bgd_e5b_e1_s: Decimal) -> (r: BroadcastGroupDelays)
        ensures
            r == (BroadcastGroupDelays {
                galileo_bgd_e5a_e1_s: Some(bgd_e5a_e1_s),
                galileo_bgd_e5b_e1_s: Some(bgd_e5b_e1_s),
                ..no_delays()
            }),
    {
        BroadcastGroupDelays::galileo_opt(Some(bgd_e5a_e1_s), Some(bgd_e5b_e1_s))
    }

    /// Build a BeiDou delay set with optional TGD terms.
    pub fn beidou_opt(tgd1_s: Option<Decimal>, tgd2_s: Option<Decimal>) -> (r: BroadcastGroupDelays)
        ensures
            r == (BroadcastGroupDelays {
                beidou_tgd1_s: tgd1_s,
                beidou_tgd2_s: tgd2_s,
                ..no_delays()
            }),
    {
        let mut r = BroadcastGroupDelays::default();
        r.beidou_tgd1_s = tgd1_s;
        r.beidou_tgd2_s = tgd2_s;
        r
    }

    /// Build the BeiDou delay set.
    pub fn beidou(tgd1_s: Decimal, tgd2_s: Decimal) -> (r: BroadcastGroupDelays)
        ensures
            r == (BroadcastGroupDelays {
                beidou_tgd1_s: Some(tgd1_s),
                beidou_tgd2_s: Some(tgd2_s),
                ..no_delays()
            }),
    {
        BroadcastGroupDelays::beidou_opt(Some(tgd1_s), Some(tgd2_s))
    }

    /// Build a GPS/QZSS CNAV-family delay set.
    pub fn cnav(
        tgd_s: Option<Decimal>,
        isc_l1ca_s: Option<Decimal>,
        isc_l2c_s: Option<Decimal>,
        isc_l5i5_s: Option<Decimal>,
        isc_l5q5_s: Option<Decimal>,
        isc_l1cd_s: Option<Decimal>,
        isc_l1cp_s: Option<Decimal>,
    ) -> (r: BroadcastGroupDelays)
        ensures
            r == (BroadcastGroupDelays {
                gps_tgd_s: tgd_s,
                cnav_isc_l1ca_s: isc_l1ca_s,
                cnav_isc_l2c_s: isc_l2c_s,
                cnav_isc_l5i5_s: isc_l5i5_s,
                cnav_isc_l5q5_s: isc_l5q5_s,
                cnav_isc_l1cd_s: isc_l1cd_s,
                cnav_isc_l1cp_s: isc_l1cp_s,
                ..no_delays()
            }),
    {
        let mut r = BroadcastGroupDelays::default();
        r.gps_tgd_s = tgd_s;
        r.cnav_isc_l1ca_s = isc_l1ca_s;
        r.cnav_isc_l2c_s = isc_l2c_s;
        r.cnav_isc_l5i5_s = isc_l5i5_s;
        r.cnav_isc_l5q5_s = isc_l5q5_s;
        r.cnav_isc_l1cd_s = isc_l1cd_s;
        r.cnav_isc_l1cp_s = isc_l1cp_s;
        r
    }

    /// Select a specific group-delay term.
    pub fn get(&self, term: BroadcastGroupDelayTerm) -> (r: Option<Decimal>)
        ensures
            r == self.term(term),
    {
        match term {
            BroadcastGroupDelayTerm::GpsTgd => self.gps_tgd_s,
            BroadcastGroupDelayTerm::GalileoBgdE5aE1 => self.galileo_bgd_e5a_e1_s,
            BroadcastGroupDelayTerm::GalileoBgdE5bE1 => self.galileo_bgd_e5b_e1_s,
            BroadcastGroupDelayTerm::BeidouTgd1 => self.beidou_tgd1_s,
            BroadcastGroupDelayTerm::BeidouTgd2 => self.beidou_tgd2_s,
            BroadcastGroupDelayTerm::CnavIscL1Ca => self.cnav_isc_l1ca_s,
            BroadcastGroupDelayTerm::CnavIscL2C => self.cnav_isc_l2c_s,
            BroadcastGroupDelayTerm::CnavIscL5I5 => self.cnav_isc_l5i5_s,
            BroadcastGroupDelayTerm::CnavIscL5Q5 => self.cnav_isc_l5q5_s,
            BroadcastGroupDelayTerm::CnavIscL1Cd => self.cnav_isc_l1cd_s,
            BroadcastGroupDelayTerm::CnavIscL1Cp => self.cnav_isc_l1cp_s,
        }
    }

    /// The total CNAV single-frequency clock adjustment (TGD - ISC), seconds; `None` when TGD or
    /// the selected ISC is unavailable.
    pub fn cnav_single_frequency_correction_s(&self, signal: CnavSignal) -> (r: Option<GroupDelay>)
        ensures
            r == self.cnav_correction(signal),
    {
        let isc = match signal {
            CnavSignal::L1Ca => self.cnav_isc_l1ca_s,
            CnavSignal::L2C => self.cnav_isc_l2c_s,
            CnavSignal::L5I5 => self.cnav_isc_l5i5_s,
            CnavSignal::L5Q5 => self.cnav_isc_l5q5_s,
            CnavSignal::L1Cp => self.cnav_isc_l1cp_s,
            CnavSignal::L1Cd => self.cnav_isc_l1cd_s,
        };
        match (self.gps_tgd_s, isc) {
            (Some(tgd), Some(isc)) => Some(GroupDelay::Difference(tgd, isc)),
            _ => None,
        }
    }

    /// The delay term used for broadcast-clock evaluation.
    ///
    /// BeiDou has no signal choice at this level, so TGD1 is used. CNAV-family clock evaluation
    /// treats a missing TGD or L1 C/A ISC as zero. A Galileo record whose message is unclassified
    /// uses the BGD E5b/E1. NavIC LNAV is the L5 single-frequency user's term. Callers that know
    /// their signal should use [`Self::get`] or [`Self::cnav_single_frequency_correction_s`].
    pub fn for_message(self, system: GnssSystem, message: NavMessage) -> (r: Option<GroupDelay>)
        ensures
            r == self.message_delay(system, message),
    {
        let stated = match (system, message) {
            (GnssSystem::Gps, NavMessage::GpsLnav) | (GnssSystem::Qzss, NavMessage::QzssLnav) => {
                self.gps_tgd_s
            },
            (GnssSystem::Navic, NavMessage::NavicLnav) => {
                return match self.gps_tgd_s {
                    Some(tgd) => Some(GroupDelay::NavicL5(tgd)),
                    None => None,
                };
            },
            (GnssSystem::Galileo, NavMessage::GalileoFnav) => self.galileo_bgd_e5a_e1_s,
            (GnssSystem::Galileo, NavMessage::GalileoInav | NavMessage::GalileoUnclassified) => {
                self.galileo_bgd_e5b_e1_s
            },
            (GnssSystem::BeiDou, NavMessage::BeidouD1 | NavMessage::BeidouD2) => self.beidou_tgd1_s,
            (
                GnssSystem::Gps | GnssSystem::Qzss,
                NavMessage::GpsCnav | NavMessage::GpsCnav2 | NavMessage::QzssCnav
                | NavMessage::QzssCnav2,
            ) => {
                return match (self.gps_tgd_s, self.cnav_isc_l1ca_s) {
                    (Some(tgd), Some(isc)) => Some(GroupDelay::Difference(tgd, isc)),
                    (Some(tgd), None) => Some(GroupDelay::Term(tgd)),
                    (None, Some(isc)) => Some(GroupDelay::Negated(isc)),
                    (None, None) => Some(GroupDelay::Zero),
                };
            },
            _ => None,
        };
        match stated {
            Some(d) => Some(GroupDelay::Term(d)),
            None => None,
        }
    }
}

/// CNAV/CNAV-2 parameters that have no legacy counterpart.
#[derive(Debug, Clone, Copy, PartialEq, Eq, Structural)]
pub struct CnavParameters {
    /// Semi-major axis rate ADOT (m/s), ORBIT-1 field 1.
    pub adot_m_s: Decimal,
    /// Rate of the mean-motion difference (rad/s^2), ORBIT-5 field 2.
    pub delta_n0_dot_rad_s2: Decimal,
    /// CEI data-sequence propagation epoch: WNop week plus top seconds of week.
    pub top: GnssWeekTow,
    /// URA_ED index, [-16, 15].
    pub ura_ed_index: i8,
    /// URA_NED0 index, [-16, 15].
    pub ura_ned0_index: i8,
    /// URA_NED1 index, [0, 7].
    pub ura_ned1_index: u8,
    /// URA_NED2 index, [0, 7].
    pub ura_ned2_index: u8,
    /// Transmission time of message t_tm, seconds of week.
    pub transmission_time_sow: Decimal,
    /// Optional decimal-coded flag bits.
    pub flags: Option<u32>,
}

/// The number `digits` times ten to the `exponent`.
pub open spec fn positive(digits: u128, exponent: int) -> Decimal {
    Decimal { negative: false, digits, exponent: exponent as i32 }
}

/// Nominal URA meters for a CNAV ED/NED0 index: 2^(1 + index/2) to index 6, with the rounded
/// values 2.8, 5.7 and 11.3 at 1, 3 and 5, and 2^(index - 2) from 7 on; nothing for the
/// no-prediction indices -16 and 15. The irrational powers are those of double precision, to within
/// five units of their last digit (see [`crate::ura::law_ura_nominal`]).
pub open spec fn ura_nominal(index: int) -> Option<Decimal> {
    if index == 1 {
        Some(positive(28, -1))
    } else if index == 3 {
        Some(positive(57, -1))
    } else if index == 5 {
        Some(positive(113, -1))
    } else if index == -15 {
        Some(positive(11048543456039804, -18))
    } else if index == -14 {
        Some(positive(15625, -6))
    } else if index == -13 {
        Some(positive(22097086912079608, -18))
    } else if index == -12 {
        Some(positive(3125, -5))
    } else if index == -11 {
        Some(positive(44194173824159216, -18))
    } else if index == -10 {
        Some(positive(625, -4))
    } else if index == -9 {
        Some(positive(8838834764831843, -17))
    } else if index == -8 {
        Some(positive(125, -3))
    } else if index == -7 {
        Some(positive(17677669529663687, -17))
    } else if index == -6 {
        Some(positive(25, -2))
    } else if index == -5 {
        Some(positive(35355339059327373, -17))
    } else if index == -4 {
        Some(positive(5, -1))
    } else if index == -3 {
        Some(positive(7071067811865475, -16))
    } else if index == -2 {
        Some(positive(1, 0))
    } else if index == -1 {
        Some(positive(14142135623730951, -16))
    } else if index == 0 {
        Some(positive(2, 0))
    } else if index == 2 {
        Some(positive(4, 0))
    } else if index == 4 {
        Some(positive(8, 0))
    } else if index == 6 {
        Some(positive(16, 0))
    } else if index == 7 {
        Some(positive(32, 0))
    } else if index == 8 {
        Some(positive(64, 0))
    } else if index == 9 {
        Some(positive(128, 0))
    } else if index == 10 {
        Some(positive(256, 0))
    } else if index == 11 {
        Some(positive(512, 0))
    } else if index == 12 {
        Some(positive(1024, 0))
    } else if index == 13 {
        Some(positive(2048, 0))
    } else if index == 14 {
        Some(positive(4096, 0))
    } else {
        None
    }
}

/// Nominal URA meters for a CNAV ED/NED0 index (see [`ura_nominal`]).
///
/// Returns `None` for the no-prediction indices 15 and -16.
pub fn cnav_ura_nominal_m(index: i8) -> (r: Option<Decimal>)
    ensures
        r == ura_nominal(index as int),
{
    let (digits, exponent): (u128, i32) = match index {
        1 => (28, -1),
        3 => (57, -1),
        5 => (113, -1),
        -15 => (11048543456039804, -18),
        -14 => (15625, -6),
        -13 => (22097086912079608, -18),
        -12 => (3125, -5),
        -11 => (44194173824159216, -18),
        -10 => (625, -4),
        -9 => (8838834764831843, -17),
        -8 => (125, -3),
        -7 => (17677669529663687, -17),
        -6 => (25, -2),
        -5 => (35355339059327373, -17),
        -4 => (5, -1),
        -3 => (7071067811865475, -16),
        -2 => (1, 0),
        -1 => (14142135623730951, -16),
        0 => (2, 0),
        2 => (4, 0),
        4 => (8, 0),
        6 => (16, 0),
        7 => (32, 0),
        8 => (64, 0),
        9 => (128, 0),
        10 => (256, 0),
        11 => (512, 0),
        12 => (1024, 0),
        13 => (2048, 0),
        14 => (4096, 0),
        _ => {
            return None;
        },
    };
    Some(Decimal { negative: false, digits, exponent })
}

/// Whether a BeiDou PRN is a geostationary satellite: PRN 1-5 and 59-63.
pub open spec fn beidou_geo(sat: GnssSatelliteId) -> bool {
    sat.system == GnssSystem::BeiDou && (1 <= sat.prn <= 5 || 59 <= sat.prn <= 63)
}

/// Whether a BeiDou PRN is a geostationary satellite, which takes the geostationary
/// orbit-evaluation branch and the D2 message.
///
/// The BDS ICD assigns PRN 1-5 and 59-63 to GEO satellites. PRN 64 and above are spellable
/// satellite tokens but no GEO assignment covers them, so they take the MEO/IGSO branch.
pub fn is_beidou_geo(sat: GnssSatelliteId) -> (r: bool)
    ensures
        r == beidou_geo(sat),
{
    sat.system == GnssSystem::BeiDou && ((1 <= sat.prn && sat.prn <= 5) || (59 <= sat.prn
        && sat.prn <= 63))
}

/// Keplerian orbital elements.
#[derive(Debug, Clone, Copy, PartialEq, Eq, Structural)]
pub struct KeplerianElements {
    /// Square root of the semi-major axis, sqrt(m).
    pub sqrt_a: Decimal,
    /// Eccentricity.
    pub e: Decimal,
    /// Mean anomaly at reference time, rad.
    pub m0: Decimal,
    /// Mean motion difference, rad/s.
    pub delta_n: Decimal,
    /// Longitude of ascending node at weekly epoch, rad.
    pub omega0: Decimal,
    /// Inclination at reference time, rad.
    pub i0: Decimal,
    /// Argument of perigee, rad.
    pub omega: Decimal,
    /// Rate of right ascension, rad/s.
    pub omega_dot: Decimal,
    /// Rate of inclination, rad/s.
    pub idot: Decimal,
    /// Cosine harmonic of the argument of latitude, rad.
    pub cuc: Decimal,
    /// Sine harmonic of the argument of latitude, rad.
    pub cus: Decimal,
    /// Cosine harmonic of the radius, m.
    pub crc: Decimal,
    /// Sine harmonic of the radius, m.
    pub crs: Decimal,
    /// Cosine harmonic of the inclination, rad.
    pub cic: Decimal,
    /// Sine harmonic of the inclination, rad.
    pub cis: Decimal,
    /// Ephemeris reference time, seconds of week.
    pub toe_sow: Decimal,
}

/// A broadcast clock polynomial.
#[derive(Debug, Clone, Copy, PartialEq, Eq, Structural)]
pub struct ClockPolynomial {
    /// Clock bias, s.
    pub af0: Decimal,
    /// Clock drift, s/s.
    pub af1: Decimal,
    /// Clock drift rate, s/s^2.
    pub af2: Decimal,
    /// Clock reference time, seconds of week.
    pub toc_sow: Seconds,
}

/// A Klobuchar-8 broadcast ionosphere coefficient set.
#[derive(Debug, Clone, Copy, PartialEq, Eq)]
pub struct KlobucharAlphaBeta {
    /// Cosine-amplitude polynomial coefficients (a0..a3).
    pub alpha: [Decimal; 4],
    /// Period polynomial coefficients (b0..b3).
    pub beta: [Decimal; 4],
}

/// Galileo NeQuick-G effective-ionisation coefficients.
#[derive(Debug, Clone, Copy, PartialEq, Eq, Structural)]
pub struct GalileoNequickCoeffs {
    /// `ai0`.
    pub ai0: Decimal,
    /// `ai1`.
    pub ai1: Decimal,
    /// `ai2`.
    pub ai2: Decimal,
}

/// Broadcast ionosphere-correction coefficients from a RINEX header's `IONOSPHERIC CORR` (or
/// version 2 `ION ALPHA`/`ION BETA`) records or RINEX 4 body `> ION` frames.
#[derive(Debug, Clone, Copy, PartialEq, Eq)]
pub struct IonoCorrections {
    /// GPS broadcast Klobuchar coefficients (`GPSA`/`GPSB`), if present.
    pub gps: Option<KlobucharAlphaBeta>,
    /// BeiDou broadcast Klobuchar coefficients (`BDSA`/`BDSB`), if present.
    pub beidou: Option<KlobucharAlphaBeta>,
    /// Galileo broadcast NeQuick-G coefficients (`GAL`), if present.
    pub galileo: Option<GalileoNequickCoeffs>,
    /// Galileo ionospheric disturbance flags (the fourth `GAL` value), as stated.
    pub galileo_disturbance_flags: Option<Decimal>,
    /// QZSS broadcast Klobuchar coefficients (`QZSA`/`QZSB`), if present.
    pub qzss: Option<KlobucharAlphaBeta>,
    /// NavIC broadcast Klobuchar coefficients (`IRNA`/`IRNB`), if present.
    pub navic: Option<KlobucharAlphaBeta>,
    /// BeiDou global ionospheric model (BDGIM) coefficients `alpha1..alpha9` from a RINEX 4
    /// `CNVX` ionosphere frame, if present.
    pub beidou_bdgim: Option<[Decimal; 9]>,
}

/// No ionosphere coefficients.
pub open spec fn no_iono() -> IonoCorrections {
    IonoCorrections {
        gps: None,
        beidou: None,
        galileo: None,
        galileo_disturbance_flags: None,
        qzss: None,
        navic: None,
        beidou_bdgim: None,
    }
}

impl Default for IonoCorrections {
    fn default() -> (r: IonoCorrections)
        ensures
            r == no_iono(),
    {
        IonoCorrections {
            gps: None,
            beidou: None,
            galileo: None,
            galileo_disturbance_flags: None,
            qzss: None,
            navic: None,
            beidou_bdgim: None,
        }
    }
}

/// Fields of a legacy broadcast record that the orbit and clock models do not read, as the
/// record states them. `None` for a blank field or one the source does not carry. The writer
/// restates each one in the column it was read from.
#[derive(Debug, Clone, Copy, PartialEq, Eq, Structural)]
pub struct StatedNavFields {
    /// BROADCAST ORBIT-5 field 2: GPS/QZSS codes on L2, the Galileo data-source word (see
    /// [`BroadcastRecord::galileo_data_sources`]), spare for BeiDou and NavIC.
    pub orbit5_field2: Option<Decimal>,
    /// BROADCAST ORBIT-5 field 4: GPS/QZSS L2 P data flag, spare elsewhere.
    pub orbit5_field4: Option<Decimal>,
    /// BROADCAST ORBIT-6 field 4: GPS/QZSS IODC, NavIC spare. Galileo's BGD E5b/E1 and BeiDou's
    /// TGD2 in this column are group delays and are held in [`BroadcastRecord::group_delays`].
    pub orbit6_field4: Option<Decimal>,
    /// BROADCAST ORBIT-7 field 1: transmission time of message, seconds of week, as stated
    /// (including a `.9999E+09` "not known" value).
    pub transmission_time_sow: Option<Decimal>,
    /// BROADCAST ORBIT-7 field 2: the GPS fit interval, the QZSS fit flag, the BeiDou AODC, spare
    /// for Galileo and NavIC, as stated.
    pub orbit7_field2: Option<Decimal>,
    /// BROADCAST ORBIT-7 field 3 (spare).
    pub orbit7_field3: Option<Decimal>,
    /// BROADCAST ORBIT-7 field 4 (spare).
    pub orbit7_field4: Option<Decimal>,
}

/// No stated field.
pub open spec fn nothing_stated() -> StatedNavFields {
    StatedNavFields {
        orbit5_field2: None,
        orbit5_field4: None,
        orbit6_field4: None,
        transmission_time_sow: None,
        orbit7_field2: None,
        orbit7_field3: None,
        orbit7_field4: None,
    }
}

impl Default for StatedNavFields {
    fn default() -> (r: StatedNavFields)
        ensures
            r == nothing_stated(),
    {
        StatedNavFields {
            orbit5_field2: None,
            orbit5_field4: None,
            orbit6_field4: None,
            transmission_time_sow: None,
            orbit7_field2: None,
            orbit7_field3: None,
            orbit7_field4: None,
        }
    }
}

/// One broadcast navigation record.
#[derive(Debug, Clone, Copy, PartialEq, Eq, Structural)]
pub struct BroadcastRecord {
    /// The transmitting satellite.
    pub satellite_id: GnssSatelliteId,
    /// The navigation message the record carries.
    pub message: NavMessage,
    /// Broadcast issue-of-data for issue-matched correction products. `None` for the GPS/QZSS
    /// CNAV family, whose RINEX 4 record carries no issue of data.
    pub issue_of_data: Option<BroadcastIssue>,
    /// Native broadcast week number as the record states it.
    pub week: u32,
    /// Scale-tagged ephemeris reference time (`toe`). Its week is the stated week moved by a
    /// whole week where that places `toe` within half a week of `toc`; [`Self::week`] keeps the
    /// stated week.
    pub toe: GnssWeekTow,
    /// Scale-tagged clock reference time (`toc`).
    pub toc: GnssWeekTow,
    /// Keplerian orbital elements (`toe_sow` is seconds of week).
    pub elements: KeplerianElements,
    /// Clock polynomial (`toc_sow` is the record's own epoch, seconds of week).
    pub clock: ClockPolynomial,
    /// Broadcast group-delay terms carried by this message.
    pub group_delays: BroadcastGroupDelays,
    /// CNAV/CNAV-2 extension, present only for GPS/QZSS CNAV-family records.
    pub cnav: Option<CnavParameters>,
    /// Satellite health word (0 is healthy for the GPS/Galileo nominal case).
    pub sv_health: Decimal,
    /// Signal-in-space accuracy (m): the stated GPS/QZSS/NavIC URA, Galileo SISA or BeiDou URA,
    /// or the nominal value of the CNAV URA_ED index. `None` for the CNAV indices 15 and -16,
    /// which carry no accuracy prediction.
    pub sv_accuracy_m: Option<Decimal>,
    /// Curve-fit interval in hours, centered on `toe`, as the record states it: GPS ORBIT-7 field
    /// 2 (hours in RINEX 2 and 3.03+, the 0/1 flag of RINEX 3.00-3.02), the QZSS fit flag (0 two
    /// hours, 1 four hours). `None` when absent or unknown, and for Galileo, BeiDou, NavIC and
    /// the CNAV family, whose records state none.
    pub fit_interval_h: Option<Decimal>,
    /// Fields the record states that the orbit and clock models do not read.
    pub stated: StatedNavFields,
}

/// One GLONASS broadcast record: a PZ-90.11 ECEF state vector and the clock terms.
#[derive(Debug, Clone, Copy, PartialEq, Eq)]
pub struct GlonassRecord {
    /// The transmitting satellite.
    pub satellite_id: GnssSatelliteId,
    /// Reference epoch `tb` as whole seconds past J2000 in **UTC**: the record's epoch rounded to
    /// the 15-minute grid.
    pub toe_utc_j2000_s: i64,
    /// The epoch as the record states it, seconds past J2000 in UTC.
    pub epoch_utc_j2000_s: Seconds,
    /// PZ-90.11 ECEF position at the reference epoch (meters).
    pub pos_m: [Decimal; 3],
    /// PZ-90.11 ECEF velocity at the reference epoch (meters/second).
    pub vel_m_s: [Decimal; 3],
    /// Lunisolar acceleration at the reference epoch (meters/second^2).
    pub acc_m_s2: [Decimal; 3],
    /// Clock bias broadcast field (-TauN, seconds).
    pub clk_bias: Decimal,
    /// Relative frequency offset (+GammaN, dimensionless).
    pub gamma_n: Decimal,
    /// Satellite health, BROADCAST ORBIT-1 field 4 (0 is healthy).
    pub sv_health: Decimal,
    /// FDMA frequency-channel number. A stated value above 128 is a receiver's unsigned spelling
    /// of a negative channel and is read as that value less 256.
    pub freq_channel: i32,
    /// The frequency channel field (BROADCAST ORBIT-2 field 4) as stated, before a value above
    /// 128 is folded into [`Self::freq_channel`]. The writer states it again while it folds to
    /// `freq_channel`.
    pub stated_freq_channel: i32,
    /// Message frame time (line 0 field 3) as stated: seconds of the UTC week in RINEX 3 and 4,
    /// seconds of the UTC day in RINEX 2. `None` when blank.
    pub message_frame_time_s: Option<Decimal>,
    /// Age of operational information `E_n` (days), BROADCAST ORBIT-3 field 4.
    pub age_days: Option<Decimal>,
    /// Status flags (RINEX 3.05/4.00 BROADCAST ORBIT-4 field 1) as stated.
    pub status_flags: Option<Decimal>,
    /// L1/L2 group delay difference field (seconds, BROADCAST ORBIT-4 field 2) as stated,
    /// including the `.999999999999E+09` value for an unknown delay; see
    /// [`Self::l1_l2_group_delay_s`].
    pub l1_l2_group_delay_field_s: Option<Decimal>,
    /// Raw accuracy index URAI `F_T` (BROADCAST ORBIT-4 field 3) as stated.
    pub urai: Option<Decimal>,
    /// Health flags (BROADCAST ORBIT-4 field 4) as stated.
    pub health_flags: Option<Decimal>,
}

/// One SBAS broadcast record: an ECEF state at a reference epoch, propagated with a constant
/// acceleration, and a first-order clock.
#[derive(Debug, Clone, Copy, PartialEq, Eq)]
pub struct SbasRecord {
    /// The transmitting satellite (`S20` is PRN 120).
    pub satellite_id: GnssSatelliteId,
    /// Reference epoch `t0` in GPS time, as stated.
    pub epoch: NavEpoch,
    /// Clock bias `aGf0` (seconds).
    pub af0_s: Decimal,
    /// Relative frequency bias `aGf1` (seconds per second).
    pub af1_s_s: Decimal,
    /// Transmission time of message, seconds of GPS week, as stated; `None` when blank.
    pub message_frame_time_s: Option<Decimal>,
    /// ECEF position at `t0` (meters).
    pub pos_m: [Decimal; 3],
    /// ECEF velocity at `t0` (meters/second).
    pub vel_m_s: [Decimal; 3],
    /// ECEF acceleration (meters/second^2).
    pub acc_m_s2: [Decimal; 3],
    /// Health (0 is healthy).
    pub health: Decimal,
    /// Accuracy code (URA, meters), as stated.
    pub ura_m: Option<Decimal>,
    /// Issue of data navigation (IODN), as stated.
    pub iodn: Option<Decimal>,
}

/// The constellation constants a record is evaluated with.
#[derive(Debug, Clone, Copy, PartialEq, Eq, Structural)]
pub enum ConstellationConstants {
    /// The GPS constants, also for QZSS and NavIC.
    Gps,
    /// The Galileo constants.
    Galileo,
    /// The BeiDou constants.
    BeiDou,
}

/// Whether a satellite is a GPS or QZSS satellite.
pub open spec fn gps_or_qzss(sat: GnssSatelliteId) -> bool {
    sat.system == GnssSystem::Gps || sat.system == GnssSystem::Qzss
}

/// The Galileo data-source word of a record.
pub open spec fn data_sources(record: BroadcastRecord) -> Option<u32> {
    if record.satellite_id.system != GnssSystem::Galileo {
        None
    } else {
        match record.stated.orbit5_field2 {
            Some(value) => value.nearest_word(),
            None => None,
        }
    }
}

/// The transmission time of a record's message, seconds of week: the CNAV `t_tm`, or the legacy
/// BROADCAST ORBIT-7 field 1 as stated.
pub open spec fn transmission_sow(record: BroadcastRecord) -> Option<Decimal> {
    match record.cnav {
        Some(cnav) => Some(cnav.transmission_time_sow),
        None => record.stated.transmission_time_sow,
    }
}

impl BroadcastRecord {
    /// Native time scale used by this record's `toe`/`toc`.
    pub fn time_scale(&self) -> (r: TimeScale)
        ensures
            r == self.toe.system,
    {
        self.toe.system
    }

    /// The per-constellation constants this record evaluates with.
    pub fn constants(&self) -> (r: ConstellationConstants)
        ensures
            r == (match self.satellite_id.system {
                GnssSystem::Galileo => ConstellationConstants::Galileo,
                GnssSystem::BeiDou => ConstellationConstants::BeiDou,
                _ => ConstellationConstants::Gps,
            }),
    {
        match self.satellite_id.system {
            GnssSystem::Galileo => ConstellationConstants::Galileo,
            GnssSystem::BeiDou => ConstellationConstants::BeiDou,
            _ => ConstellationConstants::Gps,
        }
    }

    /// Single-frequency group delay of this message: GPS, QZSS and NavIC LNAV TGD, Galileo I/NAV
    /// BGD E5b/E1, Galileo F/NAV BGD E5a/E1, BeiDou TGD1, CNAV TGD less ISC L1C/A; zero where the
    /// message states none.
    pub fn broadcast_clock_group_delay_s(&self) -> (r: GroupDelay)
        ensures
            r == (match self.group_delays.message_delay(self.satellite_id.system, self.message) {
                Some(delay) => delay,
                None => GroupDelay::Zero,
            }),
    {
        match self.group_delays.for_message(self.satellite_id.system, self.message) {
            Some(delay) => delay,
            None => GroupDelay::Zero,
        }
    }

    /// GPS/QZSS IODC (BROADCAST ORBIT-6 field 4), as stated.
    pub fn iodc(&self) -> (r: Option<Decimal>)
        ensures
            r == (if gps_or_qzss(self.satellite_id) {
                self.stated.orbit6_field4
            } else {
                None
            }),
    {
        match self.satellite_id.system {
            GnssSystem::Gps | GnssSystem::Qzss => self.stated.orbit6_field4,
            _ => None,
        }
    }

    /// GPS/QZSS codes on L2 (BROADCAST ORBIT-5 field 2), as stated.
    pub fn l2_codes(&self) -> (r: Option<Decimal>)
        ensures
            r == (if gps_or_qzss(self.satellite_id) {
                self.stated.orbit5_field2
            } else {
                None
            }),
    {
        match self.satellite_id.system {
            GnssSystem::Gps | GnssSystem::Qzss => self.stated.orbit5_field2,
            _ => None,
        }
    }

    /// GPS/QZSS L2 P data flag (BROADCAST ORBIT-5 field 4), as stated.
    pub fn l2p_data_flag(&self) -> (r: Option<Decimal>)
        ensures
            r == (if gps_or_qzss(self.satellite_id) {
                self.stated.orbit5_field4
            } else {
                None
            }),
    {
        match self.satellite_id.system {
            GnssSystem::Gps | GnssSystem::Qzss => self.stated.orbit5_field4,
            _ => None,
        }
    }

    /// The Galileo data-source word (BROADCAST ORBIT-5 field 2): bit 0 I/NAV E1-B, bit 1 F/NAV
    /// E5a-I, bit 2 I/NAV E5b-I, bit 8 clock for E5a/E1, bit 9 clock for E5b/E1. The stated value
    /// is converted to the nearest integer, as RINEX 3.05 section 6.9 reads a bitwise field. `None`
    /// for another system, a blank field, or a value outside `u32`.
    pub fn galileo_data_sources(&self) -> (r: Option<u32>)
        ensures
            r == data_sources(*self),
    {
        if self.satellite_id.system != GnssSystem::Galileo {
            return None;
        }
        match self.stated.orbit5_field2 {
            Some(value) => value.to_nearest_word(),
            None => None,
        }
    }

    /// BeiDou AODC (BROADCAST ORBIT-7 field 2), as stated.
    pub fn beidou_aodc(&self) -> (r: Option<Decimal>)
        ensures
            r == (if self.satellite_id.system == GnssSystem::BeiDou {
                self.stated.orbit7_field2
            } else {
                None
            }),
    {
        if self.satellite_id.system == GnssSystem::BeiDou {
            self.stated.orbit7_field2
        } else {
            None
        }
    }

    /// Transmission time of message, seconds of week (see [`transmission_sow`]).
    pub fn transmission_time_sow(&self) -> (r: Option<Decimal>)
        ensures
            r == transmission_sow(*self),
    {
        match self.cnav {
            Some(cnav) => Some(cnav.transmission_time_sow),
            None => self.stated.transmission_time_sow,
        }
    }
}

} // verus!

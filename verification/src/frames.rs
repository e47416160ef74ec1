//! RINEX 4 system time offset (`> STO`), Earth orientation (`> EOP`) and ionosphere (`> ION`)
//! frames.

use vstd::prelude::*;

use crate::decimal::{zero, Decimal};
use crate::error::{bad_field, faults, Fault, NavParseError};
use crate::fields::{
    check_extra_lines, extra_departures, field_count, given, parse_record_epoch, raw_at,
    raw_record_field, record_epoch, record_field, value_at, CivilSecondPolicy, Layout,
};
use crate::id::{GnssSatelliteId, GnssSystem};
use crate::keplerian::Decoded;
use crate::record::{GalileoNequickCoeffs, IonoCorrections, KlobucharAlphaBeta};
use crate::text::{blank, is_blank, opt_utf8, optional_text, own, same, text_at, texts, utf8};
use crate::time::{NavEpoch, Seconds};

verus! {

/// A RINEX 4 system time offset frame (`> STO SV MSG`).
#[derive(Debug, Clone, PartialEq, Eq)]
pub struct SystemTimeOffset {
    /// The satellite that transmitted the parameters.
    pub satellite_id: GnssSatelliteId,
    /// The message token of the frame marker.
    pub message_token: String,
    /// Reference epoch of the offset polynomial, as stated.
    pub reference_epoch: NavEpoch,
    /// Time offset type (`GPUT`, `GAUT`, `GAGP`, ...), trimmed.
    pub offset_code: String,
    /// SBAS provider identifier, when stated.
    pub sbas_id: Option<String>,
    /// UTC identifier (`UTC(USNO)`, `UTCGAL`, ...), when stated.
    pub utc_id: Option<String>,
    /// Transmission time of message, seconds of week.
    pub transmission_time_sow: Decimal,
    /// `a0`, seconds.
    pub a0_s: Decimal,
    /// `a1`, seconds per second; `None` when blank.
    pub a1_s_s: Option<Decimal>,
    /// `a2`, seconds per second squared; `None` when blank.
    pub a2_s_s2: Option<Decimal>,
}

/// A RINEX 4 Earth orientation frame (`> EOP SV MSG`).
#[derive(Debug, Clone, PartialEq, Eq)]
pub struct EarthOrientation {
    /// The satellite that transmitted the parameters.
    pub satellite_id: GnssSatelliteId,
    /// The message token of the frame marker.
    pub message_token: String,
    /// Reference epoch of the parameters, as stated.
    pub reference_epoch: NavEpoch,
    /// Pole x (arcseconds), its rate (arcseconds/day) and its rate of change (arcseconds/day^2);
    /// a blank rate term is `None`.
    pub xp: [Option<Decimal>; 3],
    /// Pole y (arcseconds), its rate (arcseconds/day) and its rate of change (arcseconds/day^2);
    /// a blank rate term is `None`.
    pub yp: [Option<Decimal>; 3],
    /// Transmission time of message, seconds of week.
    pub transmission_time_sow: Decimal,
    /// UT1 - UTC (seconds), its rate (seconds/day) and its rate of change (seconds/day^2); a
    /// blank rate term is `None`.
    pub dut1: [Option<Decimal>; 3],
}

/// The model of a RINEX 4 ionosphere frame.
#[allow(inconsistent_fields)]
#[derive(Debug, Clone, Copy, PartialEq, Eq)]
pub enum IonosphereModel {
    /// Klobuchar coefficients: GPS and QZSS `LNAV` and `CNVX`, BeiDou `D1D2`, NavIC `LNAV`. The
    /// ninth value is the region code QZSS states, as read.
    Klobuchar {
        /// The alpha and beta coefficients.
        coefficients: KlobucharAlphaBeta,
        /// The ninth value, as stated.
        region_code: Option<Decimal>,
    },
    /// Galileo NeQuick-G coefficients (`IFNV`) and disturbance flags.
    NequickG {
        /// `ai0`, `ai1`, `ai2`.
        coefficients: GalileoNequickCoeffs,
        /// The disturbance flags, as stated.
        disturbance_flags: Option<Decimal>,
    },
    /// BeiDou global ionospheric model coefficients `alpha1..alpha9` (`CNVX`).
    Bdgim([Decimal; 9]),
}

/// A RINEX 4 ionosphere frame (`> ION SV MSG`).
#[derive(Debug, Clone, PartialEq, Eq)]
pub struct IonosphereFrame {
    /// The satellite that transmitted the parameters.
    pub satellite_id: GnssSatelliteId,
    /// The message token of the frame marker.
    pub message_token: String,
    /// Transmission epoch, as stated, in the system's time scale.
    pub transmission_epoch: NavEpoch,
    /// The frame's values in order, `None` for a blank field; trailing blanks are not listed.
    pub values: Vec<Option<Decimal>>,
    /// The model the values form.
    pub model: IonosphereModel,
}

/// What a [`SystemTimeOffset`] states, its texts as bytes.
pub ghost struct OffsetFrame {
    /// The satellite.
    pub satellite_id: GnssSatelliteId,
    /// The message token.
    pub token: Seq<u8>,
    /// The reference epoch.
    pub epoch: NavEpoch,
    /// The time offset type.
    pub code: Seq<u8>,
    /// The SBAS provider identifier.
    pub sbas_id: Option<Seq<u8>>,
    /// The UTC identifier.
    pub utc_id: Option<Seq<u8>>,
    /// The transmission time.
    pub sent: Decimal,
    /// `a0`.
    pub a0: Decimal,
    /// `a1`.
    pub a1: Option<Decimal>,
    /// `a2`.
    pub a2: Option<Decimal>,
}

/// What an [`EarthOrientation`] states, its texts as bytes.
pub ghost struct OrientationFrame {
    /// The satellite.
    pub satellite_id: GnssSatelliteId,
    /// The message token.
    pub token: Seq<u8>,
    /// The reference epoch.
    pub epoch: NavEpoch,
    /// Pole x and its rates.
    pub xp: Seq<Option<Decimal>>,
    /// Pole y and its rates.
    pub yp: Seq<Option<Decimal>>,
    /// The transmission time.
    pub sent: Decimal,
    /// UT1 - UTC and its rates.
    pub dut1: Seq<Option<Decimal>>,
}

/// What an [`IonosphereFrame`] states, its texts as bytes.
pub ghost struct IonFrame {
    /// The satellite.
    pub satellite_id: GnssSatelliteId,
    /// The message token.
    pub token: Seq<u8>,
    /// The transmission epoch.
    pub epoch: NavEpoch,
    /// The values.
    pub values: Seq<Option<Decimal>>,
    /// The model the values form.
    pub model: IonosphereModel,
}

impl View for SystemTimeOffset {
    type V = OffsetFrame;

    open spec fn view(&self) -> OffsetFrame {
        OffsetFrame {
            satellite_id: self.satellite_id,
            token: utf8(self.message_token@),
            epoch: self.reference_epoch,
            code: utf8(self.offset_code@),
            sbas_id: opt_utf8(self.sbas_id),
            utc_id: opt_utf8(self.utc_id),
            sent: self.transmission_time_sow,
            a0: self.a0_s,
            a1: self.a1_s_s,
            a2: self.a2_s_s2,
        }
    }
}

impl View for EarthOrientation {
    type V = OrientationFrame;

    open spec fn view(&self) -> OrientationFrame {
        OrientationFrame {
            satellite_id: self.satellite_id,
            token: utf8(self.message_token@),
            epoch: self.reference_epoch,
            xp: self.xp@,
            yp: self.yp@,
            sent: self.transmission_time_sow,
            dut1: self.dut1@,
        }
    }
}

impl View for IonosphereFrame {
    type V = IonFrame;

    open spec fn view(&self) -> IonFrame {
        IonFrame {
            satellite_id: self.satellite_id,
            token: utf8(self.message_token@),
            epoch: self.transmission_epoch,
            values: self.values@,
            model: self.model,
        }
    }
}

/// Whether the first `count` fields of a frame's lines are each blank or state a value.
pub open spec fn frame_readable(lines: Seq<Seq<u8>>, count: int) -> bool {
    forall|i: int|
        0 <= i < count ==> (blank(#[trigger] raw_at(lines, Layout::V3, i)) || value_at(
            lines,
            Layout::V3,
            i,
        ) is Some)
}

/// Whether the first `count` fields of a frame's lines are each blank or state a value.
fn frame_reads(lines: &[&str], count: usize) -> (r: bool)
    ensures
        r == frame_readable(texts(lines@), count as int),
{
    let mut i: usize = 0;
    let ghost all = texts(lines@);
    while i < count
        invariant
            all == texts(lines@),
            i <= count,
            frame_readable(all, i as int),
        decreases count - i,
    {
        if record_field(lines, Layout::V3, i).is_none() && !is_blank(
            raw_record_field(lines, Layout::V3, i),
        ) {
            assert(!(blank(raw_at(all, Layout::V3, i as int)) || value_at(
                all,
                Layout::V3,
                i as int,
            ) is Some));
            return false;
        }
        i = i + 1;
    }
    true
}

/// The system time offset frame a body states, with the departures read through: the reference
/// epoch, offset type, SBAS and UTC identifiers, then the transmission time and `a0`, `a1`, `a2`.
pub open spec fn offset_frame(
    body: Seq<Seq<u8>>,
    satellite_id: GnssSatelliteId,
    sat: Seq<u8>,
    token: Seq<u8>,
) -> Result<(OffsetFrame, Seq<Fault>), Fault> {
    if body.len() < 2 {
        Err(Fault::TruncatedRecord(sat))
    } else {
        match (record_epoch(body[0], Layout::V3, CivilSecondPolicy::Continuous), text_at(
            body[0],
            24,
            42,
        )) {
            (Some(epoch), Some(code)) => if !offset_values_read(body) {
                Err(bad_field(sat, "system time offset"))
            } else {
                Ok(
                    (
                        OffsetFrame {
                            satellite_id,
                            token,
                            epoch,
                            code,
                            sbas_id: text_at(body[0], 43, 61),
                            utc_id: text_at(body[0], 62, 80),
                            sent: given(body, Layout::V3, 3),
                            a0: given(body, Layout::V3, 4),
                            a1: value_at(body, Layout::V3, 5),
                            a2: value_at(body, Layout::V3, 6),
                        },
                        extra_departures(body, 2, sat),
                    ),
                )
            },
            _ => Err(bad_field(sat, "system time offset")),
        }
    }
}

/// Whether the values of a system time offset frame read: the first two stated, the others blank
/// or stated.
pub open spec fn offset_values_read(body: Seq<Seq<u8>>) -> bool {
    &&& value_at(body, Layout::V3, 3) is Some
    &&& value_at(body, Layout::V3, 4) is Some
    &&& (blank(raw_at(body, Layout::V3, 5)) || value_at(body, Layout::V3, 5) is Some)
    &&& (blank(raw_at(body, Layout::V3, 6)) || value_at(body, Layout::V3, 6) is Some)
}

/// Read a `> STO` frame's body (see [`offset_frame`]).
pub fn parse_sto_frame(
    body: &[&str],
    satellite_id: GnssSatelliteId,
    sat: &str,
    message_token: &str,
) -> (r: Result<Decoded<SystemTimeOffset>, NavParseError>)
    ensures
        match r {
            Ok(d) => offset_frame(texts(body@), satellite_id, utf8(sat@), utf8(message_token@))
                == Ok::<(OffsetFrame, Seq<Fault>), Fault>((d.value@, faults(d.departures@))),
            Err(e) => offset_frame(texts(body@), satellite_id, utf8(sat@), utf8(message_token@))
                == Err::<(OffsetFrame, Seq<Fault>), Fault>(e@),
        },
{
    let ghost all = texts(body@);
    if body.len() < 2 {
        return Err(NavParseError::truncated(sat));
    }
    let mut departures: Vec<NavParseError> = Vec::new();
    check_extra_lines(body, 2, sat, &mut departures);
    assert(faults(departures@) =~= extra_departures(all, 2, utf8(sat@)));
    let reference_epoch = match parse_record_epoch(
        body[0],
        Layout::V3,
        sat,
        "system time offset",
        CivilSecondPolicy::Continuous,
    ) {
        Ok(epoch) => epoch,
        Err(e) => {
            return Err(e);
        },
    };
    let offset_code = match optional_text(body[0], 24, 42) {
        Some(code) => code,
        None => {
            return Err(NavParseError::bad(sat, "system time offset"));
        },
    };
    let sent = record_field(body, Layout::V3, 3);
    let a0 = record_field(body, Layout::V3, 4);
    let a1_s_s = record_field(body, Layout::V3, 5);
    let a2_s_s2 = record_field(body, Layout::V3, 6);
    let a1_bad: bool = a1_s_s.is_none() && !is_blank(raw_record_field(body, Layout::V3, 5));
    let a2_bad: bool = a2_s_s2.is_none() && !is_blank(raw_record_field(body, Layout::V3, 6));
    match (sent, a0) {
        (Some(transmission_time_sow), Some(a0_s)) if !a1_bad && !a2_bad => Ok(
            Decoded {
                value: SystemTimeOffset {
                    satellite_id,
                    message_token: own(message_token),
                    reference_epoch,
                    offset_code,
                    sbas_id: optional_text(body[0], 43, 61),
                    utc_id: optional_text(body[0], 62, 80),
                    transmission_time_sow,
                    a0_s,
                    a1_s_s,
                    a2_s_s2,
                },
                departures,
            },
        ),
        _ => Err(NavParseError::bad(sat, "system time offset")),
    }
}

/// The Earth orientation frame a body states, with the departures read through: the reference
/// epoch with pole x and its rates, pole y and its rates, then the transmission time with
/// UT1 - UTC and its rates.
pub open spec fn orientation_frame(
    body: Seq<Seq<u8>>,
    satellite_id: GnssSatelliteId,
    sat: Seq<u8>,
    token: Seq<u8>,
) -> Result<(OrientationFrame, Seq<Fault>), Fault> {
    let v = |index: int| value_at(body, Layout::V3, index);
    if body.len() < 3 {
        Err(Fault::TruncatedRecord(sat))
    } else {
        match record_epoch(body[0], Layout::V3, CivilSecondPolicy::Continuous) {
            None => Err(bad_field(sat, "earth orientation")),
            Some(epoch) => if !frame_readable(body, 11) || v(0) is None || v(4) is None || v(7)
                is None || v(8) is None {
                Err(bad_field(sat, "earth orientation"))
            } else {
                Ok(
                    (
                        OrientationFrame {
                            satellite_id,
                            token,
                            epoch,
                            xp: seq![v(0), v(1), v(2)],
                            yp: seq![v(4), v(5), v(6)],
                            sent: v(7)->0,
                            dut1: seq![v(8), v(9), v(10)],
                        },
                        extra_departures(body, 3, sat),
                    ),
                )
            },
        }
    }
}

/// Read a `> EOP` frame's body (see [`orientation_frame`]).
pub fn parse_eop_frame(
    body: &[&str],
    satellite_id: GnssSatelliteId,
    sat: &str,
    message_token: &str,
) -> (r: Result<Decoded<EarthOrientation>, NavParseError>)
    ensures
        match r {
            Ok(d) => orientation_frame(
                texts(body@),
                satellite_id,
                utf8(sat@),
                utf8(message_token@),
            ) == Ok::<(OrientationFrame, Seq<Fault>), Fault>((d.value@, faults(d.departures@))),
            Err(e) => orientation_frame(
                texts(body@),
                satellite_id,
                utf8(sat@),
                utf8(message_token@),
            ) == Err::<(OrientationFrame, Seq<Fault>), Fault>(e@),
        },
{
    let ghost all = texts(body@);
    if body.len() < 3 {
        return Err(NavParseError::truncated(sat));
    }
    let mut departures: Vec<NavParseError> = Vec::new();
    check_extra_lines(body, 3, sat, &mut departures);
    assert(faults(departures@) =~= extra_departures(all, 3, utf8(sat@)));
    let reference_epoch = match parse_record_epoch(
        body[0],
        Layout::V3,
        sat,
        "earth orientation",
        CivilSecondPolicy::Continuous,
    ) {
        Ok(epoch) => epoch,
        Err(e) => {
            return Err(e);
        },
    };
    let x = record_field(body, Layout::V3, 0);
    let y = record_field(body, Layout::V3, 4);
    let ut = record_field(body, Layout::V3, 8);
    if !frame_reads(body, 11) || x.is_none() || y.is_none() || ut.is_none() {
        return Err(NavParseError::bad(sat, "earth orientation"));
    }
    let transmission_time_sow: Decimal = match record_field(body, Layout::V3, 7) {
        Some(sent) => sent,
        None => {
            return Err(NavParseError::bad(sat, "earth orientation"));
        },
    };
    let xp = [x, record_field(body, Layout::V3, 1), record_field(body, Layout::V3, 2)];
    let yp = [y, record_field(body, Layout::V3, 5), record_field(body, Layout::V3, 6)];
    let dut1 = [ut, record_field(body, Layout::V3, 9), record_field(body, Layout::V3, 10)];
    proof {
        let v = |index: int| value_at(all, Layout::V3, index);
        assert(xp@ =~= seq![v(0), v(1), v(2)]);
        assert(yp@ =~= seq![v(4), v(5), v(6)]);
        assert(dut1@ =~= seq![v(8), v(9), v(10)]);
    }
    Ok(
        Decoded {
            value: EarthOrientation {
                satellite_id,
                message_token: own(message_token),
                reference_epoch,
                xp,
                yp,
                transmission_time_sow,
                dut1,
            },
            departures,
        },
    )
}

/// Which model an ionosphere frame states.
#[derive(Debug, Clone, Copy, PartialEq, Eq, Structural)]
pub enum IonKind {
    /// Klobuchar coefficients.
    Klobuchar,
    /// NeQuick-G coefficients.
    Nequick,
    /// BDGIM coefficients.
    Bdgim,
}

/// The model of an ionosphere frame of a system and message; `None` for one there is no model
/// for.
pub open spec fn ion_kind(system: GnssSystem, token: Seq<u8>) -> Option<IonKind> {
    match system {
        GnssSystem::Gps | GnssSystem::Qzss => if token == utf8("LNAV"@) || token == utf8("CNVX"@) {
            Some(IonKind::Klobuchar)
        } else {
            None
        },
        GnssSystem::BeiDou => if token == utf8("D1D2"@) {
            Some(IonKind::Klobuchar)
        } else if token == utf8("CNVX"@) {
            Some(IonKind::Bdgim)
        } else {
            None
        },
        GnssSystem::Navic => if token == utf8("LNAV"@) {
            Some(IonKind::Klobuchar)
        } else {
            None
        },
        GnssSystem::Galileo => if token == utf8("IFNV"@) {
            Some(IonKind::Nequick)
        } else {
            None
        },
        _ => None,
    }
}

fn ion_kind_of(system: GnssSystem, token: &str) -> (r: Option<IonKind>)
    ensures
        r == ion_kind(system, utf8(token@)),
{
    match system {
        GnssSystem::Gps | GnssSystem::Qzss => if same(token, "LNAV") || same(token, "CNVX") {
            Some(IonKind::Klobuchar)
        } else {
            None
        },
        GnssSystem::BeiDou => {
            proof {
                reveal_strlit("D1D2");
                reveal_strlit("CNVX");
                crate::text::lemma_utf8_ascii("D1D2"@);
                crate::text::lemma_utf8_ascii("CNVX"@);
            }
            if same(token, "D1D2") {
                Some(IonKind::Klobuchar)
            } else if same(token, "CNVX") {
                Some(IonKind::Bdgim)
            } else {
                None
            }
        },
        GnssSystem::Navic => if same(token, "LNAV") {
            Some(IonKind::Klobuchar)
        } else {
            None
        },
        GnssSystem::Galileo => if same(token, "IFNV") {
            Some(IonKind::Nequick)
        } else {
            None
        },
        _ => None,
    }
}

/// The number of lines an ionosphere frame's values fill: three values on the first line, four on
/// each next one.
pub open spec fn ion_lines(kind: IonKind) -> int {
    if kind == IonKind::Nequick {
        2
    } else {
        3
    }
}

/// The number of values of an ionosphere frame.
pub open spec fn ion_count(kind: IonKind) -> int {
    if kind == IonKind::Nequick {
        4
    } else {
        9
    }
}

/// Values without the blank ones at their end.
pub open spec fn drop_blanks(values: Seq<Option<Decimal>>) -> Seq<Option<Decimal>>
    decreases values.len(),
{
    if values.len() > 0 && values.last() is None {
        drop_blanks(values.drop_last())
    } else {
        values
    }
}

/// The values of an ionosphere frame: those of its first fields, without the blank ones at their
/// end.
pub open spec fn ion_values(body: Seq<Seq<u8>>, kind: IonKind) -> Seq<Option<Decimal>> {
    let n = field_count(
        if body.len() < ion_lines(kind) {
            body.len() as int
        } else {
            ion_lines(kind)
        },
    );
    drop_blanks(
        Seq::new(
            (if n < ion_count(kind) {
                n
            } else {
                ion_count(kind)
            }) as nat,
            |i: int| value_at(body, Layout::V3, i),
        ),
    )
}

/// The value `index` of an ionosphere frame, where it has one.
pub open spec fn ion_value(values: Seq<Option<Decimal>>, index: int) -> Option<Decimal> {
    if 0 <= index < values.len() {
        values[index]
    } else {
        None
    }
}

/// Whether the first `count` values of an ionosphere frame are stated.
pub open spec fn ion_values_given(values: Seq<Option<Decimal>>, count: int) -> bool {
    forall|i: int| 0 <= i < count ==> (#[trigger] ion_value(values, i)) is Some
}

/// The model that values of a kind form, where those it needs are stated: Klobuchar eight,
/// NeQuick-G three, BDGIM nine.
pub open spec fn ion_model(values: Seq<Option<Decimal>>, kind: IonKind) -> Option<
    IonosphereModel,
> {
    let v = |i: int| ion_value(values, i)->0;
    match kind {
        IonKind::Klobuchar => if ion_values_given(values, 8) {
            Some(
                IonosphereModel::Klobuchar {
                    coefficients: KlobucharAlphaBeta {
                        alpha: [v(0), v(1), v(2), v(3)],
                        beta: [v(4), v(5), v(6), v(7)],
                    },
                    region_code: ion_value(values, 8),
                },
            )
        } else {
            None
        },
        IonKind::Nequick => if ion_values_given(values, 3) {
            Some(
                IonosphereModel::NequickG {
                    coefficients: GalileoNequickCoeffs { ai0: v(0), ai1: v(1), ai2: v(2) },
                    disturbance_flags: ion_value(values, 3),
                },
            )
        } else {
            None
        },
        IonKind::Bdgim => if ion_values_given(values, 9) {
            Some(
                IonosphereModel::Bdgim([v(0), v(1), v(2), v(3), v(4), v(5), v(6), v(7), v(8)]),
            )
        } else {
            None
        },
    }
}

/// The ionosphere frame a body states, with the departures read through: the transmission epoch
/// and the model's values. `Ok(None)` for a system and message there is no model for.
pub open spec fn ion_frame(
    body: Seq<Seq<u8>>,
    satellite_id: GnssSatelliteId,
    sat: Seq<u8>,
    token: Seq<u8>,
) -> Result<Option<(IonFrame, Seq<Fault>)>, Fault> {
    match ion_kind(satellite_id.system, token) {
        None => Ok(None),
        Some(kind) => if body.len() == 0 {
            Err(Fault::TruncatedRecord(sat))
        } else {
            let used = if body.len() < ion_lines(kind) {
                body.len() as int
            } else {
                ion_lines(kind)
            };
            match (record_epoch(body[0], Layout::V3, CivilSecondPolicy::Continuous), ion_model(
                ion_values(body, kind),
                kind,
            )) {
                (Some(epoch), Some(model)) => if !frame_readable(body, field_count(used)) {
                    Err(bad_field(sat, "ionospheric correction"))
                } else {
                    Ok(
                        Some(
                            (
                                IonFrame {
                                    satellite_id,
                                    token,
                                    epoch,
                                    values: ion_values(body, kind),
                                    model,
                                },
                                extra_departures(body, ion_lines(kind), sat),
                            ),
                        ),
                    )
                },
                _ => Err(bad_field(sat, "ionospheric correction")),
            }
        },
    }
}

/// The value `index` of an ionosphere frame (see [`ion_value`]).
fn value_of(values: &Vec<Option<Decimal>>, index: usize) -> (r: Option<Decimal>)
    ensures
        r == ion_value(values@, index as int),
{
    if index < values.len() {
        values[index]
    } else {
        None
    }
}

/// The value `index` of an ionosphere frame that states it.
fn stated_of(values: &Vec<Option<Decimal>>, index: usize) -> (r: Decimal)
    requires
        ion_value(values@, index as int) is Some,
    ensures
        r == ion_value(values@, index as int)->0,
{
    match value_of(values, index) {
        Some(d) => d,
        None => Decimal::zero(),
    }
}

/// Whether the first `count` values of an ionosphere frame are stated.
fn all_given(values: &Vec<Option<Decimal>>, count: usize) -> (r: bool)
    ensures
        r == ion_values_given(values@, count as int),
{
    let mut i: usize = 0;
    while i < count
        invariant
            i <= count,
            ion_values_given(values@, i as int),
        decreases count - i,
    {
        if value_of(values, i).is_none() {
            assert(ion_value(values@, i as int) is None);
            return false;
        }
        i = i + 1;
    }
    true
}

/// The model that values of a kind form (see [`ion_model`]).
fn model_of(values: &Vec<Option<Decimal>>, kind: IonKind) -> (r: Option<IonosphereModel>)
    ensures
        r == ion_model(values@, kind),
{
    match kind {
        IonKind::Klobuchar => {
            if !all_given(values, 8) {
                return None;
            }
            let alpha = [
                stated_of(values, 0),
                stated_of(values, 1),
                stated_of(values, 2),
                stated_of(values, 3),
            ];
            let beta = [
                stated_of(values, 4),
                stated_of(values, 5),
                stated_of(values, 6),
                stated_of(values, 7),
            ];
            Some(
                IonosphereModel::Klobuchar {
                    coefficients: KlobucharAlphaBeta { alpha, beta },
                    region_code: value_of(values, 8),
                },
            )
        },
        IonKind::Nequick => {
            if !all_given(values, 3) {
                return None;
            }
            Some(
                IonosphereModel::NequickG {
                    coefficients: GalileoNequickCoeffs {
                        ai0: stated_of(values, 0),
                        ai1: stated_of(values, 1),
                        ai2: stated_of(values, 2),
                    },
                    disturbance_flags: value_of(values, 3),
                },
            )
        },
        IonKind::Bdgim => {
            if !all_given(values, 9) {
                return None;
            }
            Some(
                IonosphereModel::Bdgim(
                    [
                        stated_of(values, 0),
                        stated_of(values, 1),
                        stated_of(values, 2),
                        stated_of(values, 3),
                        stated_of(values, 4),
                        stated_of(values, 5),
                        stated_of(values, 6),
                        stated_of(values, 7),
                        stated_of(values, 8),
                    ],
                ),
            )
        },
    }
}

/// The first `count` values of a body, without the blank ones at their end.
fn leading_values(body: &[&str], count: usize) -> (r: Vec<Option<Decimal>>)
    ensures
        r@ == drop_blanks(
            Seq::new(count as nat, |i: int| value_at(texts(body@), Layout::V3, i)),
        ),
{
    let mut values: Vec<Option<Decimal>> = Vec::new();
    let mut i: usize = 0;
    while i < count
        invariant
            i <= count,
            values@.len() == i,
            forall|k: int|
                0 <= k < i ==> #[trigger] values@[k] == value_at(texts(body@), Layout::V3, k),
        decreases count - i,
    {
        values.push(record_field(body, Layout::V3, i));
        i = i + 1;
    }
    let ghost all = Seq::new(count as nat, |i: int| value_at(texts(body@), Layout::V3, i));
    assert(values@ =~= all);
    while values.len() > 0 && values[values.len() - 1].is_none()
        invariant
            drop_blanks(values@) == drop_blanks(all),
        decreases values@.len(),
    {
        let ghost before = values@;
        values.pop();
        assert(values@ =~= before.drop_last());
    }
    values
}

/// Read a `> ION` frame's body (see [`ion_frame`]).
pub fn parse_ion_frame(
    body: &[&str],
    satellite_id: GnssSatelliteId,
    sat: &str,
    message_token: &str,
) -> (r: Result<Option<Decoded<IonosphereFrame>>, NavParseError>)
    ensures
        match r {
            Ok(Some(d)) => ion_frame(texts(body@), satellite_id, utf8(sat@), utf8(message_token@))
                == Ok::<Option<(IonFrame, Seq<Fault>)>, Fault>(
                Some((d.value@, faults(d.departures@))),
            ),
            Ok(None) => ion_frame(texts(body@), satellite_id, utf8(sat@), utf8(message_token@))
                == Ok::<Option<(IonFrame, Seq<Fault>)>, Fault>(None),
            Err(e) => ion_frame(texts(body@), satellite_id, utf8(sat@), utf8(message_token@))
                == Err::<Option<(IonFrame, Seq<Fault>)>, Fault>(e@),
        },
{
    let ghost all = texts(body@);
    let kind = match ion_kind_of(satellite_id.system, message_token) {
        Some(kind) => kind,
        None => {
            return Ok(None);
        },
    };
    let (value_count, lines): (usize, usize) = match kind {
        IonKind::Klobuchar => (9, 3),
        IonKind::Nequick => (4, 2),
        IonKind::Bdgim => (9, 3),
    };
    if body.len() == 0 {
        return Err(NavParseError::truncated(sat));
    }
    let mut departures: Vec<NavParseError> = Vec::new();
    check_extra_lines(body, lines, sat, &mut departures);
    assert(faults(departures@) =~= extra_departures(all, ion_lines(kind), utf8(sat@)));
    let transmission_epoch = match parse_record_epoch(
        body[0],
        Layout::V3,
        sat,
        "ionospheric correction",
        CivilSecondPolicy::Continuous,
    ) {
        Ok(epoch) => epoch,
        Err(e) => {
            return Err(e);
        },
    };
    let used: usize = if body.len() < lines {
        body.len()
    } else {
        lines
    };
    let fields: usize = 3 + 4 * (used - 1);
    if !frame_reads(body, fields) {
        return Err(NavParseError::bad(sat, "ionospheric correction"));
    }
    let values = leading_values(
        body,
        if fields < value_count {
            fields
        } else {
            value_count
        },
    );
    assert(values@ == ion_values(all, kind));
    match model_of(&values, kind) {
        Some(model) => Ok(
            Some(
                Decoded {
                    value: IonosphereFrame {
                        satellite_id,
                        message_token: own(message_token),
                        transmission_epoch,
                        values,
                        model,
                    },
                    departures,
                },
            ),
        ),
        None => Err(NavParseError::bad(sat, "ionospheric correction")),
    }
}

/// A time `n` whole seconds later.
pub open spec fn later(t: Seconds, n: int) -> Seconds {
    Seconds { whole: (t.whole + n) as i64, quectos: t.quectos }
}

impl IonFrame {
    /// The transmission epoch in GPS time, seconds since J2000: BDT is GPS time less 14 s;
    /// Galileo, QZSS and NavIC time run on GPS time.
    pub open spec fn sent(self) -> Seconds {
        later(
            self.epoch.j2000(),
            if self.satellite_id.system == GnssSystem::BeiDou {
                14
            } else {
                0
            },
        )
    }

    /// The coefficient sets with this frame's in the set of its system.
    pub open spec fn applied(self, iono: IonoCorrections) -> IonoCorrections {
        match self.model {
            IonosphereModel::Klobuchar { coefficients, .. } => match self.satellite_id.system {
                GnssSystem::Gps => IonoCorrections { gps: Some(coefficients), ..iono },
                GnssSystem::Qzss => IonoCorrections { qzss: Some(coefficients), ..iono },
                GnssSystem::BeiDou => IonoCorrections { beidou: Some(coefficients), ..iono },
                GnssSystem::Navic => IonoCorrections { navic: Some(coefficients), ..iono },
                _ => iono,
            },
            IonosphereModel::NequickG { coefficients, disturbance_flags } => IonoCorrections {
                galileo: Some(coefficients),
                galileo_disturbance_flags: disturbance_flags,
                ..iono
            },
            IonosphereModel::Bdgim(coefficients) => IonoCorrections {
                beidou_bdgim: Some(coefficients),
                ..iono
            },
        }
    }
}

/// What frames state.
pub open spec fn ion_frames(frames: Seq<IonosphereFrame>) -> Seq<IonFrame> {
    frames.map_values(|frame: IonosphereFrame| frame@)
}

/// Frames with `frame` put after those not transmitted later than it.
pub open spec fn put_in_order(frames: Seq<IonFrame>, frame: IonFrame) -> Seq<IonFrame>
    decreases frames.len(),
{
    if frames.len() > 0 && frame.sent().total() < frames.last().sent().total() {
        put_in_order(frames.drop_last(), frame).push(frames.last())
    } else {
        frames.push(frame)
    }
}

/// Frames in transmission order, frames transmitted at the same instant in their own order (see
/// [`law_transmission_order`]).
pub open spec fn in_transmission_order(frames: Seq<IonFrame>) -> Seq<IonFrame>
    decreases frames.len(),
{
    if frames.len() == 0 {
        frames
    } else {
        put_in_order(in_transmission_order(frames.drop_last()), frames.last())
    }
}

/// Whether frames stand in transmission order.
pub open spec fn ordered(frames: Seq<IonFrame>) -> bool {
    forall|i: int, j: int|
        0 <= i <= j < frames.len() ==> (#[trigger] frames[i]).sent().total()
            <= (#[trigger] frames[j]).sent().total()
}

/// The frames transmitted at an instant, in their order.
pub open spec fn sent_at(frames: Seq<IonFrame>, t: int) -> Seq<IonFrame>
    decreases frames.len(),
{
    if frames.len() == 0 {
        frames
    } else if frames.last().sent().total() == t {
        sent_at(frames.drop_last(), t).push(frames.last())
    } else {
        sent_at(frames.drop_last(), t)
    }
}

proof fn lemma_put_in_order(frames: Seq<IonFrame>, frame: IonFrame, t: int)
    requires
        ordered(frames),
    ensures
        ordered(put_in_order(frames, frame)),
        put_in_order(frames, frame).len() == frames.len() + 1,
        put_in_order(frames, frame).to_multiset() == frames.to_multiset().insert(frame),
        put_in_order(frames, frame).last().sent().total() >= frame.sent().total(),
        frames.len() > 0 ==> put_in_order(frames, frame).last().sent().total()
            >= frames.last().sent().total(),
        frames.len() > 0 ==> put_in_order(frames, frame).last().sent().total() <= (
        if frame.sent().total() < frames.last().sent().total() {
            frames.last().sent().total()
        } else {
            frame.sent().total()
        }),
        sent_at(put_in_order(frames, frame), t) == (if frame.sent().total() == t {
            sent_at(frames, t).push(frame)
        } else {
            sent_at(frames, t)
        }),
    decreases frames.len(),
{
    broadcast use vstd::seq_lib::group_to_multiset_ensures;

    let r = put_in_order(frames, frame);
    if frames.len() > 0 && frame.sent().total() < frames.last().sent().total() {
        let head = frames.drop_last();
        lemma_put_in_order(head, frame, t);
        let inner = put_in_order(head, frame);
        assert(r.drop_last() =~= inner);
        assert(frames =~= head.push(frames.last()));
        assert(r.to_multiset() =~= frames.to_multiset().insert(frame));
        assert forall|i: int, j: int| 0 <= i <= j < r.len() implies (#[trigger] r[i]).sent().total()
            <= (#[trigger] r[j]).sent().total() by {
            if j == r.len() - 1 && i < j {
                assert(r[i] == inner[i]);
                assert(inner[i].sent().total() <= inner[inner.len() - 1].sent().total());
                if head.len() > 0 {
                    assert(frames[head.len() - 1].sent().total()
                        <= frames[frames.len() - 1].sent().total());
                }
            }
        }
        if frame.sent().total() == t {
            lemma_none_sent(frames, t);
        }
    } else {
        assert(r.drop_last() =~= frames);
        assert forall|i: int, j: int| 0 <= i <= j < r.len() implies (#[trigger] r[i]).sent().total()
            <= (#[trigger] r[j]).sent().total() by {
            if j == r.len() - 1 && i < j {
                assert(frames[i].sent().total() <= frames[frames.len() - 1].sent().total());
            }
        }
    }
}

/// The last of the frames was sent at another instant.
proof fn lemma_none_sent(frames: Seq<IonFrame>, t: int)
    requires
        frames.len() > 0,
        frames.last().sent().total() != t,
    ensures
        sent_at(frames, t) == sent_at(frames.drop_last(), t),
{
}

/// Frames put in transmission order are the same frames, each as often, in the order of their
/// transmission times, and those transmitted at one instant keep their order.
pub proof fn law_transmission_order(frames: Seq<IonFrame>)
    ensures
        ordered(in_transmission_order(frames)),
        in_transmission_order(frames).to_multiset() == frames.to_multiset(),
        in_transmission_order(frames).len() == frames.len(),
        forall|t: int| #[trigger] sent_at(in_transmission_order(frames), t) == sent_at(frames, t),
    decreases frames.len(),
{
    broadcast use vstd::seq_lib::group_to_multiset_ensures;

    if frames.len() > 0 {
        let head = frames.drop_last();
        law_transmission_order(head);
        lemma_put_in_order(in_transmission_order(head), frames.last(), 0);
        assert(frames =~= head.push(frames.last()));
        assert(in_transmission_order(frames).to_multiset() =~= frames.to_multiset());
        assert forall|t: int| #[trigger] sent_at(in_transmission_order(frames), t) == sent_at(
            frames,
            t,
        ) by {
            lemma_put_in_order(in_transmission_order(head), frames.last(), t);
        }
    }
}

/// Whether a frame counts at `t`: it was transmitted at or before it; every frame counts without
/// a time.
pub open spec fn counts_at(frame: IonFrame, t: Option<Seconds>) -> bool {
    match t {
        Some(t) => frame.sent().total() <= t.total(),
        None => true,
    }
}

/// The coefficients in effect at `t`: those of the header, each set replaced by the frames of its
/// system and model that come before the first one not counting at `t`, in turn.
pub open spec fn effect_of(iono: IonoCorrections, frames: Seq<IonFrame>, t: Option<Seconds>) -> IonoCorrections
    decreases frames.len(),
{
    if frames.len() == 0 || !counts_at(frames[0], t) {
        iono
    } else {
        effect_of(frames[0].applied(iono), frames.drop_first(), t)
    }
}

/// The coefficient set a frame replaces.
pub ghost enum IonSet {
    /// The GPS Klobuchar set.
    Gps,
    /// The QZSS Klobuchar set.
    Qzss,
    /// The BeiDou Klobuchar set.
    BeiDou,
    /// The NavIC Klobuchar set.
    Navic,
    /// The Galileo NeQuick-G set with the disturbance flags.
    Galileo,
    /// The BeiDou BDGIM set.
    Bdgim,
    /// No set.
    Nothing,
}

impl IonFrame {
    /// The coefficient set the frame replaces.
    pub open spec fn set(self) -> IonSet {
        match self.model {
            IonosphereModel::Klobuchar { .. } => match self.satellite_id.system {
                GnssSystem::Gps => IonSet::Gps,
                GnssSystem::Qzss => IonSet::Qzss,
                GnssSystem::BeiDou => IonSet::BeiDou,
                GnssSystem::Navic => IonSet::Navic,
                _ => IonSet::Nothing,
            },
            IonosphereModel::NequickG { .. } => IonSet::Galileo,
            IonosphereModel::Bdgim(..) => IonSet::Bdgim,
        }
    }
}

/// Whether two collections hold the same coefficients in a set.
pub open spec fn same_set(a: IonoCorrections, b: IonoCorrections, set: IonSet) -> bool {
    match set {
        IonSet::Gps => a.gps == b.gps,
        IonSet::Qzss => a.qzss == b.qzss,
        IonSet::BeiDou => a.beidou == b.beidou,
        IonSet::Navic => a.navic == b.navic,
        IonSet::Galileo => a.galileo == b.galileo && a.galileo_disturbance_flags
            == b.galileo_disturbance_flags,
        IonSet::Bdgim => a.beidou_bdgim == b.beidou_bdgim,
        IonSet::Nothing => true,
    }
}

/// A coefficient set that no frame transmitted at or before a time replaces is the header's.
pub proof fn law_header_set_in_effect(
    iono: IonoCorrections,
    frames: Seq<IonFrame>,
    t: Option<Seconds>,
    set: IonSet,
)
    requires
        forall|j: int|
            0 <= j < frames.len() && counts_at(#[trigger] frames[j], t) ==> frames[j].set() != set,
    ensures
        same_set(effect_of(iono, frames, t), iono, set),
    decreases frames.len(),
{
    if frames.len() > 0 && counts_at(frames[0], t) {
        let rest = frames.drop_first();
        assert forall|j: int|
            0 <= j < rest.len() && counts_at(#[trigger] rest[j], t) implies rest[j].set() != set by {
            assert(frames[j + 1] == rest[j]);
        }
        law_header_set_in_effect(frames[0].applied(iono), rest, t, set);
        assert(frames[0].set() != set);
    }
}

/// Of frames in transmission order, a coefficient set in effect at a time is that of the last
/// frame of the set transmitted at or before the time.
pub proof fn law_latest_frame_in_effect(
    iono: IonoCorrections,
    frames: Seq<IonFrame>,
    t: Option<Seconds>,
    k: int,
)
    requires
        ordered(frames),
        0 <= k < frames.len(),
        counts_at(frames[k], t),
        forall|j: int|
            k < j < frames.len() && counts_at(#[trigger] frames[j], t) ==> frames[j].set()
                != frames[k].set(),
    ensures
        same_set(effect_of(iono, frames, t), frames[k].applied(iono), frames[k].set()),
    decreases frames.len(),
{
    let set = frames[k].set();
    let next = frames[0].applied(iono);
    let rest = frames.drop_first();
    assert(frames[0].sent().total() <= frames[k].sent().total());
    assert forall|j: int| k - 1 < j < rest.len() && counts_at(#[trigger] rest[j], t) implies rest[j].set()
        != set by {
        assert(frames[j + 1] == rest[j]);
    }
    if k == 0 {
        law_header_set_in_effect(next, rest, t, set);
    } else {
        assert(rest[k - 1] == frames[k]);
        assert(ordered(rest));
        law_latest_frame_in_effect(next, rest, t, k - 1);
    }
}

impl IonosphereFrame {
    /// A copy of the frame.
    pub fn copy(&self) -> (r: IonosphereFrame)
        ensures
            r@ == self@,
    {
        let mut values: Vec<Option<Decimal>> = Vec::new();
        let mut i: usize = 0;
        while i < self.values.len()
            invariant
                i <= self.values@.len(),
                values@ == self.values@.subrange(0, i as int),
            decreases self.values@.len() - i,
        {
            values.push(self.values[i]);
            i = i + 1;
            assert(values@ =~= self.values@.subrange(0, i as int));
        }
        assert(values@ =~= self.values@);
        IonosphereFrame {
            satellite_id: self.satellite_id,
            message_token: own(self.message_token.as_str()),
            transmission_epoch: self.transmission_epoch,
            values,
            model: self.model,
        }
    }

    /// The transmission epoch in GPS time, seconds since J2000 (BDT is GPS time less 14 s;
    /// Galileo, QZSS and NavIC time run on GPS time).
    pub fn transmission_gpst_j2000_s(&self) -> (r: Seconds)
        ensures
            r == self@.sent(),
            r.wf(),
    {
        let t: Seconds = self.transmission_epoch.j2000_s();
        let offset: i64 = if self.satellite_id.system == GnssSystem::BeiDou {
            14
        } else {
            0
        };
        Seconds { whole: t.whole + offset, quectos: t.quectos }
    }

    /// Put this frame's coefficients in the set of its system.
    pub fn apply_to(&self, iono: &mut IonoCorrections)
        ensures
            *final(iono) == self@.applied(*old(iono)),
    {
        match self.model {
            IonosphereModel::Klobuchar { coefficients, region_code: _ } => {
                match self.satellite_id.system {
                    GnssSystem::Gps => {
                        iono.gps = Some(coefficients);
                    },
                    GnssSystem::Qzss => {
                        iono.qzss = Some(coefficients);
                    },
                    GnssSystem::BeiDou => {
                        iono.beidou = Some(coefficients);
                    },
                    GnssSystem::Navic => {
                        iono.navic = Some(coefficients);
                    },
                    _ => {},
                }
            },
            IonosphereModel::NequickG { coefficients, disturbance_flags } => {
                iono.galileo = Some(coefficients);
                iono.galileo_disturbance_flags = disturbance_flags;
            },
            IonosphereModel::Bdgim(coefficients) => {
                iono.beidou_bdgim = Some(coefficients);
            },
        }
    }
}

/// Put a frame after those not transmitted later than it.
fn insert_frame(frames: &mut Vec<IonosphereFrame>, frame: IonosphereFrame)
    ensures
        ion_frames(final(frames)@) == put_in_order(ion_frames(old(frames)@), frame@),
{
    let t: Seconds = frame.transmission_gpst_j2000_s();
    let ghost all = ion_frames(frames@);
    let mut i: usize = frames.len();
    assert(all.subrange(0, all.len() as int) =~= all);
    assert(put_in_order(all, frame@) + all.subrange(all.len() as int, all.len() as int)
        =~= put_in_order(all, frame@));
    loop
        invariant_except_break
            t == frame@.sent(),
            t.wf(),
            all == ion_frames(frames@),
            i <= frames@.len(),
            put_in_order(all, frame@) == put_in_order(all.subrange(0, i as int), frame@)
                + all.subrange(i as int, all.len() as int),
        ensures
            i <= frames@.len(),
            put_in_order(all, frame@) == all.subrange(0, i as int).push(frame@) + all.subrange(
                i as int,
                all.len() as int,
            ),
        decreases i,
    {
        if i == 0 {
            break;
        }
        let last: Seconds = frames[i - 1].transmission_gpst_j2000_s();
        assert(all[i - 1] == frames@[i - 1]@);
        if !t.before(last) {
            break;
        }
        proof {
            let head = all.subrange(0, i as int);
            assert(head.drop_last() =~= all.subrange(0, i - 1));
            assert(put_in_order(head, frame@) == put_in_order(head.drop_last(), frame@).push(
                all[i - 1],
            ));
            assert(put_in_order(head.drop_last(), frame@).push(all[i - 1]) + all.subrange(
                i as int,
                all.len() as int,
            ) =~= put_in_order(head.drop_last(), frame@) + all.subrange(i - 1, all.len() as int));
        }
        i = i - 1;
    }
    frames.insert(i, frame);
    assert(ion_frames(frames@) =~= put_in_order(all, frame@));
}

/// Put `frames` in transmission order, frames transmitted at the same instant in file order, the
/// order [`ionosphere_in_effect`] reads them in.
pub fn sort_by_transmission(frames: Vec<IonosphereFrame>) -> (r: Vec<IonosphereFrame>)
    ensures
        ion_frames(r@) == in_transmission_order(ion_frames(frames@)),
{
    let mut out: Vec<IonosphereFrame> = Vec::new();
    let mut rest = frames;
    let ghost all = ion_frames(frames@);
    assert(ion_frames(out@) =~= in_transmission_order(all.subrange(0, 0)));
    let ghost mut done: int = 0;
    while rest.len() > 0
        invariant
            0 <= done <= all.len(),
            ion_frames(rest@) == all.subrange(done, all.len() as int),
            ion_frames(out@) == in_transmission_order(all.subrange(0, done)),
        decreases rest@.len(),
    {
        let ghost before = rest@;
        let frame = rest.remove(0);
        proof {
            assert(ion_frames(before).len() == before.len());
            assert(before[0] == frame);
            assert(ion_frames(before)[0] == frame@);
            assert(all[done] == frame@);
            let head = all.subrange(0, done + 1);
            assert(head.drop_last() =~= all.subrange(0, done));
            assert(ion_frames(rest@) =~= all.subrange(done + 1, all.len() as int)) by {
                assert forall|k: int| 0 <= k < rest@.len() implies #[trigger] ion_frames(rest@)[k]
                    == all[done + 1 + k] by {
                    assert(rest@[k] == before[k + 1]);
                    assert(ion_frames(before)[k + 1] == before[k + 1]@);
                }
            }
            done = done + 1;
        }
        insert_frame(&mut out, frame);
    }
    assert(all.subrange(0, done) =~= all);
    out
}

/// The broadcast ionosphere coefficients in effect at `t_gpst_j2000_s` (GPS time, seconds past
/// J2000): the header's sets, each replaced by the `> ION` frame of its system and model
/// transmitted latest at or before the epoch. With no epoch, every frame counts, so each set is
/// the latest transmitted. `frames` are in the order [`sort_by_transmission`] puts them in.
pub fn ionosphere_in_effect(
    header: IonoCorrections,
    frames: &Vec<IonosphereFrame>,
    t_gpst_j2000_s: Option<Seconds>,
) -> (r: IonoCorrections)
    requires
        t_gpst_j2000_s matches Some(t) ==> t.wf(),
    ensures
        r == effect_of(header, ion_frames(frames@), t_gpst_j2000_s),
{
    let mut iono = header;
    let mut i: usize = 0;
    let ghost all = ion_frames(frames@);
    assert(all.skip(0) =~= all);
    while i < frames.len()
        invariant
            all == ion_frames(frames@),
            i <= frames@.len(),
            t_gpst_j2000_s matches Some(t) ==> t.wf(),
            effect_of(header, all, t_gpst_j2000_s) == effect_of(
                iono,
                all.skip(i as int),
                t_gpst_j2000_s,
            ),
        decreases frames@.len() - i,
    {
        assert(all.skip(i as int)[0] == frames@[i as int]@);
        assert(all.skip(i as int).drop_first() =~= all.skip(i + 1));
        if let Some(t) = t_gpst_j2000_s {
            if t.before(frames[i].transmission_gpst_j2000_s()) {
                return iono;
            }
        }
        frames[i].apply_to(&mut iono);
        i = i + 1;
    }
    iono
}

} // verus!

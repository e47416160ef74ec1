//! Selection among broadcast records.

use std::collections::BTreeMap;

use vstd::prelude::*;

use crate::decimal::{decimal_of, Decimal};
use crate::epoch::{
    exact_week_tow_epoch, gap, native_epoch, native_time, record_within_exact_limit, toe_total,
    within_exact_interval, within_limit, ExactEpoch, GLONASS_MAX_AGE_S, J2000_GPS_SECONDS_OF_WEEK,
    SBAS_MAX_AGE_S,
};
use crate::error::{NavDiagnostic, NavParseError, SkippedNavBlock};
use crate::file::{
    diagnostic_views, diagnostics_of, file_of, glonass_of, ion_of, issue_diagnostics, keplerian_of,
    parse_nav_file, sbas_of, skipped_of, skipped_views, Diagnostic, File, Skipped,
};
use crate::frames::{
    effect_of, in_transmission_order, ion_frames, ionosphere_in_effect, sort_by_transmission,
    IonFrame, IonosphereFrame,
};
use crate::header::{Header, NavHeader};
use crate::health::{
    accuracy_or_zero, deviation, excluded, glonass_delay, glonass_healthy, glonass_variance_m2,
    health_excluded, keplerian_excluded, keplerian_health_excluded, keplerian_variance_m2,
    sbas_excluded, sbas_is_excluded, sbas_variance_m2, ura_deviation, variance,
};
use crate::id::{GnssSatelliteId, GnssSystem};
use crate::instant::floor_mod;
use crate::order::{
    glonass_order, glonass_reference, glonass_selection_order, indices, keplerian_order,
    keplerian_selection_order, law_order_represents, law_order_within, sbas_order,
    sbas_selection_order,
};
use crate::record::{
    no_iono, BroadcastIssue, BroadcastRecord, CnavParameters, GlonassRecord, GroupDelay,
    IonoCorrections, NavMessage, SbasRecord,
};
use crate::text::{own, push, strings, utf8};
use crate::time::{Seconds, QUECTOS_PER_SECOND, SECONDS_PER_WEEK};

verus! {

/// Which navigation-message generation a store prefers when a GPS/QZSS satellite has both legacy
/// and CNAV-family records.
#[derive(Debug, Clone, Copy, PartialEq, Eq, Structural)]
pub enum NavMessagePreference {
    /// Prefer legacy records and use CNAV-family records only as fallback.
    PreferLegacy,
    /// Prefer CNAV-family records and use legacy records as fallback.
    PreferModern,
}

impl Default for NavMessagePreference {
    fn default() -> (r: NavMessagePreference)
        ensures
            r == NavMessagePreference::PreferLegacy,
    {
        NavMessagePreference::PreferLegacy
    }
}

/// Why a record built in code is refused.
#[derive(Debug, Clone, Copy, PartialEq, Eq)]
pub enum StoreError {
    /// A field holds what no record holds.
    InvalidInput {
        /// The field.
        field: &'static str,
        /// What is wrong with it.
        reason: &'static str,
    },
}

/// A queryable set of parsed broadcast records.
///
/// The candidates are ordered by transmission time, then reference time, in file order among
/// equals, with a record that repeats the satellite, reference time and issue (and, for Galileo, the
/// F/NAV clock set) of the candidate kept before it left out. For a query, the record whose reference time is
/// nearest in **continuous** time is taken among those within the system's limit - GPS, QZSS and
/// NavIC 7201 s, Galileo 14400 s, BeiDou 21601 s, GLONASS 1800 s, SBAS 360 s - with a tie going to
/// the later candidate; a Galileo record is not used before its `toe`. The broadcast fit interval
/// is metadata and does not enter the selection. A query outside every limit has no ephemeris, so a
/// stale or wrong-week product cannot silently produce a position.
///
/// [`from_nav`](BroadcastStore::from_nav) keeps the records of the single-frequency messages and
/// excludes an unusable record a query selects: the query has no record when that record's health
/// word is not 0 (QZSS with bit 0 masked), when its accuracy stands for more than 300 m, when a
/// GLONASS record is unhealthy by [`GlonassRecord::is_healthy`], or when a CNAV record states no
/// URA prediction. An older healthy record is not used in its place. An issue-matched lookup
/// applies the health part only. [`new`](BroadcastStore::new) keeps records verbatim and excludes
/// nothing, for callers that want their own policy.
pub struct BroadcastStore {
    keplerian: Candidates,
    glonass: Vec<GlonassRecord>,
    glonass_selection: Vec<usize>,
    sbas: Vec<SbasRecord>,
    sbas_selection: Vec<usize>,
    header: Option<NavHeader>,
    iono: IonoCorrections,
    iono_frames: Vec<IonosphereFrame>,
    skipped: Vec<SkippedNavBlock>,
    departures: Vec<NavDiagnostic>,
    message_preference: NavMessagePreference,
    exclude_unusable: bool,
}

/// Keplerian records, and the order in which they are candidates.
struct Candidates {
    records: Vec<BroadcastRecord>,
    selection: Vec<usize>,
}

/// What a [`BroadcastStore`] holds.
pub ghost struct Store {
    /// The Keplerian records.
    pub records: Seq<BroadcastRecord>,
    /// The GLONASS records.
    pub glonass: Seq<GlonassRecord>,
    /// The SBAS records.
    pub sbas: Seq<SbasRecord>,
    /// The header of the file the store was read from.
    pub header: Option<Header>,
    /// The header's lines.
    pub header_text: Seq<Seq<u8>>,
    /// The header's ionosphere coefficients.
    pub iono: IonoCorrections,
    /// The ionosphere frames in transmission order.
    pub frames: Seq<IonFrame>,
    /// The blocks that could not be read.
    pub skipped: Seq<Skipped>,
    /// The departures read through.
    pub departures: Seq<Diagnostic>,
    /// The message preference.
    pub preference: NavMessagePreference,
    /// Whether an unusable record that is selected yields none.
    pub exclude: bool,
}

/// What an optional header states.
pub open spec fn header_view(header: Option<NavHeader>) -> Option<Header> {
    match header {
        Some(h) => Some(h@),
        None => None,
    }
}

/// The lines of an optional header.
pub open spec fn header_text(header: Option<NavHeader>) -> Seq<Seq<u8>> {
    match header {
        Some(h) => strings(h.text@),
        None => Seq::empty(),
    }
}

impl View for BroadcastStore {
    type V = Store;

    closed spec fn view(&self) -> Store {
        Store {
            records: self.keplerian.records@,
            glonass: self.glonass@,
            sbas: self.sbas@,
            header: header_view(self.header),
            header_text: header_text(self.header),
            iono: self.iono,
            frames: ion_frames(self.iono_frames@),
            skipped: skipped_views(self.skipped@),
            departures: diagnostic_views(self.departures@),
            preference: self.message_preference,
            exclude: self.exclude_unusable,
        }
    }
}

/// The messages [`BroadcastStore::from_nav`] keeps: all but Galileo F/NAV.
pub open spec fn default_message(message: NavMessage) -> bool {
    message != NavMessage::GalileoFnav
}

/// The records of the messages a store read from a file keeps.
pub open spec fn default_records(records: Seq<BroadcastRecord>) -> Seq<BroadcastRecord>
    decreases records.len(),
{
    if records.len() == 0 {
        records
    } else if default_message(records.last().message) {
        default_records(records.drop_last()).push(records.last())
    } else {
        default_records(records.drop_last())
    }
}

/// The store a file gives.
pub open spec fn store_of(file: File) -> Store {
    Store {
        records: default_records(keplerian_of(file.entries)),
        glonass: glonass_of(file.entries),
        sbas: sbas_of(file.entries),
        header: Some(file.header),
        header_text: file.header_text,
        iono: file.header.iono,
        frames: in_transmission_order(ion_of(file.entries)),
        skipped: skipped_of(file.entries),
        departures: issue_diagnostics(file.issues) + diagnostics_of(file.entries),
        preference: NavMessagePreference::PreferLegacy,
        exclude: true,
    }
}

/// What is wrong with a record built in code: a fit interval that is not positive, CNAV parameters
/// without a CNAV-family message or the other way round, or a URA index out of its range.
pub open spec fn manual_fault(record: BroadcastRecord) -> Option<(&'static str, &'static str)> {
    if record.fit_interval_h matches Some(fit) && (fit.negative || fit.digits == 0) {
        Some(("record.fit_interval_s", "not positive"))
    } else if record.message.cnav_family() != (record.cnav is Some) {
        Some(("record.cnav", "must be present only for CNAV-family messages"))
    } else {
        match record.cnav {
            None => None,
            Some(cnav) => if !(-16 <= cnav.ura_ed_index <= 15) {
                Some(("record.cnav.ura_ed_index", "out of range"))
            } else if !(-16 <= cnav.ura_ned0_index <= 15) {
                Some(("record.cnav.ura_ned0_index", "out of range"))
            } else if cnav.ura_ned1_index > 7 {
                Some(("record.cnav.ura_ned1_index", "out of range"))
            } else if cnav.ura_ned2_index > 7 {
                Some(("record.cnav.ura_ned2_index", "out of range"))
            } else {
                None
            },
        }
    }
}

/// The first fault of records built in code.
pub open spec fn first_manual_fault(records: Seq<BroadcastRecord>) -> Option<
    (&'static str, &'static str),
>
    decreases records.len(),
{
    if records.len() == 0 {
        None
    } else {
        match manual_fault(records[0]) {
            Some(fault) => Some(fault),
            None => first_manual_fault(records.drop_first()),
        }
    }
}

/// Whether a record is of the message family a store prefers: GPS and QZSS records by the
/// preference, any other always.
pub open spec fn preferred(preference: NavMessagePreference, record: BroadcastRecord) -> bool {
    if !crate::record::gps_or_qzss(record.satellite_id) {
        true
    } else {
        match preference {
            NavMessagePreference::PreferLegacy => !record.message.cnav_family(),
            NavMessagePreference::PreferModern => record.message.cnav_family(),
        }
    }
}

/// The rank of a message among candidates equally far: a CNAV-2 record goes behind others.
pub open spec fn tie_rank(message: NavMessage) -> int {
    if message.cnav2() {
        1
    } else {
        0
    }
}

/// The distance of a record's `toe` from `t`, in 10^-30 s.
pub open spec fn toe_distance(record: BroadcastRecord, t: int) -> int {
    gap(toe_total(record), native_time(record.satellite_id.system, t))
}

/// Whether a candidate is taken over an earlier one: it is nearer, or as near and not ranked behind
/// it.
pub open spec fn taken_over(record: BroadcastRecord, other: BroadcastRecord, t: int) -> bool {
    toe_distance(record, t) < toe_distance(other, t) || (toe_distance(record, t) == toe_distance(
        other,
        t,
    ) && tie_rank(record.message) <= tie_rank(other.message))
}

/// Whether a record is a candidate for a satellite at `t`, of the preferred family or not.
pub open spec fn candidate(
    record: BroadcastRecord,
    sat: GnssSatelliteId,
    t: int,
    preference: NavMessagePreference,
    family: bool,
) -> bool {
    record.satellite_id == sat && within_limit(record, t) && preferred(preference, record) == family
}

/// The index of the candidate taken among those of an order.
pub open spec fn nearest(
    records: Seq<BroadcastRecord>,
    order: Seq<int>,
    sat: GnssSatelliteId,
    t: int,
    preference: NavMessagePreference,
    family: bool,
) -> Option<int>
    decreases order.len(),
{
    if order.len() == 0 {
        None
    } else {
        let before = nearest(records, order.drop_last(), sat, t, preference, family);
        let i = order.last();
        if !candidate(records[i], sat, t, preference, family) {
            before
        } else {
            match before {
                None => Some(i),
                Some(c) => if taken_over(records[i], records[c], t) {
                    Some(i)
                } else {
                    before
                },
            }
        }
    }
}

/// The index of the record selected for a satellite at `t`, usable or not: the candidate of the
/// preferred message family, else of the other.
pub open spec fn selected_index(store: Store, sat: GnssSatelliteId, t: int) -> Option<int> {
    let order = keplerian_order(store.records);
    if sat.system == GnssSystem::Glonass || sat.system == GnssSystem::Sbas {
        None
    } else {
        match nearest(store.records, order, sat, t, store.preference, true) {
            Some(i) => Some(i),
            None => nearest(store.records, order, sat, t, store.preference, false),
        }
    }
}

/// The record used for a satellite at `t`.
pub open spec fn selected(store: Store, sat: GnssSatelliteId, t: int) -> Option<BroadcastRecord> {
    match selected_index(store, sat, t) {
        Some(i) => if store.exclude && excluded(store.records[i]) {
            None
        } else {
            Some(store.records[i])
        },
        None => None,
    }
}

/// How a correction names a record.
#[derive(Debug, Clone, Copy, PartialEq, Eq, Structural)]
pub enum RecordIssue {
    /// By the issue and message.
    Issue {
        /// The issue.
        issue: BroadcastIssue,
        /// The message.
        message: NavMessage,
    },
    /// By the GPS LNAV issue byte.
    Iode(u8),
    /// By the low bits of the issue of a message.
    LowBits {
        /// The low bits.
        low_bits: u32,
        /// How many of them.
        bits: u32,
        /// The message.
        message: NavMessage,
    },
    /// By the BeiDou issue of orbit corrections, the `toe` in 720 s units modulo 240.
    BeidouSsr {
        /// The issue.
        iod: u32,
        /// The message.
        message: NavMessage,
    },
}

/// The BeiDou issue of orbit corrections: `mod(toe/720, 240)` with `toe` the seconds of week; `None`
/// for a record whose `toe` is not a whole number of seconds within the week.
pub open spec fn beidou_iod(record: BroadcastRecord) -> Option<int> {
    match record.elements.toe_sow.integer_within(0, 604799) {
        Some(n) => Some(n / 720 % 240),
        None => None,
    }
}

/// The BeiDou issue of orbit corrections (see [`beidou_iod`]).
pub fn beidou_ssr_iod(record: &BroadcastRecord) -> (r: Option<u32>)
    ensures
        match r {
            Some(n) => beidou_iod(*record) == Some(n as int),
            None => beidou_iod(*record) is None,
        },
{
    match record.elements.toe_sow.to_integer(0, 604799) {
        Some(n) => Some((n / 720 % 240) as u32),
        None => None,
    }
}

/// The mask of the `bits` lowest bits.
pub open spec fn low_mask(bits: u32) -> u32 {
    if bits == 0 {
        0
    } else {
        0xffff_ffffu32 >> ((32 - bits) as u32)
    }
}

impl RecordIssue {
    /// Whether a record is the one named.
    pub open spec fn names(self, record: BroadcastRecord) -> bool {
        match self {
            RecordIssue::Issue { issue, message } => issue.message == message && record.message
                == message && record.issue_of_data == Some(issue),
            RecordIssue::Iode(iode) => record.issue_of_data == Some(
                BroadcastIssue { issue: iode as u32, message: NavMessage::GpsLnav },
            ),
            RecordIssue::LowBits { low_bits, bits, message } => bits < 32 && record.message
                == message && (record.issue_of_data matches Some(issue) && issue.message == message
                && issue.issue & low_mask(bits) == low_bits),
            RecordIssue::BeidouSsr { iod, message } => record.satellite_id.system
                == GnssSystem::BeiDou && record.message == message && beidou_iod(record) == Some(
                iod as int,
            ),
        }
    }

    /// Whether a record is the one named (see [`Self::names`]).
    pub fn matches(self, record: &BroadcastRecord) -> (r: bool)
        ensures
            r == self.names(*record),
    {
        match self {
            RecordIssue::Issue { issue, message } => issue.message == message && record.message
                == message && same_issue(record.issue_of_data, Some(issue)),
            RecordIssue::Iode(iode) => same_issue(
                record.issue_of_data,
                Some(BroadcastIssue { issue: iode as u32, message: NavMessage::GpsLnav }),
            ),
            RecordIssue::LowBits { low_bits, bits, message } => {
                if bits >= 32 {
                    return false;
                }
                let mask: u32 = if bits == 0 {
                    0
                } else {
                    0xffff_ffffu32 >> (32 - bits)
                };
                record.message == message && match record.issue_of_data {
                    Some(issue) => issue.message == message && issue.issue & mask == low_bits,
                    None => false,
                }
            },
            RecordIssue::BeidouSsr { iod, message } => record.satellite_id.system
                == GnssSystem::BeiDou && record.message == message && match beidou_ssr_iod(record) {
                Some(n) => n == iod,
                None => false,
            },
        }
    }
}

/// Whether two optional issues are the same.
fn same_issue(a: Option<BroadcastIssue>, b: Option<BroadcastIssue>) -> (r: bool)
    ensures
        r == (a == b),
{
    match (a, b) {
        (Some(a), Some(b)) => a == b,
        (None, None) => true,
        _ => false,
    }
}

/// The index of the first record of an order that is named and may be used at `t`.
pub open spec fn first_named(
    records: Seq<BroadcastRecord>,
    order: Seq<int>,
    sat: GnssSatelliteId,
    issue: RecordIssue,
    t: int,
) -> Option<int>
    decreases order.len(),
{
    if order.len() == 0 {
        None
    } else {
        let record = records[order[0]];
        if record.satellite_id == sat && issue.names(record) && within_limit(record, t) {
            Some(order[0])
        } else {
            first_named(records, order.drop_first(), sat, issue, t)
        }
    }
}

/// The record a correction names for a satellite at `t`: the first candidate in selection order
/// within the system's limit, unless its health excludes it.
pub open spec fn named(store: Store, sat: GnssSatelliteId, issue: RecordIssue, t: int) -> Option<
    BroadcastRecord,
> {
    if sat.system == GnssSystem::Glonass || sat.system == GnssSystem::Sbas {
        None
    } else {
        match first_named(store.records, keplerian_order(store.records), sat, issue, t) {
            Some(i) => if store.exclude && health_excluded(store.records[i]) {
                None
            } else {
                Some(store.records[i])
            },
            None => None,
        }
    }
}

/// The distance of a GLONASS record's reference epoch from `t`, in 10^-30 s.
pub open spec fn glonass_distance(record: GlonassRecord, t: int) -> int {
    gap(glonass_reference(record).total(), t)
}

/// The 15-minute index of a GLONASS record's reference epoch in the day of UTC + 3 h.
pub open spec fn glonass_tb_of(record: GlonassRecord) -> int {
    let tod = (record.toe_utc_j2000_s + 43200 + 10800) % 86400;
    (2 * tod + 900) / 1800
}

/// Whether a GLONASS record is a candidate for a satellite at `t`, of any issue or of one.
pub open spec fn glonass_candidate(
    record: GlonassRecord,
    sat: GnssSatelliteId,
    issue: Option<u32>,
    t: int,
) -> bool {
    &&& record.satellite_id == sat
    &&& issue matches Some(tb) ==> glonass_tb_of(record) == tb
    &&& glonass_distance(record, t) <= GLONASS_MAX_AGE_S * QUECTOS_PER_SECOND
}

/// The index of the nearest GLONASS candidate of an order, a tie going to the later.
pub open spec fn nearest_glonass(
    records: Seq<GlonassRecord>,
    order: Seq<int>,
    sat: GnssSatelliteId,
    t: int,
) -> Option<int>
    decreases order.len(),
{
    if order.len() == 0 {
        None
    } else {
        let before = nearest_glonass(records, order.drop_last(), sat, t);
        let i = order.last();
        if !glonass_candidate(records[i], sat, None, t) {
            before
        } else {
            match before {
                None => Some(i),
                Some(c) => if glonass_distance(records[i], t) <= glonass_distance(records[c], t) {
                    Some(i)
                } else {
                    before
                },
            }
        }
    }
}

/// The index of the first GLONASS candidate of an issue in an order.
pub open spec fn first_glonass(
    records: Seq<GlonassRecord>,
    order: Seq<int>,
    sat: GnssSatelliteId,
    issue: u32,
    t: int,
) -> Option<int>
    decreases order.len(),
{
    if order.len() == 0 {
        None
    } else if glonass_candidate(records[order[0]], sat, Some(issue), t) {
        Some(order[0])
    } else {
        first_glonass(records, order.drop_first(), sat, issue, t)
    }
}

/// A GLONASS record, unless it is unhealthy and the store excludes such.
pub open spec fn usable_glonass(store: Store, index: Option<int>) -> Option<GlonassRecord> {
    match index {
        Some(i) => if store.exclude && !glonass_healthy(store.glonass[i]) {
            None
        } else {
            Some(store.glonass[i])
        },
        None => None,
    }
}

/// The distance of an SBAS record's reference epoch from `t`, in 10^-30 s.
pub open spec fn sbas_distance(record: SbasRecord, t: int) -> int {
    gap(record.epoch.j2000().total(), t)
}

/// Whether an SBAS record has the issue of an orbit correction: an IGS correction names the IODN,
/// any other `t0` modulo 8192 s in 16-second units.
pub open spec fn sbas_issue(record: SbasRecord, issue: u32, igs: bool) -> bool {
    if igs {
        issue <= 255 && record.iodn == Some(decimal_of(issue as int))
    } else {
        let q = QUECTOS_PER_SECOND as int;
        let sow = (record.epoch.j2000().total() / q + J2000_GPS_SECONDS_OF_WEEK) % (
        SECONDS_PER_WEEK as int);
        sow / 16 % 512 == issue
    }
}

/// Whether an SBAS record is a candidate for a satellite at `t`, of any issue or of one.
pub open spec fn sbas_candidate(
    record: SbasRecord,
    sat: GnssSatelliteId,
    issue: Option<(u32, bool)>,
    t: int,
) -> bool {
    &&& record.satellite_id == sat
    &&& issue matches Some(named) ==> sbas_issue(record, named.0, named.1)
    &&& sbas_distance(record, t) <= SBAS_MAX_AGE_S * QUECTOS_PER_SECOND
}

/// The index of the nearest SBAS candidate of an order, a tie going to the later.
pub open spec fn nearest_sbas(
    records: Seq<SbasRecord>,
    order: Seq<int>,
    sat: GnssSatelliteId,
    issue: Option<(u32, bool)>,
    t: int,
) -> Option<int>
    decreases order.len(),
{
    if order.len() == 0 {
        None
    } else {
        let before = nearest_sbas(records, order.drop_last(), sat, issue, t);
        let i = order.last();
        if !sbas_candidate(records[i], sat, issue, t) {
            before
        } else {
            match before {
                None => Some(i),
                Some(c) => if sbas_distance(records[i], t) <= sbas_distance(records[c], t) {
                    Some(i)
                } else {
                    before
                },
            }
        }
    }
}

/// An SBAS record, unless the store excludes it.
pub open spec fn usable_sbas(store: Store, index: Option<int>) -> Option<SbasRecord> {
    match index {
        Some(i) => if store.exclude && sbas_is_excluded(store.sbas[i]) {
            None
        } else {
            Some(store.sbas[i])
        },
        None => None,
    }
}

/// The GLONASS record used for a satellite at `t`.
pub open spec fn selected_glonass(store: Store, sat: GnssSatelliteId, t: int) -> Option<
    GlonassRecord,
> {
    usable_glonass(store, nearest_glonass(store.glonass, glonass_order(store.glonass), sat, t))
}

/// The SBAS record used for a satellite at `t`, of any issue or of one.
pub open spec fn selected_sbas(
    store: Store,
    sat: GnssSatelliteId,
    issue: Option<(u32, bool)>,
    t: int,
) -> Option<SbasRecord> {
    usable_sbas(store, nearest_sbas(store.sbas, sbas_order(store.sbas), sat, issue, t))
}

/// What a reference to a record holds.
pub open spec fn held<T>(r: Option<&T>) -> Option<T> {
    match r {
        Some(x) => Some(*x),
        None => None,
    }
}

/// The channel of each GLONASS slot: that of its last record whose channel fits `i8`.
pub open spec fn channels(records: Seq<GlonassRecord>) -> Map<u8, i8>
    decreases records.len(),
{
    if records.len() == 0 {
        Map::empty()
    } else {
        let before = channels(records.drop_last());
        let record = records.last();
        if -128 <= record.freq_channel <= 127 {
            before.insert(record.satellite_id.prn, record.freq_channel as i8)
        } else {
            before
        }
    }
}

/// The records of which `keep` says so.
pub open spec fn kept_records(records: Seq<BroadcastRecord>, keep: Seq<bool>) -> Seq<BroadcastRecord>
    decreases records.len(),
{
    if records.len() == 0 {
        records
    } else if keep[records.len() - 1] {
        kept_records(records.drop_last(), keep).push(records.last())
    } else {
        kept_records(records.drop_last(), keep)
    }
}

impl StoreError {
    /// The error in words.
    pub fn text(&self) -> (r: String)
        ensures
            utf8(r@) == (match *self {
                StoreError::InvalidInput { field, reason } => utf8(field@) + utf8(" "@) + utf8(
                    reason@,
                ),
            }),
    {
        match self {
            StoreError::InvalidInput { field, reason } => {
                let mut out = own(field);
                push(&mut out, " ");
                push(&mut out, reason);
                out
            },
        }
    }
}

/// Refuse a record built in code that no message states (see [`manual_fault`]).
fn validate_manual_record(record: &BroadcastRecord) -> (r: Result<(), StoreError>)
    ensures
        match manual_fault(*record) {
            None => r is Ok,
            Some((field, reason)) => r == Err::<(), StoreError>(
                StoreError::InvalidInput { field, reason },
            ),
        },
{
    if let Some(fit) = record.fit_interval_h {
        if fit.negative || fit.digits == 0 {
            return Err(
                StoreError::InvalidInput {
                    field: "record.fit_interval_s",
                    reason: "not positive",
                },
            );
        }
    }
    if record.message.is_cnav_family() != record.cnav.is_some() {
        return Err(
            StoreError::InvalidInput {
                field: "record.cnav",
                reason: "must be present only for CNAV-family messages",
            },
        );
    }
    match record.cnav {
        Some(cnav) => validate_cnav_parameters(cnav),
        None => Ok(()),
    }
}

/// Refuse CNAV parameters with a URA index out of its range.
fn validate_cnav_parameters(params: CnavParameters) -> (r: Result<(), StoreError>)
    ensures
        r == (if !(-16 <= params.ura_ed_index <= 15) {
            Err::<(), StoreError>(
                StoreError::InvalidInput {
                    field: "record.cnav.ura_ed_index",
                    reason: "out of range",
                },
            )
        } else if !(-16 <= params.ura_ned0_index <= 15) {
            Err(
                StoreError::InvalidInput {
                    field: "record.cnav.ura_ned0_index",
                    reason: "out of range",
                },
            )
        } else if params.ura_ned1_index > 7 {
            Err(
                StoreError::InvalidInput {
                    field: "record.cnav.ura_ned1_index",
                    reason: "out of range",
                },
            )
        } else if params.ura_ned2_index > 7 {
            Err(
                StoreError::InvalidInput {
                    field: "record.cnav.ura_ned2_index",
                    reason: "out of range",
                },
            )
        } else {
            Ok(())
        }),
{
    let field: &'static str = if params.ura_ed_index < -16 || params.ura_ed_index > 15 {
        "record.cnav.ura_ed_index"
    } else if params.ura_ned0_index < -16 || params.ura_ned0_index > 15 {
        "record.cnav.ura_ned0_index"
    } else if params.ura_ned1_index > 7 {
        "record.cnav.ura_ned1_index"
    } else if params.ura_ned2_index > 7 {
        "record.cnav.ura_ned2_index"
    } else {
        return Ok(());
    };
    Err(StoreError::InvalidInput { field, reason: "out of range" })
}

/// The records of the messages a store keeps (see [`default_records`]).
fn default_only(records: &Vec<BroadcastRecord>) -> (r: Vec<BroadcastRecord>)
    ensures
        r@ == default_records(records@),
{
    let mut out: Vec<BroadcastRecord> = Vec::new();
    let mut i: usize = 0;
    assert(out@ =~= default_records(records@.subrange(0, 0)));
    while i < records.len()
        invariant
            i <= records@.len(),
            out@ == default_records(records@.subrange(0, i as int)),
        decreases records@.len() - i,
    {
        proof {
            assert(records@.subrange(0, i + 1).drop_last() =~= records@.subrange(0, i as int));
            assert(records@.subrange(0, i + 1).last() == records@[i as int]);
        }
        if BroadcastStore::is_default_message(records[i].message) {
            out.push(records[i]);
        }
        i = i + 1;
    }
    assert(records@.subrange(0, i as int) =~= records@);
    out
}

/// The 15-minute index of a GLONASS record (see [`glonass_tb_of`]).
pub fn glonass_tb(record: &GlonassRecord) -> (r: u32)
    ensures
        r == glonass_tb_of(*record),
{
    let tod: i128 = floor_mod(record.toe_utc_j2000_s as i128 + 54000, 86400);
    ((2 * tod + 900) / 1800) as u32
}

/// Whether an SBAS record has the issue of an orbit correction (see [`sbas_issue`]).
pub fn sbas_issue_matches(record: &SbasRecord, issue: u32, igs_ssr: bool) -> (r: bool)
    ensures
        r == sbas_issue(*record, issue, igs_ssr),
{
    if igs_ssr {
        let stated: Decimal = Decimal::from_integer(issue as i64);
        return issue <= 255 && match record.iodn {
            Some(iodn) => iodn == stated,
            None => false,
        };
    }
    let t0 = record.t0_j2000_s();
    proof {
        vstd::arithmetic::div_mod::lemma_fundamental_div_mod_converse(
            t0.total(),
            QUECTOS_PER_SECOND as int,
            t0.whole as int,
            t0.quectos as int,
        );
    }
    let sow: i128 = floor_mod(
        t0.whole + J2000_GPS_SECONDS_OF_WEEK as i128,
        SECONDS_PER_WEEK as i128,
    );
    sow / 16 % 512 == issue as i128
}

impl BroadcastStore {
    /// Each order of candidates is that of the records held.
    #[verifier::type_invariant]
    spec fn wf(&self) -> bool {
        &&& indices(self.keplerian.selection@) == keplerian_order(self.keplerian.records@)
        &&& forall|k: int|
            0 <= k < self.keplerian.selection@.len() ==> (#[trigger] self.keplerian.selection@[k]) < self.keplerian.records@.len()
        &&& indices(self.glonass_selection@) == glonass_order(self.glonass@)
        &&& forall|k: int|
            0 <= k < self.glonass_selection@.len() ==> (#[trigger] self.glonass_selection@[k])
                < self.glonass@.len()
        &&& indices(self.sbas_selection@) == sbas_order(self.sbas@)
        &&& forall|k: int|
            0 <= k < self.sbas_selection@.len() ==> (#[trigger] self.sbas_selection@[k])
                < self.sbas@.len()
    }

    /// Build a store from already-parsed Keplerian records, verbatim (no policy filter, no GLONASS
    /// or SBAS records, and no ionosphere coefficients; use [`from_nav`](Self::from_nav) to capture
    /// those). A record no message states is refused (see [`manual_fault`]).
    pub fn new(records: Vec<BroadcastRecord>) -> (r: Result<BroadcastStore, StoreError>)
        ensures
            match first_manual_fault(records@) {
                Some((field, reason)) => r matches Err(StoreError::InvalidInput {
                    field: f,
                    reason: why,
                }) && f == field && why == reason,
                None => r matches Ok(store) && store@ == (Store {
                    records: records@,
                    glonass: Seq::empty(),
                    sbas: Seq::empty(),
                    header: None,
                    header_text: Seq::empty(),
                    iono: no_iono(),
                    frames: Seq::empty(),
                    skipped: Seq::empty(),
                    departures: Seq::empty(),
                    preference: NavMessagePreference::PreferLegacy,
                    exclude: false,
                }),
            },
    {
        let mut i: usize = 0;
        assert(records@.skip(0) =~= records@);
        while i < records.len()
            invariant
                i <= records@.len(),
                first_manual_fault(records@) == first_manual_fault(records@.skip(i as int)),
            decreases records@.len() - i,
        {
            assert(records@.skip(i as int)[0] == records@[i as int]);
            assert(records@.skip(i as int).drop_first() =~= records@.skip(i + 1));
            if let Err(e) = validate_manual_record(&records[i]) {
                return Err(e);
            }
            i = i + 1;
        }
        let selection = keplerian_selection_order(&records);
        let glonass: Vec<GlonassRecord> = Vec::new();
        let sbas: Vec<SbasRecord> = Vec::new();
        let glonass_selection = glonass_selection_order(&glonass);
        let sbas_selection = sbas_selection_order(&sbas);
        let store = BroadcastStore {
            keplerian: Candidates { records, selection },
            glonass,
            glonass_selection,
            sbas,
            sbas_selection,
            header: None,
            iono: IonoCorrections::default(),
            iono_frames: Vec::new(),
            skipped: Vec::new(),
            departures: Vec::new(),
            message_preference: NavMessagePreference::PreferLegacy,
            exclude_unusable: false,
        };
        proof {
            assert(store@.frames =~= Seq::empty());
            assert(store@.skipped =~= Seq::empty());
            assert(store@.departures =~= Seq::empty());
            assert(store@.glonass =~= Seq::empty());
            assert(store@.sbas =~= Seq::empty());
        }
        Ok(store)
    }

    /// Parse a RINEX 2.xx/3.xx/4.xx navigation file and keep the records of the messages used for
    /// single-frequency positioning: GPS LNAV, GPS/QZSS CNAV-family, QZSS LNAV, Galileo I/NAV (and
    /// a Galileo record whose data sources name no single message), BeiDou D1/D2, NavIC LNAV,
    /// GLONASS and SBAS. Health does not filter the records: an unusable record that is selected
    /// yields none. The header's broadcast ionosphere coefficients, the RINEX 4 ionosphere frames
    /// and the header are captured.
    ///
    /// Only a header that cannot be read is an error. A block that cannot be read is left out and
    /// reported in [`skipped`](Self::skipped) with its line and reason, and a departure from the
    /// format the reader read through, including a header record whose values cannot be read, in
    /// [`departures`](Self::departures): one bad record does not cost the file's other records.
    pub fn from_nav(text: &str) -> (r: Result<BroadcastStore, NavParseError>)
        ensures
            match file_of(utf8(text@)) {
                Err(fault) => r matches Err(e) && e@ == fault,
                Ok(file) => r matches Ok(store) && store@ == store_of(file),
            },
    {
        let file = match parse_nav_file(text) {
            Ok(file) => file,
            Err(e) => {
                return Err(e);
            },
        };
        let parse = file.nav_parse();
        let all = file.keplerian_records();
        let records = default_only(&all);
        let glonass = file.glonass_records();
        let sbas = file.sbas_records();
        let iono_frames = sort_by_transmission(file.ionosphere_frames());
        let departures = file.departures();
        let selection = keplerian_selection_order(&records);
        let glonass_selection = glonass_selection_order(&glonass);
        let sbas_selection = sbas_selection_order(&sbas);
        Ok(
            BroadcastStore {
                keplerian: Candidates { records, selection },
                glonass,
                glonass_selection,
                sbas,
                sbas_selection,
                iono: file.header.iono,
                header: Some(file.header),
                iono_frames,
                skipped: parse.skipped,
                departures,
                message_preference: NavMessagePreference::PreferLegacy,
                exclude_unusable: true,
            },
        )
    }

    /// Set the GPS/QZSS legacy-vs-CNAV selection preference.
    pub fn set_message_preference(&mut self, preference: NavMessagePreference)
        ensures
            final(self)@ == (Store { preference, ..old(self)@ }),
    {
        proof {
            use_type_invariant(&*self);
        }
        self.message_preference = preference;
    }

    /// The GPS/QZSS legacy-vs-CNAV selection preference.
    pub fn message_preference(&self) -> (r: NavMessagePreference)
        ensures
            r == self@.preference,
    {
        self.message_preference
    }

    /// The header of the file the store was read from; `None` for a store built with
    /// [`new`](Self::new).
    pub fn header(&self) -> (r: Option<&NavHeader>)
        ensures
            match r {
                Some(h) => self@.header == Some(h@) && self@.header_text == strings(h.text@),
                None => self@.header is None,
            },
    {
        match &self.header {
            Some(h) => Some(h),
            None => None,
        }
    }

    /// Blocks of the file that could not be read and are not in the store, each with its line and
    /// reason.
    pub fn skipped(&self) -> (r: &Vec<SkippedNavBlock>)
        ensures
            skipped_views(r@) == self@.skipped,
    {
        &self.skipped
    }

    /// Departures from the format the reader read through, each with its line.
    pub fn departures(&self) -> (r: &Vec<NavDiagnostic>)
        ensures
            diagnostic_views(r@) == self@.departures,
    {
        &self.departures
    }

    /// The broadcast ionosphere coefficients with no epoch to select by: the header's sets, each
    /// replaced by the RINEX 4 `> ION` frame of its system and model transmitted latest. Empty for
    /// a store built with [`new`](Self::new).
    pub fn iono_corrections(&self) -> (r: IonoCorrections)
        ensures
            r == effect_of(self@.iono, self@.frames, None),
    {
        ionosphere_in_effect(self.iono, &self.iono_frames, None)
    }

    /// The broadcast ionosphere coefficients in effect at `t_j2000_s` (GPS time): the header's
    /// sets, each replaced by the RINEX 4 `> ION` frame of its system and model transmitted latest
    /// at or before the epoch. A set that neither the header nor a frame transmitted by the epoch
    /// states is `None`.
    pub fn iono_corrections_at(&self, t_j2000_s: Seconds) -> (r: IonoCorrections)
        requires
            t_j2000_s.wf(),
        ensures
            r == effect_of(self@.iono, self@.frames, Some(t_j2000_s)),
    {
        ionosphere_in_effect(self.iono, &self.iono_frames, Some(t_j2000_s))
    }

    /// The held GLONASS records.
    pub fn glonass_records(&self) -> (r: &Vec<GlonassRecord>)
        ensures
            r@ == self@.glonass,
    {
        &self.glonass
    }

    /// The held SBAS records.
    pub fn sbas_records(&self) -> (r: &Vec<SbasRecord>)
        ensures
            r@ == self@.sbas,
    {
        &self.sbas
    }

    /// The GLONASS FDMA frequency channels carried by the held broadcast records, keyed by
    /// satellite PRN/slot, as the records state them. A channel outside the `-7..=6` allocation is
    /// kept, and consumers that resolve a carrier check the allocation; a stated channel too wide
    /// for `i8` names no FDMA channel at all and is left out of the map rather than wrapped onto
    /// another one.
    pub fn glonass_frequency_channels(&self) -> (r: BTreeMap<u8, i8>)
        ensures
            r@ == channels(self@.glonass),
    {
        broadcast use vstd::std_specs::btree::group_btree_axioms;

        let mut out: BTreeMap<u8, i8> = BTreeMap::new();
        let mut i: usize = 0;
        let ghost all = self.glonass@;
        assert(out@ =~= channels(all.subrange(0, 0)));
        while i < self.glonass.len()
            invariant
                all == self.glonass@,
                i <= self.glonass@.len(),
                out@ == channels(all.subrange(0, i as int)),
            decreases self.glonass@.len() - i,
        {
            proof {
                assert(all.subrange(0, i + 1).drop_last() =~= all.subrange(0, i as int));
                assert(all.subrange(0, i + 1).last() == all[i as int]);
            }
            let channel: i32 = self.glonass[i].freq_channel;
            if -128 <= channel && channel <= 127 {
                out.insert(self.glonass[i].satellite_id.prn, channel as i8);
            }
            i = i + 1;
        }
        assert(all.subrange(0, i as int) =~= all);
        out
    }

    /// The messages [`from_nav`](Self::from_nav) keeps.
    fn is_default_message(message: NavMessage) -> (r: bool)
        ensures
            r == default_message(message),
    {
        match message {
            NavMessage::GalileoFnav => false,
            _ => true,
        }
    }

    /// The held records.
    pub fn records(&self) -> (r: &Vec<BroadcastRecord>)
        ensures
            r@ == self@.records,
    {
        &self.keplerian.records
    }

    /// Whether a record is of the preferred message family (see [`preferred`]).
    fn is_preferred_family(&self, record: &BroadcastRecord) -> (r: bool)
        ensures
            r == preferred(self@.preference, *record),
    {
        match record.satellite_id.system {
            GnssSystem::Gps | GnssSystem::Qzss => match self.message_preference {
                NavMessagePreference::PreferLegacy => !record.message.is_cnav_family(),
                NavMessagePreference::PreferModern => record.message.is_cnav_family(),
            },
            _ => true,
        }
    }

    /// Select the broadcast record used for `sat` at `t_j2000_s` (GPS time): among the candidates
    /// in selection order within the system's limit (a Galileo record only after its `toe`), the
    /// one whose `toe` is nearest, a tie going to the later candidate. A candidate of the preferred
    /// message family (see [`NavMessagePreference`]) is taken over one of the other family.
    /// Non-Keplerian systems return `None`.
    pub fn select_record_at(&self, sat: GnssSatelliteId, t_j2000_s: ExactEpoch) -> (r: Option<
        &BroadcastRecord,
    >)
        requires
            t_j2000_s.wf(),
        ensures
            held(r) == selected(self@, sat, t_j2000_s.total()),
    {
        proof {
            use_type_invariant(self);
        }
        if sat.system == GnssSystem::Glonass || sat.system == GnssSystem::Sbas {
            return None;
        }
        let chosen: usize = match self.nearest_of(sat, t_j2000_s, true) {
            Some(i) => i,
            None => match self.nearest_of(sat, t_j2000_s, false) {
                Some(i) => i,
                None => {
                    return None;
                },
            },
        };
        let record = &self.keplerian.records[chosen];
        if self.exclude_unusable && keplerian_excluded(record) {
            None
        } else {
            Some(record)
        }
    }

    /// The index of the candidate taken of a message family (see [`nearest`]).
    fn nearest_of(&self, sat: GnssSatelliteId, t: ExactEpoch, family: bool) -> (r: Option<usize>)
        requires
            t.wf(),
        ensures
            match r {
                Some(i) => i < self.keplerian.records@.len() && nearest(
                    self@.records,
                    keplerian_order(self@.records),
                    sat,
                    t.total(),
                    self@.preference,
                    family,
                ) == Some(i as int),
                None => nearest(
                    self@.records,
                    keplerian_order(self@.records),
                    sat,
                    t.total(),
                    self@.preference,
                    family,
                ) is None,
            },
    {
        proof {
            use_type_invariant(self);
        }
        let ghost order = indices(self.keplerian.selection@);
        let ghost at = t.total();
        let now = native_epoch(sat.system, t);
        let mut best: Option<usize> = None;
        let mut k: usize = 0;
        while k < self.keplerian.selection.len()
            invariant
                self.wf(),
                t.wf(),
                at == t.total(),
                order == indices(self.keplerian.selection@),
                now.total() == native_time(sat.system, at),
                now.quectos < QUECTOS_PER_SECOND,
                -200000000000000000000 <= now.whole <= 200000000000000000000,
                k <= self.keplerian.selection@.len(),
                best matches Some(i) ==> i < self.keplerian.records@.len() && self.keplerian.records@[i as int].satellite_id
                    == sat,
                nearest(
                    self.keplerian.records@,
                    order.subrange(0, k as int),
                    sat,
                    at,
                    self.message_preference,
                    family,
                ) == (match best {
                    Some(i) => Some(i as int),
                    None => None,
                }),
            decreases self.keplerian.selection@.len() - k,
        {
            let index: usize = self.keplerian.selection[k];
            proof {
                assert(order.subrange(0, k + 1).drop_last() =~= order.subrange(0, k as int));
                assert(order.subrange(0, k + 1).last() == index);
            }
            let record = &self.keplerian.records[index];
            if record.satellite_id == sat && record_within_exact_limit(record, t)
                && self.is_preferred_family(record) == family {
                let better: bool = match best {
                    None => true,
                    Some(current) => {
                        let other = &self.keplerian.records[current];
                        let mine = exact_week_tow_epoch(record.toe).distance(now);
                        let theirs = exact_week_tow_epoch(other.toe).distance(now);
                        mine.before(theirs) || (!theirs.before(mine) && cnav_tie_rank(
                            record.message,
                        ) <= cnav_tie_rank(other.message))
                    },
                };
                if better {
                    best = Some(index);
                }
            }
            k = k + 1;
        }
        assert(order.subrange(0, k as int) =~= order);
        best
    }

    /// The record a correction names for `sat` at `t` (see [`named`]).
    pub fn select_named_at(&self, sat: GnssSatelliteId, issue: RecordIssue, t: ExactEpoch) -> (r:
        Option<&BroadcastRecord>)
        requires
            t.wf(),
        ensures
            held(r) == named(self@, sat, issue, t.total()),
    {
        proof {
            use_type_invariant(self);
        }
        if sat.system == GnssSystem::Glonass || sat.system == GnssSystem::Sbas {
            return None;
        }
        let ghost order = indices(self.keplerian.selection@);
        let ghost at = t.total();
        let mut k: usize = 0;
        assert(order.skip(0) =~= order);
        while k < self.keplerian.selection.len()
            invariant
                sat.system != GnssSystem::Glonass,
                sat.system != GnssSystem::Sbas,
                self.wf(),
                t.wf(),
                at == t.total(),
                order == indices(self.keplerian.selection@),
                k <= self.keplerian.selection@.len(),
                first_named(self.keplerian.records@, order, sat, issue, at) == first_named(
                    self.keplerian.records@,
                    order.skip(k as int),
                    sat,
                    issue,
                    at,
                ),
            decreases self.keplerian.selection@.len() - k,
        {
            let index: usize = self.keplerian.selection[k];
            proof {
                assert(order.skip(k as int)[0] == index);
                assert(order.skip(k as int).drop_first() =~= order.skip(k + 1));
            }
            let record = &self.keplerian.records[index];
            if record.satellite_id == sat && issue.matches(record) && record_within_exact_limit(
                record,
                t,
            ) {
                return if self.exclude_unusable && keplerian_health_excluded(record) {
                    None
                } else {
                    Some(record)
                };
            }
            k = k + 1;
        }
        None
    }

    /// Select the record for `sat` with a matching GPS LNAV issue byte at `t`: the first candidate
    /// in selection order within the system's limit.
    pub fn select_by_iode_at(&self, sat: GnssSatelliteId, iode: u8, t_j2000_s: ExactEpoch) -> (r:
        Option<&BroadcastRecord>)
        requires
            t_j2000_s.wf(),
        ensures
            held(r) == named(self@, sat, RecordIssue::Iode(iode), t_j2000_s.total()),
    {
        proof {
            use_type_invariant(self);
        }
        self.select_named_at(sat, RecordIssue::Iode(iode), t_j2000_s)
    }

    /// Select the broadcast record matching a specific issue and message at the query epoch: the
    /// first candidate in selection order within the system's limit.
    pub fn select_by_issue_at(
        &self,
        sat: GnssSatelliteId,
        issue: BroadcastIssue,
        nav_message: NavMessage,
        t_j2000_s: ExactEpoch,
    ) -> (r: Option<&BroadcastRecord>)
        requires
            t_j2000_s.wf(),
        ensures
            held(r) == named(
                self@,
                sat,
                RecordIssue::Issue { issue, message: nav_message },
                t_j2000_s.total(),
            ),
    {
        proof {
            use_type_invariant(self);
        }
        self.select_named_at(sat, RecordIssue::Issue { issue, message: nav_message }, t_j2000_s)
    }

    /// The first valid record of `nav_message` for `sat`, in selection order, whose issue's `bits`
    /// least significant bits equal `low_bits`.
    pub fn select_by_issue_low_bits_at(
        &self,
        sat: GnssSatelliteId,
        low_bits: u32,
        bits: u32,
        nav_message: NavMessage,
        t_j2000_s: ExactEpoch,
    ) -> (r: Option<&BroadcastRecord>)
        requires
            t_j2000_s.wf(),
        ensures
            held(r) == named(
                self@,
                sat,
                RecordIssue::LowBits { low_bits, bits, message: nav_message },
                t_j2000_s.total(),
            ),
    {
        proof {
            use_type_invariant(self);
        }
        self.select_named_at(
            sat,
            RecordIssue::LowBits { low_bits, bits, message: nav_message },
            t_j2000_s,
        )
    }

    /// Select the BeiDou record for `sat` of message `nav_message` whose issue of orbit corrections
    /// (see [`beidou_iod`]) equals `iod`: the first candidate in selection order within the BeiDou
    /// limit.
    pub fn select_by_beidou_ssr_iod_at(
        &self,
        sat: GnssSatelliteId,
        iod: u32,
        nav_message: NavMessage,
        t_j2000_s: ExactEpoch,
    ) -> (r: Option<&BroadcastRecord>)
        requires
            t_j2000_s.wf(),
        ensures
            held(r) == named(
                self@,
                sat,
                RecordIssue::BeidouSsr { iod, message: nav_message },
                t_j2000_s.total(),
            ),
    {
        proof {
            use_type_invariant(self);
        }
        self.select_named_at(
            sat,
            RecordIssue::BeidouSsr { iod, message: nav_message },
            t_j2000_s,
        )
    }

    /// The GLONASS record selected for `sat` at `t_j2000_s` (GPS time): the nearest reference epoch
    /// within the limit, a tie going to the later candidate in selection order, unless it is
    /// unhealthy and the store excludes such.
    pub fn select_glonass_at(&self, sat: GnssSatelliteId, t_j2000_s: ExactEpoch) -> (r: Option<
        &GlonassRecord,
    >)
        requires
            t_j2000_s.wf(),
        ensures
            held(r) == selected_glonass(self@, sat, t_j2000_s.total()),
    {
        proof {
            use_type_invariant(self);
        }
        let ghost order = indices(self.glonass_selection@);
        let ghost at = t_j2000_s.total();
        let mut best: Option<usize> = None;
        let mut k: usize = 0;
        while k < self.glonass_selection.len()
            invariant
                self.wf(),
                t_j2000_s.wf(),
                at == t_j2000_s.total(),
                order == indices(self.glonass_selection@),
                k <= self.glonass_selection@.len(),
                best matches Some(i) ==> i < self.glonass@.len(),
                nearest_glonass(self.glonass@, order.subrange(0, k as int), sat, at) == (
                match best {
                    Some(i) => Some(i as int),
                    None => None,
                }),
            decreases self.glonass_selection@.len() - k,
        {
            let index: usize = self.glonass_selection[k];
            proof {
                assert(order.subrange(0, k + 1).drop_last() =~= order.subrange(0, k as int));
                assert(order.subrange(0, k + 1).last() == index);
            }
            let record = &self.glonass[index];
            let toe = record.toe_gpst_j2000_s();
            if record.satellite_id == sat && within_exact_interval(
                toe,
                t_j2000_s,
                GLONASS_MAX_AGE_S,
            ) {
                let better: bool = match best {
                    None => true,
                    Some(current) => {
                        let other = self.glonass[current].toe_gpst_j2000_s();
                        !other.distance(t_j2000_s).before(toe.distance(t_j2000_s))
                    },
                };
                if better {
                    best = Some(index);
                }
            }
            k = k + 1;
        }
        assert(order.subrange(0, k as int) =~= order);
        match best {
            None => None,
            Some(i) => {
                let record = &self.glonass[i];
                if self.exclude_unusable && !record.is_healthy() {
                    None
                } else {
                    Some(record)
                }
            },
        }
    }

    /// The GLONASS record for `sat` whose `tb`, the 15-minute index of its reference epoch in
    /// UTC + 3 h, equals `iode`: the first in selection order within the limit, unless it is
    /// unhealthy and the store excludes such.
    pub fn select_glonass_by_issue_at(
        &self,
        sat: GnssSatelliteId,
        iode: u32,
        t_j2000_s: ExactEpoch,
    ) -> (r: Option<&GlonassRecord>)
        requires
            t_j2000_s.wf(),
        ensures
            held(r) == usable_glonass(
                self@,
                first_glonass(
                    self@.glonass,
                    glonass_order(self@.glonass),
                    sat,
                    iode,
                    t_j2000_s.total(),
                ),
            ),
    {
        proof {
            use_type_invariant(self);
        }
        let ghost order = indices(self.glonass_selection@);
        let ghost at = t_j2000_s.total();
        let mut k: usize = 0;
        assert(order.skip(0) =~= order);
        while k < self.glonass_selection.len()
            invariant
                self.wf(),
                t_j2000_s.wf(),
                at == t_j2000_s.total(),
                order == indices(self.glonass_selection@),
                k <= self.glonass_selection@.len(),
                first_glonass(self.glonass@, order, sat, iode, at) == first_glonass(
                    self.glonass@,
                    order.skip(k as int),
                    sat,
                    iode,
                    at,
                ),
            decreases self.glonass_selection@.len() - k,
        {
            let index: usize = self.glonass_selection[k];
            proof {
                assert(order.skip(k as int)[0] == index);
                assert(order.skip(k as int).drop_first() =~= order.skip(k + 1));
            }
            let record = &self.glonass[index];
            if record.satellite_id == sat && glonass_tb(record) == iode && within_exact_interval(
                record.toe_gpst_j2000_s(),
                t_j2000_s,
                GLONASS_MAX_AGE_S,
            ) {
                return if self.exclude_unusable && !record.is_healthy() {
                    None
                } else {
                    Some(record)
                };
            }
            k = k + 1;
        }
        None
    }

    /// The index of the nearest SBAS candidate (see [`nearest_sbas`]).
    fn nearest_sbas_of(
        &self,
        sat: GnssSatelliteId,
        issue: Option<(u32, bool)>,
        t: ExactEpoch,
    ) -> (r: Option<&SbasRecord>)
        requires
            t.wf(),
        ensures
            held(r) == selected_sbas(self@, sat, issue, t.total()),
    {
        proof {
            use_type_invariant(self);
        }
        let ghost order = indices(self.sbas_selection@);
        let ghost at = t.total();
        let mut best: Option<usize> = None;
        let mut k: usize = 0;
        while k < self.sbas_selection.len()
            invariant
                self.wf(),
                t.wf(),
                at == t.total(),
                order == indices(self.sbas_selection@),
                k <= self.sbas_selection@.len(),
                best matches Some(i) ==> i < self.sbas@.len(),
                nearest_sbas(self.sbas@, order.subrange(0, k as int), sat, issue, at) == (
                match best {
                    Some(i) => Some(i as int),
                    None => None,
                }),
            decreases self.sbas_selection@.len() - k,
        {
            let index: usize = self.sbas_selection[k];
            proof {
                assert(order.subrange(0, k + 1).drop_last() =~= order.subrange(0, k as int));
                assert(order.subrange(0, k + 1).last() == index);
            }
            let record = &self.sbas[index];
            let t0 = record.t0_j2000_s();
            let named: bool = match issue {
                Some((number, igs)) => sbas_issue_matches(record, number, igs),
                None => true,
            };
            if record.satellite_id == sat && named && within_exact_interval(t0, t, SBAS_MAX_AGE_S) {
                let better: bool = match best {
                    None => true,
                    Some(current) => {
                        let other = self.sbas[current].t0_j2000_s();
                        !other.distance(t).before(t0.distance(t))
                    },
                };
                if better {
                    best = Some(index);
                }
            }
            k = k + 1;
        }
        assert(order.subrange(0, k as int) =~= order);
        match best {
            None => None,
            Some(i) => {
                let record = &self.sbas[i];
                if self.exclude_unusable && sbas_excluded(record) {
                    None
                } else {
                    Some(record)
                }
            },
        }
    }

    /// The SBAS record selected for `sat` at `t_j2000_s` (GPS time): the nearest reference epoch
    /// within the limit, a tie going to the later candidate in selection order, unless the store
    /// excludes it.
    pub fn select_sbas_at(&self, sat: GnssSatelliteId, t_j2000_s: ExactEpoch) -> (r: Option<
        &SbasRecord,
    >)
        requires
            t_j2000_s.wf(),
        ensures
            held(r) == selected_sbas(self@, sat, None, t_j2000_s.total()),
    {
        proof {
            use_type_invariant(self);
        }
        self.nearest_sbas_of(sat, None, t_j2000_s)
    }

    /// The SBAS record an orbit correction names (see [`sbas_issue`]), selected among only the
    /// matching records at the observation epoch.
    pub fn select_sbas_by_issue_at(
        &self,
        sat: GnssSatelliteId,
        issue: u32,
        igs_ssr: bool,
        t_j2000_s: ExactEpoch,
    ) -> (r: Option<&SbasRecord>)
        requires
            t_j2000_s.wf(),
        ensures
            held(r) == (if sat.system == GnssSystem::Sbas {
                selected_sbas(self@, sat, Some((issue, igs_ssr)), t_j2000_s.total())
            } else {
                None
            }),
    {
        proof {
            use_type_invariant(self);
        }
        if sat.system != GnssSystem::Sbas {
            return None;
        }
        self.nearest_sbas_of(sat, Some((issue, igs_ssr)), t_j2000_s)
    }

    /// Broadcast group delay of the record selected for `sat` at `t_j2000_s`, for the
    /// single-frequency user of its message: GPS, QZSS and NavIC LNAV TGD, Galileo I/NAV BGD
    /// E5b/E1, Galileo F/NAV BGD E5a/E1, BeiDou TGD1, CNAV TGD less ISC L1C/A, and for GLONASS the
    /// G1 delay of the record's L1/L2 group delay difference. `None` where no record is selected,
    /// for a GLONASS record that states no delay, and for SBAS.
    pub fn single_frequency_group_delay_s(&self, sat: GnssSatelliteId, t_j2000_s: ExactEpoch) -> (r:
        Option<GroupDelay>)
        requires
            t_j2000_s.wf(),
        ensures
            r == delay_at(self@, sat, t_j2000_s.total()),
    {
        proof {
            use_type_invariant(self);
        }
        match sat.system {
            GnssSystem::Glonass => match self.select_glonass_at(sat, t_j2000_s) {
                Some(record) => record.single_frequency_group_delay_s(),
                None => None,
            },
            GnssSystem::Sbas => None,
            _ => match self.select_record_at(sat, t_j2000_s) {
                Some(record) => Some(record.broadcast_clock_group_delay_s()),
                None => None,
            },
        }
    }

    /// Variance (square meters) of the satellite position and clock error of the record selected
    /// for `sat` at `selection_j2000_s`: from a Keplerian record's accuracy (the Galileo SISA to
    /// the resolution of its index, the URA index of any other system's stated URA, a blank
    /// accuracy as 0), 25 for a GLONASS record, and from an SBAS record's URA. `None` where no
    /// record is selected.
    pub fn ephemeris_variance_m2(
        &self,
        sat: GnssSatelliteId,
        selection_j2000_s: ExactEpoch,
    ) -> (r: Option<Decimal>)
        requires
            selection_j2000_s.wf(),
        ensures
            r == variance_at(self@, sat, selection_j2000_s.total()),
    {
        proof {
            use_type_invariant(self);
        }
        match sat.system {
            GnssSystem::Glonass => match self.select_glonass_at(sat, selection_j2000_s) {
                Some(_) => Some(glonass_variance_m2()),
                None => None,
            },
            GnssSystem::Sbas => match self.select_sbas_at(sat, selection_j2000_s) {
                Some(record) => Some(sbas_variance_m2(record)),
                None => None,
            },
            _ => match self.select_record_at(sat, selection_j2000_s) {
                Some(record) => Some(keplerian_variance_m2(record)),
                None => None,
            },
        }
    }

    /// Keep only the records matching a predicate (e.g. a custom message/health policy on a store
    /// built with [`new`](BroadcastStore::new)).
    pub fn retain<F: Fn(&BroadcastRecord) -> bool>(&mut self, keep: F)
        requires
            forall|record: BroadcastRecord| keep.requires((&record,)),
        ensures
            final(self)@ == (Store { records: final(self)@.records, ..old(self)@ }),
            exists|kept: Seq<bool>|
                kept.len() == old(self)@.records.len() && (forall|k: int|
                    0 <= k < kept.len() ==> keep.ensures(
                        (&old(self)@.records[k],),
                        #[trigger] kept[k],
                    )) && final(self)@.records == #[trigger] kept_records(
                    old(self)@.records,
                    kept,
                ),
    {
        proof {
            use_type_invariant(&*self);
        }
        let ghost all = self.keplerian.records@;
        let ghost mut kept: Seq<bool> = Seq::empty();
        let mut records: Vec<BroadcastRecord> = Vec::new();
        let mut i: usize = 0;
        assert(records@ =~= kept_records(all.subrange(0, 0), kept));
        while i < self.keplerian.records.len()
            invariant
                all == self.keplerian.records@,
                forall|record: BroadcastRecord| keep.requires((&record,)),
                i <= self.keplerian.records@.len(),
                kept.len() == i,
                forall|k: int| 0 <= k < i ==> keep.ensures((&all[k],), #[trigger] kept[k]),
                records@ == kept_records(all.subrange(0, i as int), kept),
            decreases self.keplerian.records@.len() - i,
        {
            let flag: bool = keep(&self.keplerian.records[i]);
            let ghost before = kept;
            proof {
                kept = kept.push(flag);
                lemma_kept_prefix(all.subrange(0, i as int), before, kept);
                assert(all.subrange(0, i + 1).drop_last() =~= all.subrange(0, i as int));
                assert(all.subrange(0, i + 1).last() == all[i as int]);
            }
            if flag {
                records.push(self.keplerian.records[i]);
            }
            i = i + 1;
        }
        assert(all.subrange(0, i as int) =~= all);
        proof {
            assert(all == old(self)@.records);
            assert(records@ == kept_records(old(self)@.records, kept));
        }
        let selection = keplerian_selection_order(&records);
        self.keplerian = Candidates { records, selection };
    }
}

/// Flags past the end of the records do not matter.
proof fn lemma_kept_prefix(records: Seq<BroadcastRecord>, a: Seq<bool>, b: Seq<bool>)
    requires
        records.len() <= a.len() <= b.len(),
        forall|k: int| 0 <= k < a.len() ==> a[k] == b[k],
    ensures
        kept_records(records, a) == kept_records(records, b),
    decreases records.len(),
{
    if records.len() > 0 {
        lemma_kept_prefix(records.drop_last(), a, b);
    }
}

/// The group delay of the record selected for a satellite at `t`.
pub open spec fn delay_at(store: Store, sat: GnssSatelliteId, t: int) -> Option<GroupDelay> {
    if sat.system == GnssSystem::Glonass {
        match selected_glonass(store, sat, t) {
            Some(record) => glonass_delay(record),
            None => None,
        }
    } else {
        match selected(store, sat, t) {
            Some(record) => Some(
                match record.group_delays.message_delay(record.satellite_id.system, record.message) {
                    Some(delay) => delay,
                    None => GroupDelay::Zero,
                },
            ),
            None => None,
        }
    }
}

/// The variance of the record selected for a satellite at `t`, square meters.
pub open spec fn variance_at(store: Store, sat: GnssSatelliteId, t: int) -> Option<Decimal> {
    match sat.system {
        GnssSystem::Glonass => match selected_glonass(store, sat, t) {
            Some(_) => Some(variance(500)),
            None => None,
        },
        GnssSystem::Sbas => match selected_sbas(store, sat, None, t) {
            Some(record) => Some(variance(ura_deviation(accuracy_or_zero(record.ura_m)))),
            None => None,
        },
        _ => match selected(store, sat, t) {
            Some(record) => Some(
                variance(
                    deviation(record.satellite_id.system, accuracy_or_zero(record.sv_accuracy_m)),
                ),
            ),
            None => None,
        },
    }
}

impl core::str::FromStr for BroadcastStore {
    type Err = NavParseError;

    /// A store of the records of a navigation file (see [`BroadcastStore::from_nav`]).
    fn from_str(text: &str) -> (r: Result<BroadcastStore, NavParseError>)
        ensures
            match file_of(utf8(text@)) {
                Err(fault) => r matches Err(e) && e@ == fault,
                Ok(file) => r matches Ok(store) && store@ == store_of(file),
            },
    {
        BroadcastStore::from_nav(text)
    }
}

/// The rank of a message among candidates equally far (see [`tie_rank`]).
fn cnav_tie_rank(message: NavMessage) -> (r: u8)
    ensures
        r == tie_rank(message),
{
    if message.is_cnav2() {
        1
    } else {
        0
    }
}

/// The candidate taken is one of the order; no candidate of the order is nearer, none as near is
/// ranked before it, and none as near and of its rank stands later. One is taken wherever there is
/// a candidate. `r` is its place in the order.
pub proof fn law_nearest(
    records: Seq<BroadcastRecord>,
    order: Seq<int>,
    sat: GnssSatelliteId,
    t: int,
    preference: NavMessagePreference,
    family: bool,
) -> (r: int)
    ensures
        match nearest(records, order, sat, t, preference, family) {
            Some(i) => {
                &&& 0 <= r < order.len()
                &&& order[r] == i
                &&& candidate(records[i], sat, t, preference, family)
                &&& forall|k: int|
                    0 <= k < order.len() && candidate(
                        records[#[trigger] order[k]],
                        sat,
                        t,
                        preference,
                        family,
                    ) ==> toe_distance(records[i], t) <= toe_distance(records[order[k]], t) && (
                    toe_distance(records[i], t) == toe_distance(records[order[k]], t)
                        ==> tie_rank(records[i].message) <= tie_rank(records[order[k]].message) && (
                    tie_rank(records[i].message) == tie_rank(records[order[k]].message) ==> k
                        <= r))
            },
            None => forall|k: int|
                0 <= k < order.len() ==> !candidate(
                    records[#[trigger] order[k]],
                    sat,
                    t,
                    preference,
                    family,
                ),
        },
    decreases order.len(),
{
    if order.len() == 0 {
        0
    } else {
        let head = order.drop_last();
        let before = law_nearest(records, head, sat, t, preference, family);
        let last = order.len() - 1;
        assert forall|k: int| 0 <= k < last implies #[trigger] order[k] == head[k] by {}
        let i = order.last();
        if candidate(records[i], sat, t, preference, family) && (match nearest(
            records,
            head,
            sat,
            t,
            preference,
            family,
        ) {
            None => true,
            Some(c) => taken_over(records[i], records[c], t),
        }) {
            last
        } else {
            before
        }
    }
}

/// The record selected is the nearest of all that are held: wherever a record of a satellite lies
/// within its limit one is selected for the satellite, and no record of the same message family
/// within its limit has a reference time nearer to the query, in the time of the satellite's
/// system, BeiDou time for BeiDou.
pub proof fn law_selected_is_nearest(store: Store, sat: GnssSatelliteId, t: int, k: int)
    requires
        0 <= k < store.records.len(),
        sat.system != GnssSystem::Glonass && sat.system != GnssSystem::Sbas,
        store.records[k].satellite_id == sat,
        within_limit(store.records[k], t),
    ensures
        selected_index(store, sat, t) matches Some(i) && 0 <= i < store.records.len()
            && store.records[i].satellite_id == sat && (preferred(
            store.preference,
            store.records[i],
        ) == preferred(store.preference, store.records[k]) ==> toe_distance(store.records[i], t)
            <= toe_distance(store.records[k], t)),
{
    let records = store.records;
    let order = keplerian_order(records);
    let r = law_order_represents(records, k);
    let m = order[r];
    let family = preferred(store.preference, records[k]);
    assert(candidate(records[m], sat, t, store.preference, family));
    let a = law_nearest(records, order, sat, t, store.preference, true);
    let b = law_nearest(records, order, sat, t, store.preference, false);
    let i = selected_index(store, sat, t)->0;
    let at = if nearest(records, order, sat, t, store.preference, true) is Some {
        a
    } else {
        b
    };
    law_order_within(records, at);
}

/// A Galileo record is not used at or before its `toe`, and no record farther than its system's
/// limit is used.
pub proof fn law_selected_within_limit(store: Store, sat: GnssSatelliteId, t: int)
    ensures
        selected(store, sat, t) matches Some(record) ==> record.satellite_id == sat && toe_distance(
            record,
            t,
        ) <= crate::epoch::max_dtoe(sat.system) * QUECTOS_PER_SECOND && (sat.system
            == GnssSystem::Galileo ==> toe_total(record) < t),
{
    let order = keplerian_order(store.records);
    let a = law_nearest(store.records, order, sat, t, store.preference, true);
    let b = law_nearest(store.records, order, sat, t, store.preference, false);
}

/// An unusable record that is selected yields no record, although an older usable one is held.
pub proof fn law_excluded_not_replaced(store: Store, sat: GnssSatelliteId, t: int)
    requires
        store.exclude,
        selected_index(store, sat, t) matches Some(i) && excluded(store.records[i]),
    ensures
        selected(store, sat, t) is None,
{
}

/// The preference decides between families only: a satellite with candidates of one family has its
/// record selected whatever the preference.
pub proof fn law_preference_falls_back(store: Store, sat: GnssSatelliteId, t: int)
    ensures
        selected_index(store, sat, t) is Some <==> selected_index(
            Store { preference: NavMessagePreference::PreferModern, ..store },
            sat,
            t,
        ) is Some,
{
    let order = keplerian_order(store.records);
    let modern = NavMessagePreference::PreferModern;
    let a = law_nearest(store.records, order, sat, t, store.preference, true);
    let b = law_nearest(store.records, order, sat, t, store.preference, false);
    let c = law_nearest(store.records, order, sat, t, modern, true);
    let d = law_nearest(store.records, order, sat, t, modern, false);
}

/// The GLONASS candidate taken is one of the order; none of the order is nearer, and none as near
/// stands later. One is taken wherever there is a candidate. `r` is its place in the order.
pub proof fn law_nearest_glonass(
    records: Seq<GlonassRecord>,
    order: Seq<int>,
    sat: GnssSatelliteId,
    t: int,
) -> (r: int)
    ensures
        match nearest_glonass(records, order, sat, t) {
            Some(i) => {
                &&& 0 <= r < order.len()
                &&& order[r] == i
                &&& glonass_candidate(records[i], sat, None, t)
                &&& forall|k: int|
                    0 <= k < order.len() && glonass_candidate(
                        records[#[trigger] order[k]],
                        sat,
                        None,
                        t,
                    ) ==> glonass_distance(records[i], t) <= glonass_distance(
                        records[order[k]],
                        t,
                    ) && (glonass_distance(records[i], t) == glonass_distance(records[order[k]], t)
                        ==> k <= r)
            },
            None => forall|k: int|
                0 <= k < order.len() ==> !glonass_candidate(
                    records[#[trigger] order[k]],
                    sat,
                    None,
                    t,
                ),
        },
    decreases order.len(),
{
    if order.len() == 0 {
        0
    } else {
        let head = order.drop_last();
        let before = law_nearest_glonass(records, head, sat, t);
        let last = order.len() - 1;
        assert forall|k: int| 0 <= k < last implies #[trigger] order[k] == head[k] by {}
        let i = order.last();
        if glonass_candidate(records[i], sat, None, t) && (match nearest_glonass(
            records,
            head,
            sat,
            t,
        ) {
            None => true,
            Some(c) => glonass_distance(records[i], t) <= glonass_distance(records[c], t),
        }) {
            last
        } else {
            before
        }
    }
}

/// The SBAS candidate taken is one of the order; none of the order is nearer, and none as near
/// stands later. One is taken wherever there is a candidate. `r` is its place in the order.
pub proof fn law_nearest_sbas(
    records: Seq<SbasRecord>,
    order: Seq<int>,
    sat: GnssSatelliteId,
    issue: Option<(u32, bool)>,
    t: int,
) -> (r: int)
    ensures
        match nearest_sbas(records, order, sat, issue, t) {
            Some(i) => {
                &&& 0 <= r < order.len()
                &&& order[r] == i
                &&& sbas_candidate(records[i], sat, issue, t)
                &&& forall|k: int|
                    0 <= k < order.len() && sbas_candidate(
                        records[#[trigger] order[k]],
                        sat,
                        issue,
                        t,
                    ) ==> sbas_distance(records[i], t) <= sbas_distance(records[order[k]], t) && (
                    sbas_distance(records[i], t) == sbas_distance(records[order[k]], t) ==> k <= r)
            },
            None => forall|k: int|
                0 <= k < order.len() ==> !sbas_candidate(
                    records[#[trigger] order[k]],
                    sat,
                    issue,
                    t,
                ),
        },
    decreases order.len(),
{
    if order.len() == 0 {
        0
    } else {
        let head = order.drop_last();
        let before = law_nearest_sbas(records, head, sat, issue, t);
        let last = order.len() - 1;
        assert forall|k: int| 0 <= k < last implies #[trigger] order[k] == head[k] by {}
        let i = order.last();
        if sbas_candidate(records[i], sat, issue, t) && (match nearest_sbas(
            records,
            head,
            sat,
            issue,
            t,
        ) {
            None => true,
            Some(c) => sbas_distance(records[i], t) <= sbas_distance(records[c], t),
        }) {
            last
        } else {
            before
        }
    }
}

} // verus!

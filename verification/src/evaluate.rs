//! What a state query evaluates: the record selected at the observation epoch, and how long after
//! the record's reference epochs the queried instant is.
//!
//! A receiver selects the record by the epoch of its observation and evaluates it at the epoch of
//! transmission, so each query here takes both. The evaluation itself is in floating point and not
//! part of this library.

use vstd::prelude::*;

use crate::epoch::{
    exact_week_tow_epoch, native_sow, native_total, query_native_time, ExactEpoch, GPST_MINUS_BDT_S,
};
use crate::health::glonass_delay;
use crate::id::{GnssSatelliteId, GnssSystem};
use crate::order::{glonass_order, glonass_reference};
use crate::record::{
    beidou_geo, is_beidou_geo, BroadcastRecord, GlonassRecord, GroupDelay, SbasRecord,
};
use crate::store::{
    delay_at, first_glonass, named, selected, selected_glonass, selected_sbas, usable_glonass,
    BroadcastStore, RecordIssue, Store,
};
use crate::time::{Seconds, TimeScale, QUECTOS_PER_SECOND};

verus! {

/// A record and the spans from its reference epochs to the instant it is evaluated at.
#[derive(Debug, Clone, Copy, PartialEq)]
#[allow(inconsistent_fields)]
pub enum SelectedRecord<'a> {
    /// A Keplerian record.
    Keplerian {
        /// The record.
        record: &'a BroadcastRecord,
        /// Seconds since the ephemeris reference time.
        since_toe: ExactEpoch,
        /// Seconds since the clock reference time.
        since_toc: ExactEpoch,
        /// Whether the orbit is that of a BeiDou geostationary satellite. The CNAV model has no
        /// such orbit.
        is_geo: bool,
    },
    /// A GLONASS record.
    Glonass {
        /// The record.
        record: &'a GlonassRecord,
        /// Seconds since the reference epoch.
        since_toe: ExactEpoch,
    },
    /// An SBAS record.
    Sbas {
        /// The record.
        record: &'a SbasRecord,
        /// Seconds since the reference epoch.
        since_t0: ExactEpoch,
    },
}

/// What a [`SelectedRecord`] states, spans in 10^-30 s.
pub ghost enum Selection {
    /// A Keplerian record, since its `toe`, since its `toc`, and whether the orbit is geostationary.
    Keplerian(BroadcastRecord, int, int, bool),
    /// A GLONASS record, since its reference epoch.
    Glonass(GlonassRecord, int),
    /// An SBAS record, since its reference epoch.
    Sbas(SbasRecord, int),
}

impl<'a> View for SelectedRecord<'a> {
    type V = Selection;

    open spec fn view(&self) -> Selection {
        match *self {
            SelectedRecord::Keplerian { record, since_toe, since_toc, is_geo } =>
                Selection::Keplerian(*record, since_toe.total(), since_toc.total(), is_geo),
            SelectedRecord::Glonass { record, since_toe } => Selection::Glonass(
                *record,
                since_toe.total(),
            ),
            SelectedRecord::Sbas { record, since_t0 } => Selection::Sbas(
                *record,
                since_t0.total(),
            ),
        }
    }
}

/// A GPS time instant on the scale of a record's `toe`, in 10^-30 s: BeiDou time runs 14 s behind.
pub open spec fn record_time(record: BroadcastRecord, t: int) -> int {
    if record.toe.system == TimeScale::Bdt {
        t - GPST_MINUS_BDT_S * QUECTOS_PER_SECOND
    } else {
        t
    }
}

/// The spans from a record's `toe` and `toc` to an instant.
pub fn exact_record_deltas(epoch: ExactEpoch, record: &BroadcastRecord) -> (r: (
    ExactEpoch,
    ExactEpoch,
))
    requires
        epoch.wf(),
    ensures
        r.0.quectos < QUECTOS_PER_SECOND,
        r.1.quectos < QUECTOS_PER_SECOND,
        r.0.total() == record_time(*record, epoch.total()) - native_total(record.toe),
        r.1.total() == record_time(*record, epoch.total()) - native_total(record.toc),
{
    let toe = exact_week_tow_epoch(record.toe);
    let toc = exact_week_tow_epoch(record.toc);
    let now = if record.toe.system == TimeScale::Bdt {
        epoch.moved(-14)
    } else {
        epoch
    };
    (now.minus(toe), now.minus(toc))
}

/// What a Keplerian record is evaluated with for a satellite at an instant.
pub open spec fn keplerian_selection(
    record: BroadcastRecord,
    sat: GnssSatelliteId,
    t: int,
) -> Selection {
    Selection::Keplerian(
        record,
        record_time(record, t) - native_total(record.toe),
        record_time(record, t) - native_total(record.toc),
        beidou_geo(sat) && record.cnav is None,
    )
}

/// What a GLONASS record is evaluated with at an instant.
pub open spec fn glonass_selection(record: GlonassRecord, t: int) -> Selection {
    Selection::Glonass(record, t - glonass_reference(record).total())
}

/// What an SBAS record is evaluated with at an instant.
pub open spec fn sbas_selection(record: SbasRecord, t: int) -> Selection {
    Selection::Sbas(record, t - record.epoch.j2000().total())
}

/// What a state of a satellite at `t` is evaluated from, the record selected at `at`.
pub open spec fn evaluated(store: Store, sat: GnssSatelliteId, t: int, at: int) -> Option<
    Selection,
> {
    match sat.system {
        GnssSystem::Glonass => match selected_glonass(store, sat, at) {
            Some(record) => Some(glonass_selection(record, t)),
            None => None,
        },
        GnssSystem::Sbas => match selected_sbas(store, sat, None, at) {
            Some(record) => Some(sbas_selection(record, t)),
            None => None,
        },
        _ => match selected(store, sat, at) {
            Some(record) => Some(keplerian_selection(record, sat, t)),
            None => None,
        },
    }
}

/// What a state of a satellite at `t` is evaluated from, the record of a GPS LNAV issue byte
/// selected at `at`.
pub open spec fn evaluated_iode(
    store: Store,
    sat: GnssSatelliteId,
    iode: u8,
    t: int,
    at: int,
) -> Option<Selection> {
    match named(store, sat, RecordIssue::Iode(iode), at) {
        Some(record) => Some(keplerian_selection(record, sat, t)),
        None => None,
    }
}

/// The view of an optional selection.
pub open spec fn selection_view(r: Option<SelectedRecord>) -> Option<Selection> {
    match r {
        Some(s) => Some(s@),
        None => None,
    }
}

/// The group delay of a record for the single-frequency user of its message.
pub open spec fn selection_delay(s: Selection) -> Option<GroupDelay> {
    match s {
        Selection::Keplerian(record, _, _, _) => Some(
            match record.group_delays.message_delay(record.satellite_id.system, record.message) {
                Some(delay) => delay,
                None => GroupDelay::Zero,
            },
        ),
        Selection::Glonass(record, _) => glonass_delay(record),
        Selection::Sbas(_, _) => None,
    }
}

impl<'a> SelectedRecord<'a> {
    /// The group delay of the record for the single-frequency user of its message: `None` for SBAS
    /// and for a GLONASS record that states no delay.
    pub fn single_frequency_group_delay_s(&self) -> (r: Option<GroupDelay>)
        ensures
            r == selection_delay(self@),
    {
        match self {
            SelectedRecord::Keplerian { record, .. } => Some(
                record.broadcast_clock_group_delay_s(),
            ),
            SelectedRecord::Glonass { record, .. } => record.single_frequency_group_delay_s(),
            SelectedRecord::Sbas { .. } => None,
        }
    }
}

/// A Keplerian record as evaluated for a satellite at an instant (see [`keplerian_selection`]).
fn keplerian_at<'a>(record: &'a BroadcastRecord, sat: GnssSatelliteId, t: ExactEpoch) -> (r:
    SelectedRecord<'a>)
    requires
        t.wf(),
    ensures
        r@ == keplerian_selection(*record, sat, t.total()),
{
    let (since_toe, since_toc) = exact_record_deltas(t, record);
    let is_geo: bool = is_beidou_geo(sat) && record.cnav.is_none();
    SelectedRecord::Keplerian { record, since_toe, since_toc, is_geo }
}

/// A GLONASS record as evaluated at an instant (see [`glonass_selection`]).
fn glonass_at<'a>(record: &'a GlonassRecord, t: ExactEpoch) -> (r: SelectedRecord<'a>)
    requires
        t.wf(),
    ensures
        r@ == glonass_selection(*record, t.total()),
{
    SelectedRecord::Glonass { record, since_toe: t.minus(record.toe_gpst_j2000_s()) }
}

/// An SBAS record as evaluated at an instant (see [`sbas_selection`]).
fn sbas_at<'a>(record: &'a SbasRecord, t: ExactEpoch) -> (r: SelectedRecord<'a>)
    requires
        t.wf(),
    ensures
        r@ == sbas_selection(*record, t.total()),
{
    SelectedRecord::Sbas { record, since_t0: t.minus(record.t0_j2000_s()) }
}

impl BroadcastStore {
    /// The record selected for `sat` at `selection`, as it is evaluated at `t` for the satellite's
    /// position, velocity and clock.
    pub fn selected_at(&self, sat: GnssSatelliteId, t: ExactEpoch, selection: ExactEpoch) -> (r:
        Option<SelectedRecord<'_>>)
        requires
            t.wf(),
            selection.wf(),
        ensures
            selection_view(r) == evaluated(self@, sat, t.total(), selection.total()),
    {
        match sat.system {
            GnssSystem::Glonass => match self.select_glonass_at(sat, selection) {
                Some(record) => Some(glonass_at(record, t)),
                None => None,
            },
            GnssSystem::Sbas => match self.select_sbas_at(sat, selection) {
                Some(record) => Some(sbas_at(record, t)),
                None => None,
            },
            _ => match self.select_record_at(sat, selection) {
                Some(record) => Some(keplerian_at(record, sat, t)),
                None => None,
            },
        }
    }

    /// The Keplerian record for `sat` selected at `selection`, with the seconds of week and the
    /// geostationary flag of `t`, the epoch it is evaluated at. `None` for GLONASS and SBAS.
    pub fn keplerian_selected(
        &self,
        sat: GnssSatelliteId,
        t: ExactEpoch,
        selection: ExactEpoch,
    ) -> (r: Option<(&BroadcastRecord, Seconds, bool)>)
        requires
            t.wf(),
            selection.wf(),
        ensures
            match r {
                Some((record, sow, is_geo)) => selected(self@, sat, selection.total()) == Some(
                    *record,
                ) && native_sow(sat.system, t.total()) == Some(sow.total()) && sow.wf() && is_geo
                    == beidou_geo(sat),
                None => selected(self@, sat, selection.total()) is None,
            },
    {
        match self.select_record_at(sat, selection) {
            None => None,
            Some(record) => match query_native_time(sat.system, t) {
                None => None,
                Some(sow) => Some((record, sow, is_beidou_geo(sat))),
            },
        }
    }

    /// The GPS LNAV record of issue byte `iode` for `sat` that is selected and evaluated at `t`.
    pub fn state_by_iode_at(&self, sat: GnssSatelliteId, iode: u8, t: ExactEpoch) -> (r: Option<
        SelectedRecord<'_>,
    >)
        requires
            t.wf(),
        ensures
            selection_view(r) == evaluated_iode(self@, sat, iode, t.total(), t.total()),
    {
        self.state_by_iode_selected_at(sat, iode, t, t)
    }

    /// The GPS LNAV record of issue byte `iode` for `sat` selected at `selection`, as it is
    /// evaluated at `t`.
    pub fn state_by_iode_selected_at(
        &self,
        sat: GnssSatelliteId,
        iode: u8,
        t: ExactEpoch,
        selection: ExactEpoch,
    ) -> (r: Option<SelectedRecord<'_>>)
        requires
            t.wf(),
            selection.wf(),
        ensures
            selection_view(r) == evaluated_iode(self@, sat, iode, t.total(), selection.total()),
    {
        match self.select_by_iode_at(sat, iode, selection) {
            Some(record) => Some(keplerian_at(record, sat, t)),
            None => None,
        }
    }

    /// The GLONASS record an orbit correction of issue `iode` names for `sat` at `selection`, as it
    /// is evaluated at `t`.
    pub fn glonass_ssr_state(
        &self,
        sat: GnssSatelliteId,
        iode: u32,
        t: ExactEpoch,
        selection: ExactEpoch,
    ) -> (r: Option<SelectedRecord<'_>>)
        requires
            t.wf(),
            selection.wf(),
        ensures
            selection_view(r) == (match usable_glonass(
                self@,
                first_glonass(
                    self@.glonass,
                    glonass_order(self@.glonass),
                    sat,
                    iode,
                    selection.total(),
                ),
            ) {
                Some(record) => Some(glonass_selection(record, t.total())),
                None => None,
            }),
    {
        match self.select_glonass_by_issue_at(sat, iode, selection) {
            Some(record) => Some(glonass_at(record, t)),
            None => None,
        }
    }

    /// The SBAS record an orbit correction of `issue` names for `sat` at `selection`, as it is
    /// evaluated at `t`: an IGS correction names the IODN, any other the reference epoch modulo
    /// 8192 s in 16-second units.
    pub fn sbas_ssr_state(
        &self,
        sat: GnssSatelliteId,
        issue: u32,
        igs_ssr: bool,
        t: ExactEpoch,
        selection: ExactEpoch,
    ) -> (r: Option<SelectedRecord<'_>>)
        requires
            t.wf(),
            selection.wf(),
        ensures
            selection_view(r) == (if sat.system != GnssSystem::Sbas {
                None
            } else {
                match selected_sbas(self@, sat, Some((issue, igs_ssr)), selection.total()) {
                    Some(record) => Some(sbas_selection(record, t.total())),
                    None => None,
                }
            }),
    {
        match self.select_sbas_by_issue_at(sat, issue, igs_ssr, selection) {
            Some(record) => Some(sbas_at(record, t)),
            None => None,
        }
    }
}

/// The group delay read with a state is that of the record the state is evaluated from: a query
/// that selects and evaluates at one epoch gives the delay selected at that epoch.
pub proof fn law_delay_of_evaluated(store: Store, sat: GnssSatelliteId, t: int)
    ensures
        delay_at(store, sat, t) == (match evaluated(store, sat, t, t) {
            Some(s) => selection_delay(s),
            None => None,
        }),
{
}

/// The record evaluated does not depend on the instant it is evaluated at, only on the instant it
/// is selected at, and an evaluation that moves by a time moves each span by that time.
pub proof fn law_selection_fixes_record(
    store: Store,
    sat: GnssSatelliteId,
    t: int,
    later: int,
    at: int,
)
    ensures
        match (evaluated(store, sat, t, at), evaluated(store, sat, later, at)) {
            (
                Some(Selection::Keplerian(a, toe_a, toc_a, geo_a)),
                Some(Selection::Keplerian(b, toe_b, toc_b, geo_b)),
            ) => a == b && geo_a == geo_b && toe_b - toe_a == later - t && toc_b - toc_a == later - t,
            (Some(Selection::Glonass(a, since_a)), Some(Selection::Glonass(b, since_b))) => a == b
                && since_b - since_a == later - t,
            (Some(Selection::Sbas(a, since_a)), Some(Selection::Sbas(b, since_b))) => a == b
                && since_b - since_a == later - t,
            (None, None) => true,
            _ => false,
        },
{
}

} // verus!

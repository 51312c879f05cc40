//! The state of the world that viewers are served from, and how a snapshot
//! of the live feed changes it.

pub mod metrics;
pub mod spatial;

use self::metrics::{label_string, with_sample, Metrics, Sample};
use crate::fixed::geonames::Geonames;
use crate::fixed::types::GeonamesCountryView;
use crate::text::split_on;
use self::spatial::SpatialIndex;
use crate::fixed::data::{airport_by_compound, controller_at, controllers_with, first_token, spec_airport_idx, FixedData, Lands};
use crate::service::calc::{distinct, Keyed};
use crate::fixed::types::{Airport, AirportView, FIR, FIRView};
use crate::moving::controller::{Controller, ControllerView, Facility};
use crate::moving::data::Data;
use crate::moving::pilot::{Pilot, PilotView};
use crate::table::{key_index, lemma_key_index, lemma_key_index_bounds, Table};
use crate::text::{string_views, views};
use crate::types::{Envelope, Point, Rect};
use crate::util::{counted, Counter};
use crate::weather::ext_types::WeatherInfo;
use vstd::prelude::*;

verus! {

/// After how many snapshots the store of tracks is cleaned up.
pub const CLEANUP_EVERY_X_ITER: u8 = 5;

/// The last of the first `n` pilots with the callsign `callsign`.
pub open spec fn pilot_named(pilots: Seq<PilotView>, callsign: Seq<char>, n: int) -> Option<
    PilotView,
>
    decreases n,
{
    if n <= 0 || n > pilots.len() {
        None
    } else if pilots[n - 1].callsign == callsign {
        Some(pilots[n - 1])
    } else {
        pilot_named(pilots, callsign, n - 1)
    }
}

/// The box that a pilot at `position` has in the index: the point itself,
/// where it lies within the limits of the index.
pub open spec fn box_of(position: Point) -> Option<Envelope> {
    if Envelope::spec_from_point(position).in_bounds() {
        Some(Envelope::spec_from_point(position))
    } else {
        None
    }
}

/// Whether a viewer is shown the airport: it has a controller, or it has
/// weather and the viewer has asked for the weather of all airports.
pub open spec fn airport_shown(a: AirportView, show_uncontrolled_wx: bool) -> bool {
    !a.controllers.is_empty() || (show_uncontrolled_wx && a.wx is Some)
}

/// Those of the first `n` airports that a viewer is shown.
pub open spec fn airports_shown(airports: Seq<AirportView>, show: bool, n: int) -> Seq<AirportView>
    decreases n,
{
    if n <= 0 || n > airports.len() {
        Seq::empty()
    } else if airport_shown(airports[n - 1], show) {
        airports_shown(airports, show, n - 1).push(airports[n - 1])
    } else {
        airports_shown(airports, show, n - 1)
    }
}

/// Those of the first `n` regions that somebody looks after.
pub open spec fn firs_staffed(firs: Seq<FIRView>, n: int) -> Seq<FIRView>
    decreases n,
{
    if n <= 0 || n > firs.len() {
        Seq::empty()
    } else if !firs[n - 1].is_empty() {
        firs_staffed(firs, n - 1).push(firs[n - 1])
    } else {
        firs_staffed(firs, n - 1)
    }
}


/// Whether one of the first `n` boxes of a query takes in the box `b`: by
/// holding all of it, or, where `touching` is set, by sharing a point with
/// it. A box of the query whose corners are out of order holds no point and
/// takes in nothing.
pub open spec fn taken_in(envelopes: Seq<Envelope>, n: int, b: Envelope, touching: bool) -> bool
    decreases n,
{
    if n <= 0 || n > envelopes.len() {
        false
    } else {
        (envelopes[n - 1].ordered() && if touching {
            envelopes[n - 1].spec_intersects(b)
        } else {
            envelopes[n - 1].spec_contains_envelope(b)
        }) || taken_in(envelopes, n - 1, b, touching)
    }
}

/// Whether the viewport `rect` takes in the box `b`.
pub open spec fn in_view(rect: Rect, b: Envelope, touching: bool) -> bool {
    taken_in(rect.spec_envelopes(), rect.spec_envelopes().len() as int, b, touching)
}

/// The names of the boxes of `index` that the viewport `rect` takes in,
/// each once.
pub fn ids_in_view(index: &SpatialIndex, rect: &Rect, touching: bool) -> (ids: Vec<String>)
    requires
        index.wf(),
    ensures
        string_views(ids@).no_duplicates(),
        forall|c: Seq<char>|
            string_views(ids@).contains(c) <==> (index.spec_box(c) is Some && in_view(
                *rect,
                index.spec_box(c)->0,
                touching,
            )),
{
    let envelopes = rect.envelopes();
    let mut out: Vec<String> = Vec::new();
    let mut e: usize = 0;
    assert(string_views(out@) =~= Seq::<Seq<char>>::empty());
    while e < envelopes.len()
        invariant
            e <= envelopes.len(),
            index.wf(),
            envelopes@ == rect.spec_envelopes(),
            string_views(out@).no_duplicates(),
            forall|c: Seq<char>|
                string_views(out@).contains(c) <==> (index.spec_box(c) is Some && taken_in(
                    envelopes@,
                    e as int,
                    index.spec_box(c)->0,
                    touching,
                )),
        decreases envelopes.len() - e,
    {
        let env = envelopes[e];
        let found = if !(env.lower.lat <= env.upper.lat && env.lower.lng <= env.upper.lng) {
            Vec::new()
        } else if touching {
            index.locate_in_envelope_intersecting(env)
        } else {
            index.locate_in_envelope(env)
        };
        let ghost start = string_views(out@);
        let ghost names = string_views(found@);
        let mut j: usize = 0;
        while j < found.len()
            invariant
                j <= found.len(),
                names == string_views(found@),
                string_views(out@).no_duplicates(),
                forall|c: Seq<char>|
                    string_views(out@).contains(c) <==> (start.contains(c) || names.subrange(
                        0,
                        j as int,
                    ).contains(c)),
            decreases found.len() - j,
        {
            let ghost before = string_views(out@);
            let ghost id = found@[j as int]@;
            assert(names[j as int] == id);
            crate::text::add_text(&mut out, found[j].as_str());
            proof {
                let after = string_views(out@);
                let head = names.subrange(0, j as int);
                let next = names.subrange(0, j + 1);
                assert(next =~= head.push(id));
                assert forall|c: Seq<char>|
                    after.contains(c) <==> (start.contains(c) || next.contains(c)) by {
                    assert(before.contains(c) <==> (start.contains(c) || head.contains(c)));
                    if head.contains(c) {
                        let m = choose|m: int| 0 <= m < head.len() && head[m] == c;
                        assert(next[m] == c);
                    }
                    if after.contains(c) {
                        let k = choose|k: int| 0 <= k < after.len() && after[k] == c;
                        if k < before.len() {
                            assert(before[k] == c);
                            assert(before.contains(c));
                            if head.contains(c) {
                                let m = choose|m: int| 0 <= m < head.len() && head[m] == c;
                                assert(next[m] == c);
                            }
                        } else {
                            assert(c == id);
                            assert(next[j as int] == id);
                        }
                    }
                    if start.contains(c) || next.contains(c) {
                        if next.contains(c) && !head.contains(c) && !start.contains(c) {
                            let m = choose|m: int| 0 <= m < next.len() && next[m] == c;
                            if m < j {
                                assert(head[m] == c);
                            }
                            assert(c == id);
                            assert(!before.contains(c));
                            assert(after[after.len() - 1] == id);
                        } else {
                            assert(before.contains(c));
                            let k = choose|k: int| 0 <= k < before.len() && before[k] == c;
                            assert(after[k] == c);
                        }
                    }
                }
            }
            j += 1;
        }
        assert(names.subrange(0, j as int) =~= names);
        proof {
            assert forall|c: Seq<char>|
                string_views(out@).contains(c) <==> (index.spec_box(c) is Some && taken_in(
                    envelopes@,
                    e + 1,
                    index.spec_box(c)->0,
                    touching,
                )) by {
                assert(string_views(out@).contains(c) <==> (start.contains(c) || names.contains(c)));
                assert(start.contains(c) <==> (index.spec_box(c) is Some && taken_in(
                    envelopes@,
                    e as int,
                    index.spec_box(c)->0,
                    touching,
                )));
            }
        }
        e += 1;
    }
    out
}


/// Those of the first `n` items whose mark is set, in their order.
pub open spec fn selected<V>(items: Seq<V>, marks: Seq<bool>, n: int) -> Seq<V>
    decreases n,
{
    if n <= 0 || n > items.len() || n > marks.len() {
        Seq::empty()
    } else if marks[n - 1] {
        selected(items, marks, n - 1).push(items[n - 1])
    } else {
        selected(items, marks, n - 1)
    }
}

/// Whether `v` is one of the first `n` items.
pub open spec fn among<V>(items: Seq<V>, v: V, n: int) -> bool {
    exists|k: int| 0 <= k < n && k < items.len() && #[trigger] items[k] == v
}

/// What is selected is among the things that it is selected from, and goes
/// by different names where those do.
pub proof fn lemma_selected_distinct<T: Keyed>(items: Seq<T::V>, marks: Seq<bool>, n: int)
    requires
        distinct::<T>(items),
    ensures
        forall|j: int|
            0 <= j < selected(items, marks, n).len() ==> among(
                items,
                #[trigger] selected(items, marks, n)[j],
                n,
            ),
        distinct::<T>(selected(items, marks, n)),
    decreases n,
{
    if !(n <= 0 || n > items.len() || n > marks.len()) {
        lemma_selected_distinct::<T>(items, marks, n - 1);
        let before = selected(items, marks, n - 1);
        let after = selected(items, marks, n);
        assert forall|j: int| 0 <= j < before.len() implies among(items, #[trigger] before[j], n) by {
            assert(among(items, before[j], n - 1));
            let k = choose|k: int| 0 <= k < n - 1 && k < items.len() && #[trigger] items[k] == before[j];
            assert(items[k] == before[j]);
        }
        if marks[n - 1] {
            assert(after == before.push(items[n - 1]));
            assert(among(items, items[n - 1], n));
            assert forall|i: int, j: int| 0 <= i < j < after.len() implies T::spec_key(
                #[trigger] after[i],
            ) != T::spec_key(#[trigger] after[j]) by {
                if j == before.len() {
                    assert(among(items, before[i], n - 1));
                    let k = choose|k: int|
                        0 <= k < n - 1 && k < items.len() && #[trigger] items[k] == before[i];
                    assert(T::spec_key(items[k]) != T::spec_key(items[n - 1]));
                } else {
                    assert(T::spec_key(before[i]) != T::spec_key(before[j]));
                }
            }
        }
    }
}

/// Copies of the items whose mark is set.
pub fn select<T: Keyed>(items: &Vec<T>, marks: &Vec<bool>) -> (r: Vec<T>)
    requires
        items@.len() == marks@.len(),
    ensures
        views(r@) == selected(views(items@), marks@, items@.len() as int),
{
    let mut r: Vec<T> = Vec::new();
    let mut i: usize = 0;
    assert(views(r@) =~= Seq::<T::V>::empty());
    while i < items.len()
        invariant
            i <= items.len() == marks@.len(),
            views(r@) == selected(views(items@), marks@, i as int),
        decreases items.len() - i,
    {
        let ghost before = views(r@);
        assert(views(items@)[i as int] == items@[i as int]@);
        if marks[i] {
            r.push(items[i].copy());
            assert(views(r@) =~= before.push(items@[i as int]@));
        }
        i += 1;
    }
    r
}

/// `n` marks, none of them set.
pub fn no_marks(n: usize) -> (marks: Vec<bool>)
    ensures
        marks@.len() == n,
        forall|i: int| 0 <= i < n ==> !(#[trigger] marks@[i]),
{
    let mut marks: Vec<bool> = Vec::new();
    let mut i: usize = 0;
    while i < n
        invariant
            i <= n,
            marks@.len() == i,
            forall|k: int| 0 <= k < i ==> !(#[trigger] marks@[k]),
        decreases n - i,
    {
        marks.push(false);
        i += 1;
    }
    marks
}

/// Whether one of the first `k` of `ids` means the thing with index `i`.
pub open spec fn meant_by(
    ids: Seq<Seq<char>>,
    k: int,
    means: spec_fn(Seq<char>, int) -> bool,
    i: int,
) -> bool
    decreases k,
{
    if k <= 0 || k > ids.len() {
        false
    } else {
        means(ids[k - 1], i) || meant_by(ids, k - 1, means, i)
    }
}

/// A thing is meant by one of the first `k` names where there is a name
/// among them that means it.
pub proof fn lemma_meant_by(
    ids: Seq<Seq<char>>,
    k: int,
    means: spec_fn(Seq<char>, int) -> bool,
    i: int,
)
    requires
        0 <= k <= ids.len(),
    ensures
        meant_by(ids, k, means, i) <==> exists|j: int| 0 <= j < k && means(#[trigger] ids[j], i),
    decreases k,
{
    if k > 0 {
        lemma_meant_by(ids, k - 1, means, i);
        if meant_by(ids, k, means, i) {
            if means(ids[k - 1], i) {
                assert(0 <= k - 1 < k && means(ids[k - 1], i));
            } else {
                let j = choose|j: int| 0 <= j < k - 1 && means(#[trigger] ids[j], i);
                assert(0 <= j < k && means(ids[j], i));
            }
        }
        if exists|j: int| 0 <= j < k && means(#[trigger] ids[j], i) {
            let j = choose|j: int| 0 <= j < k && means(#[trigger] ids[j], i);
            if j < k - 1 {
                assert(0 <= j < k - 1 && means(ids[j], i));
            }
        }
    }
}

/// The state of the world: the reference data with those who look after it,
/// the pilots online, the indexes that find all of them by place, and what is
/// measured on the way.
pub struct Manager {
    fixed: FixedData,
    pilots: Table<Pilot>,
    pilots2d: SpatialIndex,
    airports2d: SpatialIndex,
    firs2d: SpatialIndex,
    metrics: Metrics,
    /// The controllers of the snapshot that was processed last, each
    /// callsign once.
    controllers: Vec<Controller>,
    /// When the snapshot that was processed last was published, in
    /// milliseconds since the Unix epoch.
    data_updated_at: i64,
    /// How many snapshots are to come before the next cleanup.
    cleanup: u8,
}

impl Manager {
    pub closed spec fn spec_fixed(&self) -> FixedData {
        self.fixed
    }

    pub closed spec fn spec_pilots(&self) -> Table<Pilot> {
        self.pilots
    }

    pub closed spec fn spec_pilots2d(&self) -> SpatialIndex {
        self.pilots2d
    }

    pub closed spec fn spec_airports2d(&self) -> SpatialIndex {
        self.airports2d
    }

    pub closed spec fn spec_firs2d(&self) -> SpatialIndex {
        self.firs2d
    }

    pub closed spec fn spec_metrics(&self) -> Metrics {
        self.metrics
    }

    pub closed spec fn spec_controllers(&self) -> Seq<ControllerView> {
        views(self.controllers@)
    }

    pub closed spec fn spec_updated_at(&self) -> i64 {
        self.data_updated_at
    }

    pub closed spec fn spec_cleanup(&self) -> u8 {
        self.cleanup
    }

    /// The pilot with the callsign `callsign`.
    pub open spec fn spec_pilot(&self, callsign: Seq<char>) -> Option<PilotView> {
        match self.spec_pilots().spec_get(callsign) {
            Some(p) => Some(p@),
            None => None,
        }
    }

    /// The pilots go by their callsigns, and the index holds a pilot where
    /// the pilot is: what is in the one is in the other.
    pub open spec fn wf(&self) -> bool {
        &&& self.spec_fixed().wf()
        &&& self.spec_pilots().wf()
        &&& self.spec_pilots2d().wf()
        &&& self.spec_airports2d().wf()
        &&& self.spec_firs2d().wf()
        &&& self.spec_metrics().wf()
        &&& !self.spec_metrics().vatsim_objects_online.spec_single()
        &&& 1 <= self.spec_cleanup() <= CLEANUP_EVERY_X_ITER
        &&& forall|i: int|
            0 <= i < self.spec_pilots().spec_keys().len() ==> #[trigger] self.spec_pilots().spec_keys()[i]
                == self.spec_pilots().spec_values()[i]@.callsign
        &&& forall|c: Seq<char>| #[trigger]
            self.spec_pilots2d().spec_box(c) == match self.spec_pilots().spec_get(c) {
                Some(p) => box_of(p.position),
                None => None,
            }
    }

    /// No two of the pilots online go by one callsign.
    pub proof fn lemma_pilots_distinct(&self)
        requires
            self.wf(),
        ensures
            distinct::<Pilot>(views(self.spec_pilots().spec_values())),
    {
        self.spec_pilots().lemma_wf();
        let keys = self.spec_pilots().spec_keys();
        let pilots = views(self.spec_pilots().spec_values());
        assert forall|i: int, j: int| 0 <= i < j < pilots.len() implies (#[trigger] pilots[i]).callsign
            != (#[trigger] pilots[j]).callsign by {
            assert(keys[i] == self.spec_pilots().spec_values()[i]@.callsign);
            assert(keys[j] == self.spec_pilots().spec_values()[j]@.callsign);
            assert(keys[i] != keys[j]);
        }
    }

    /// A manager that knows nothing yet, started at `now`, in milliseconds
    /// since the Unix epoch.
    pub fn new(now: i64) -> (r: Self)
        ensures
            r.wf(),
            r.spec_pilots().spec_keys().len() == 0,
            r.spec_controllers().len() == 0,
            r.spec_updated_at() == 0,
            r.spec_cleanup() == CLEANUP_EVERY_X_ITER,
            r.spec_fixed().spec_countries().len() == 0,
            r.spec_fixed().spec_airports().len() == 0,
            r.spec_fixed().spec_firs().len() == 0,
            r.spec_fixed().spec_uirs().len() == 0,
            r.spec_fixed().spec_geonames().spec_countries().len() == 0,
            r.spec_fixed().spec_geonames().spec_shapes().len() == 0,
            forall|c: Seq<char>| #[trigger] r.spec_pilots2d().spec_box(c) is None,
            forall|c: Seq<char>| #[trigger] r.spec_airports2d().spec_box(c) is None,
            forall|c: Seq<char>| #[trigger] r.spec_firs2d().spec_box(c) is None,
            r.spec_metrics().fresh(now),
    {
        let r = Manager {
            fixed: FixedData::empty(),
            pilots: Table::new(),
            pilots2d: SpatialIndex::new(),
            airports2d: SpatialIndex::new(),
            firs2d: SpatialIndex::new(),
            metrics: Metrics::new(now),
            controllers: Vec::new(),
            data_updated_at: 0,
            cleanup: CLEANUP_EVERY_X_ITER,
        };
        proof {
            assert forall|c: Seq<char>| #[trigger]
                r.spec_pilots2d().spec_box(c) == match r.spec_pilots().spec_get(c) {
                    Some(p) => box_of(p.position),
                    None => None,
                } by {
                lemma_key_index_bounds(r.spec_pilots().spec_keys(), c);
            }
        }
        r
    }

    /// The text of all metrics at `now`, in milliseconds since the Unix
    /// epoch.
    pub fn render_metrics(&self, now: i64) -> (s: String)
        requires
            self.wf(),
        ensures
            s@ == self.spec_metrics().vatsim_objects_online.spec_text()
                + self.spec_metrics().database_objects_count.spec_text()
                + self.spec_metrics().database_objects_count_fetch_time_sec.spec_text()
                + self.spec_metrics().spec_age(now)
                + self.spec_metrics().vatsim_data_load_time_sec.spec_text()
                + self.spec_metrics().db_cleanup_time_sec.spec_text()
                + self.spec_metrics().spec_uptime(now),
    {
        self.metrics.render(now)
    }

    /// A copy of what is measured.
    pub fn get_metrics_clone(&self) -> (m: Metrics)
        requires
            self.wf(),
        ensures
            m.wf(),
            m.alike(&self.spec_metrics()),
    {
        self.metrics.copy()
    }

    pub fn metrics(&self) -> (m: &Metrics)
        ensures
            *m == self.spec_metrics(),
    {
        &self.metrics
    }

    pub fn fixed(&self) -> (f: &FixedData)
        ensures
            *f == self.spec_fixed(),
    {
        &self.fixed
    }

    /// All pilots that are online.
    pub fn get_all_pilots(&self) -> (r: Vec<Pilot>)
        requires
            self.wf(),
        ensures
            views(r@) == views(self.spec_pilots().spec_values()),
    {
        let mut r: Vec<Pilot> = Vec::new();
        let n: usize = self.pilots.len();
        let mut i: usize = 0;
        while i < n
            invariant
                i <= n == self.spec_pilots().spec_values().len(),
                self.wf(),
                r@.len() == i,
                forall|k: int|
                    0 <= k < i ==> (#[trigger] r@[k])@ == self.spec_pilots().spec_values()[k]@,
            decreases n - i,
        {
            r.push(self.pilots.value_at(i).clone());
            i += 1;
        }
        assert(views(r@) =~= views(self.spec_pilots().spec_values()));
        r
    }

    /// All airports that a viewer is shown.
    pub fn get_all_airports(&self, show_uncontrolled_wx: bool) -> (r: Vec<Airport>)
        ensures
            views(r@) == airports_shown(
                self.spec_fixed().spec_airports(),
                show_uncontrolled_wx,
                self.spec_fixed().spec_airports().len() as int,
            ),
    {
        let all = self.fixed.airports();
        let mut r: Vec<Airport> = Vec::new();
        let mut i: usize = 0;
        assert(views(r@) =~= Seq::<AirportView>::empty());
        while i < all.len()
            invariant
                i <= all.len(),
                views(all@) == self.spec_fixed().spec_airports(),
                views(r@) == airports_shown(views(all@), show_uncontrolled_wx, i as int),
            decreases all.len() - i,
        {
            let ghost before = views(r@);
            assert(views(all@)[i as int] == all@[i as int]@);
            let arpt = &all[i];
            if !arpt.controllers.is_empty() || (show_uncontrolled_wx && arpt.wx.is_some()) {
                r.push(arpt.clone());
                assert(views(r@) =~= before.push(all@[i as int]@));
            }
            i += 1;
        }
        r
    }

    /// All regions that somebody looks after.
    pub fn get_all_firs(&self) -> (r: Vec<FIR>)
        ensures
            views(r@) == firs_staffed(
                self.spec_fixed().spec_firs(),
                self.spec_fixed().spec_firs().len() as int,
            ),
    {
        let all = self.fixed.firs();
        let mut r: Vec<FIR> = Vec::new();
        let mut i: usize = 0;
        assert(views(r@) =~= Seq::<FIRView>::empty());
        while i < all.len()
            invariant
                i <= all.len(),
                views(all@) == self.spec_fixed().spec_firs(),
                views(r@) == firs_staffed(views(all@), i as int),
            decreases all.len() - i,
        {
            let ghost before = views(r@);
            assert(views(all@)[i as int] == all@[i as int]@);
            if !all[i].is_empty() {
                r.push(all[i].clone());
                assert(views(r@) =~= before.push(all@[i as int]@));
            }
            i += 1;
        }
        r
    }

    pub fn find_airport(&self, code: &str) -> (r: Option<Airport>)
        ensures
            r is Some <==> crate::fixed::data::spec_airport_idx(
                self.spec_fixed().spec_airports(),
                code@,
            ) is Some,
            r is Some ==> r->0@
                == self.spec_fixed().spec_airports()[crate::fixed::data::spec_airport_idx(
                self.spec_fixed().spec_airports(),
                code@,
            )->0],
    {
        self.fixed.find_airport(code)
    }

    pub fn get_pilot_by_callsign(&self, callsign: &str) -> (r: Option<Pilot>)
        requires
            self.wf(),
        ensures
            r is Some <==> self.spec_pilot(callsign@) is Some,
            r is Some ==> r->0@ == self.spec_pilot(callsign@)->0,
    {
        match self.pilots.get(callsign) {
            Some(p) => Some(p.clone()),
            None => None,
        }
    }

    /// Forgets the pilot with the callsign `callsign`, and tells whether the
    /// index held it.
    pub fn remove_pilot(&mut self, callsign: &str) -> (removed: bool)
        requires
            old(self).wf(),
        ensures
            final(self).wf(),
            removed == old(self).spec_pilots2d().spec_box(callsign@) is Some,
            final(self).spec_pilot(callsign@) is None,
            forall|other: Seq<char>|
                other != callsign@ ==> final(self).spec_pilot(other) == old(self).spec_pilot(other),
            final(self).spec_fixed() == old(self).spec_fixed(),
            final(self).spec_metrics() == old(self).spec_metrics(),
            final(self).spec_airports2d() == old(self).spec_airports2d(),
            final(self).spec_firs2d() == old(self).spec_firs2d(),
            final(self).spec_updated_at() == old(self).spec_updated_at(),
            final(self).spec_cleanup() == old(self).spec_cleanup(),
            final(self).spec_controllers() == old(self).spec_controllers(),
            old(self).spec_pilot(callsign@) is Some ==> final(self).spec_pilots().spec_keys().len()
                == old(self).spec_pilots().spec_keys().len() - 1,
    {
        let ghost keys = self.pilots.spec_keys();
        let ghost values = self.pilots.spec_values();
        proof {
            self.pilots.lemma_wf();
        }
        let removed = self.pilots2d.remove(callsign);
        self.pilots.remove(callsign);
        proof {
            self.pilots.lemma_wf();
            lemma_key_index_bounds(keys, callsign@);
            assert forall|i: int|
                0 <= i < self.spec_pilots().spec_keys().len() implies #[trigger] self.spec_pilots().spec_keys()[i]
                == self.spec_pilots().spec_values()[i]@.callsign by {
                if key_index(keys, callsign@) is Some {
                    let k = key_index(keys, callsign@)->0;
                    let i2 = if i < k { i } else { i + 1 };
                    assert(keys[i2] == values[i2]@.callsign);
                }
            }
        }
        removed
    }

    /// Takes in where the pilot `pilot` is now, in place of what was known
    /// of a pilot with its callsign.
    pub fn put_pilot(&mut self, pilot: Pilot)
        requires
            old(self).wf(),
        ensures
            final(self).wf(),
            final(self).spec_pilot(pilot@.callsign) == Some(pilot@),
            forall|other: Seq<char>|
                other != pilot@.callsign ==> final(self).spec_pilot(other) == old(self).spec_pilot(
                    other,
                ),
            final(self).spec_fixed() == old(self).spec_fixed(),
            final(self).spec_metrics() == old(self).spec_metrics(),
            final(self).spec_airports2d() == old(self).spec_airports2d(),
            final(self).spec_firs2d() == old(self).spec_firs2d(),
            final(self).spec_updated_at() == old(self).spec_updated_at(),
            final(self).spec_cleanup() == old(self).spec_cleanup(),
            final(self).spec_controllers() == old(self).spec_controllers(),
    {
        let ghost keys = self.pilots.spec_keys();
        let ghost values = self.pilots.spec_values();
        let ghost callsign = pilot@.callsign;
        proof {
            self.pilots.lemma_wf();
        }
        let point = Envelope::from_point(pilot.position);
        if point.is_in_bounds() {
            self.pilots2d.insert(pilot.callsign.as_str(), point);
        } else {
            self.pilots2d.remove(pilot.callsign.as_str());
        }
        let key = pilot.callsign.clone();
        self.pilots.put(key, pilot);
        proof {
            self.pilots.lemma_wf();
            lemma_key_index_bounds(keys, callsign);
            assert forall|i: int|
                0 <= i < self.spec_pilots().spec_keys().len() implies #[trigger] self.spec_pilots().spec_keys()[i]
                == self.spec_pilots().spec_values()[i]@.callsign by {
                if i < keys.len() {
                    assert(keys[i] == values[i]@.callsign);
                }
            }
        }
    }
}


impl Manager {
    /// Whether a viewer with the viewport `rect` who follows the callsigns
    /// `subscribed` is shown the pilot with the callsign `callsign`: the
    /// pilot is in view, or the viewer follows it.
    pub open spec fn pilot_shown(
        &self,
        rect: Rect,
        subscribed: Seq<Seq<char>>,
        callsign: Seq<char>,
    ) -> bool {
        (self.spec_pilots2d().spec_box(callsign) is Some && in_view(
            rect,
            self.spec_pilots2d().spec_box(callsign)->0,
            false,
        )) || subscribed.contains(callsign)
    }

    /// The pilots that a viewer with the viewport `rect` is shown who
    /// follows the callsigns `subscribed_ids`, in the order in which the
    /// pilots came online.
    pub fn get_pilots(&self, rect: &Rect, subscribed_ids: &Vec<String>) -> (r: Vec<Pilot>)
        requires
            self.wf(),
        ensures
            views(r@) == selected(
                views(self.spec_pilots().spec_values()),
                Seq::new(
                    self.spec_pilots().spec_keys().len(),
                    |i: int|
                        self.pilot_shown(
                            *rect,
                            string_views(subscribed_ids@),
                            self.spec_pilots().spec_keys()[i],
                        ),
                ),
                self.spec_pilots().spec_keys().len() as int,
            ),
    {
        let n: usize = self.pilots.len();
        let ghost keys = self.spec_pilots().spec_keys();
        let ghost subs = string_views(subscribed_ids@);
        proof {
            self.pilots.lemma_wf();
        }
        let ids = crate::manager::ids_in_view(&self.pilots2d, rect, false);
        let ghost seen = string_views(ids@);
        let mut marks = no_marks(n);
        let mut j: usize = 0;
        while j < ids.len()
            invariant
                j <= ids.len(),
                self.wf(),
                n == keys.len(),
                keys == self.spec_pilots().spec_keys(),
                keys.no_duplicates(),
                seen == string_views(ids@),
                marks@.len() == n,
                forall|i: int|
                    0 <= i < n ==> (#[trigger] marks@[i] <==> seen.subrange(0, j as int).contains(
                        keys[i],
                    )),
            decreases ids.len() - j,
        {
            let ghost head = seen.subrange(0, j as int);
            let ghost next = seen.subrange(0, j + 1);
            let ghost id = ids@[j as int]@;
            assert(seen[j as int] == id);
            assert(next =~= head.push(id));
            let ghost before = marks@;
            match self.pilots.position(ids[j].as_str()) {
                Some(p) => {
                    marks[p] = true;
                },
                None => {},
            }
            proof {
                assert forall|i: int| 0 <= i < n implies (#[trigger] marks@[i] <==> next.contains(
                    keys[i],
                )) by {
                    assert(before[i] <==> head.contains(keys[i]));
                    if head.contains(keys[i]) {
                        let m = choose|m: int| 0 <= m < head.len() && head[m] == keys[i];
                        assert(next[m] == keys[i]);
                    }
                    if next.contains(keys[i]) && !head.contains(keys[i]) {
                        let m = choose|m: int| 0 <= m < next.len() && next[m] == keys[i];
                        if m < j {
                            assert(head[m] == keys[i]);
                        }
                        assert(keys[i] == id);
                        lemma_key_index(keys, id, i);
                    }
                    if keys[i] == id {
                        assert(next[j as int] == id);
                        lemma_key_index(keys, id, i);
                    }
                }
            }
            j += 1;
        }
        assert(seen.subrange(0, j as int) =~= seen);
        let ghost viewed = marks@;
        let mut s: usize = 0;
        while s < subscribed_ids.len()
            invariant
                s <= subscribed_ids.len(),
                self.wf(),
                n == keys.len(),
                keys == self.spec_pilots().spec_keys(),
                keys.no_duplicates(),
                subs == string_views(subscribed_ids@),
                marks@.len() == n,
                viewed.len() == n,
                forall|i: int|
                    0 <= i < n ==> (#[trigger] marks@[i] <==> (viewed[i] || subs.subrange(
                        0,
                        s as int,
                    ).contains(keys[i]))),
            decreases subscribed_ids.len() - s,
        {
            let ghost head = subs.subrange(0, s as int);
            let ghost next = subs.subrange(0, s + 1);
            let ghost id = subscribed_ids@[s as int]@;
            assert(subs[s as int] == id);
            assert(next =~= head.push(id));
            let ghost before = marks@;
            match self.pilots.position(subscribed_ids[s].as_str()) {
                Some(p) => {
                    marks[p] = true;
                },
                None => {},
            }
            proof {
                assert forall|i: int|
                    0 <= i < n implies (#[trigger] marks@[i] <==> (viewed[i] || next.contains(
                        keys[i],
                    ))) by {
                    assert(before[i] <==> (viewed[i] || head.contains(keys[i])));
                    if head.contains(keys[i]) {
                        let m = choose|m: int| 0 <= m < head.len() && head[m] == keys[i];
                        assert(next[m] == keys[i]);
                    }
                    if next.contains(keys[i]) && !head.contains(keys[i]) {
                        let m = choose|m: int| 0 <= m < next.len() && next[m] == keys[i];
                        if m < s {
                            assert(head[m] == keys[i]);
                        }
                        assert(keys[i] == id);
                        lemma_key_index(keys, id, i);
                    }
                    if keys[i] == id {
                        assert(next[s as int] == id);
                        lemma_key_index(keys, id, i);
                    }
                }
            }
            s += 1;
        }
        assert(subs.subrange(0, s as int) =~= subs);
        proof {
            let wanted = Seq::new(
                keys.len(),
                |i: int| self.pilot_shown(*rect, subs, self.spec_pilots().spec_keys()[i]),
            );
            assert forall|i: int| 0 <= i < n implies marks@[i] == wanted[i] by {
                assert(marks@[i] <==> (viewed[i] || subs.contains(keys[i])));
                assert(viewed[i] <==> seen.contains(keys[i]));
            }
            assert(marks@ =~= wanted);
        }
        let mut r: Vec<Pilot> = Vec::new();
        let mut i: usize = 0;
        assert(views(r@) =~= Seq::<PilotView>::empty());
        while i < n
            invariant
                i <= n == marks@.len(),
                self.wf(),
                n == self.spec_pilots().spec_values().len(),
                views(r@) == selected(
                    views(self.spec_pilots().spec_values()),
                    marks@,
                    i as int,
                ),
            decreases n - i,
        {
            let ghost before = views(r@);
            assert(views(self.spec_pilots().spec_values())[i as int]
                == self.spec_pilots().spec_values()[i as int]@);
            if marks[i] {
                r.push(self.pilots.value_at(i).clone());
                assert(views(r@) =~= before.push(self.spec_pilots().spec_values()[i as int]@));
            }
            i += 1;
        }
        r
    }

    /// Whether a name in view of `rect` in the index of airports means the
    /// airport with index `i`.
    pub open spec fn airport_in_view(&self, rect: Rect, i: int) -> bool {
        exists|c: Seq<char>|
            self.spec_airports2d().spec_box(c) is Some && in_view(
                rect,
                self.spec_airports2d().spec_box(c)->0,
                false,
            ) && #[trigger] airport_by_compound(
                self.spec_fixed().spec_airports(),
                c,
                self.spec_fixed().spec_airports().len() as int,
            ) == Some(i)
    }

    /// The airports in view of `rect` that a viewer is shown, in the order
    /// of the reference data.
    pub fn get_airports(&self, rect: &Rect, show_uncontrolled_wx: bool) -> (r: Vec<Airport>)
        requires
            self.wf(),
        ensures
            views(r@) == selected(
                self.spec_fixed().spec_airports(),
                Seq::new(
                    self.spec_fixed().spec_airports().len(),
                    |i: int|
                        airport_shown(self.spec_fixed().spec_airports()[i], show_uncontrolled_wx)
                            && self.airport_in_view(*rect, i),
                ),
                self.spec_fixed().spec_airports().len() as int,
            ),
    {
        let all = self.fixed.airports();
        let ghost airports = self.spec_fixed().spec_airports();
        let n: usize = all.len();
        let ids = crate::manager::ids_in_view(&self.airports2d, rect, false);
        let ghost seen = string_views(ids@);
        let ghost means = |c: Seq<char>, i: int|
            airport_by_compound(airports, c, airports.len() as int) == Some(i);
        let mut marks = no_marks(n);
        let mut j: usize = 0;
        while j < ids.len()
            invariant
                j <= ids.len(),
                n == airports.len(),
                airports == self.spec_fixed().spec_airports(),
                seen == string_views(ids@),
                means == |c: Seq<char>, i: int|
                    airport_by_compound(airports, c, airports.len() as int) == Some(i),
                marks@.len() == n,
                forall|i: int| 0 <= i < n ==> #[trigger] marks@[i] == meant_by(seen, j as int, means, i),
            decreases ids.len() - j,
        {
            assert(seen[j as int] == ids@[j as int]@);
            match self.fixed.find_airport_compound_idx(ids[j].as_str()) {
                Some(p) => {
                    marks[p] = true;
                },
                None => {},
            }
            j += 1;
        }
        let ghost reached = marks@;
        let mut i: usize = 0;
        while i < n
            invariant
                i <= n == all@.len(),
                views(all@) == airports,
                marks@.len() == n,
                reached.len() == n,
                forall|k: int| i <= k < n ==> #[trigger] marks@[k] == reached[k],
                forall|k: int|
                    0 <= k < i ==> #[trigger] marks@[k] == (reached[k] && airport_shown(
                        airports[k],
                        show_uncontrolled_wx,
                    )),
            decreases n - i,
        {
            assert(airports[i as int] == all@[i as int]@);
            let shown = !all[i].controllers.is_empty() || (show_uncontrolled_wx
                && all[i].wx.is_some());
            if !shown {
                marks[i] = false;
            }
            i += 1;
        }
        proof {
            let wanted = Seq::new(
                airports.len(),
                |i: int|
                    airport_shown(self.spec_fixed().spec_airports()[i], show_uncontrolled_wx)
                        && self.airport_in_view(*rect, i),
            );
            assert forall|i: int| 0 <= i < n implies marks@[i] == wanted[i] by {
                lemma_meant_by(seen, seen.len() as int, means, i);
                if reached[i] {
                    let j = choose|j: int| 0 <= j < seen.len() && means(#[trigger] seen[j], i);
                    assert(seen.contains(seen[j]));
                    assert(airport_by_compound(airports, seen[j], airports.len() as int) == Some(
                        i,
                    ));
                }
                if self.airport_in_view(*rect, i) {
                    let c = choose|c: Seq<char>|
                        self.spec_airports2d().spec_box(c) is Some && in_view(
                            *rect,
                            self.spec_airports2d().spec_box(c)->0,
                            false,
                        ) && #[trigger] airport_by_compound(
                            airports,
                            c,
                            airports.len() as int,
                        ) == Some(i);
                    assert(seen.contains(c));
                    let j = choose|j: int| 0 <= j < seen.len() && seen[j] == c;
                    assert(means(seen[j], i));
                }
            }
            assert(marks@ =~= wanted);
        }
        select(all, &marks)
    }

    /// Whether a name in the index of regions whose box `rect` touches means
    /// the region with index `i`.
    pub open spec fn fir_in_view(&self, rect: Rect, i: int) -> bool {
        exists|c: Seq<char>|
            self.spec_firs2d().spec_box(c) is Some && in_view(
                rect,
                self.spec_firs2d().spec_box(c)->0,
                true,
            ) && (#[trigger] self.spec_fixed().spec_lands().firs_of_code(c)).contains(i)
    }

    /// The regions in view of `rect` that somebody looks after, in the order
    /// of the reference data.
    pub fn get_firs(&self, rect: &Rect) -> (r: Vec<FIR>)
        requires
            self.wf(),
        ensures
            views(r@) == selected(
                self.spec_fixed().spec_firs(),
                Seq::new(
                    self.spec_fixed().spec_firs().len(),
                    |i: int|
                        !self.spec_fixed().spec_firs()[i].is_empty() && self.fir_in_view(*rect, i),
                ),
                self.spec_fixed().spec_firs().len() as int,
            ),
    {
        let all = self.fixed.firs();
        let ghost firs = self.spec_fixed().spec_firs();
        let ghost lands = self.spec_fixed().spec_lands();
        let n: usize = all.len();
        let ids = crate::manager::ids_in_view(&self.firs2d, rect, true);
        let ghost seen = string_views(ids@);
        let ghost means = |c: Seq<char>, i: int| lands.firs_of_code(c).contains(i);
        let mut marks = no_marks(n);
        let mut j: usize = 0;
        while j < ids.len()
            invariant
                j <= ids.len(),
                n == firs.len(),
                firs == self.spec_fixed().spec_firs(),
                lands == self.spec_fixed().spec_lands(),
                seen == string_views(ids@),
                means == |c: Seq<char>, i: int| lands.firs_of_code(c).contains(i),
                marks@.len() == n,
                forall|i: int| 0 <= i < n ==> #[trigger] marks@[i] == meant_by(seen, j as int, means, i),
            decreases ids.len() - j,
        {
            assert(seen[j as int] == ids@[j as int]@);
            let indices = self.fixed.find_fir_indices(ids[j].as_str());
            let ghost found = crate::fixed::data::index_views(indices@);
            let ghost start = marks@;
            let mut k: usize = 0;
            while k < indices.len()
                invariant
                    k <= indices.len(),
                    n == firs.len(),
                    found == crate::fixed::data::index_views(indices@),
                    forall|m: int| 0 <= m < indices@.len() ==> #[trigger] indices@[m] < n,
                    marks@.len() == n,
                    start.len() == n,
                    forall|i: int|
                        0 <= i < n ==> #[trigger] marks@[i] == (start[i] || found.subrange(
                            0,
                            k as int,
                        ).contains(i)),
                decreases indices.len() - k,
            {
                let ghost head = found.subrange(0, k as int);
                let ghost next = found.subrange(0, k + 1);
                let idx: usize = indices[k];
                assert(found[k as int] == idx);
                assert(next =~= head.push(idx as int));
                let ghost before = marks@;
                marks[idx] = true;
                proof {
                    assert forall|i: int| 0 <= i < n implies #[trigger] marks@[i] == (start[i]
                        || next.contains(i)) by {
                        assert(before[i] == (start[i] || head.contains(i)));
                        if head.contains(i) {
                            let m = choose|m: int| 0 <= m < head.len() && head[m] == i;
                            assert(next[m] == i);
                        }
                        if next.contains(i) && !head.contains(i) {
                            let m = choose|m: int| 0 <= m < next.len() && next[m] == i;
                            if m < k {
                                assert(head[m] == i);
                            }
                        }
                        if i == idx {
                            assert(next[k as int] == i);
                        }
                    }
                }
                k += 1;
            }
            assert(found.subrange(0, k as int) =~= found);
            j += 1;
        }
        let ghost reached = marks@;
        let mut i: usize = 0;
        while i < n
            invariant
                i <= n == all@.len(),
                views(all@) == firs,
                marks@.len() == n,
                reached.len() == n,
                forall|k: int| i <= k < n ==> #[trigger] marks@[k] == reached[k],
                forall|k: int|
                    0 <= k < i ==> #[trigger] marks@[k] == (reached[k] && !firs[k].is_empty()),
            decreases n - i,
        {
            assert(firs[i as int] == all@[i as int]@);
            if all[i].is_empty() {
                marks[i] = false;
            }
            i += 1;
        }
        proof {
            let wanted = Seq::new(
                firs.len(),
                |i: int|
                    !self.spec_fixed().spec_firs()[i].is_empty() && self.fir_in_view(*rect, i),
            );
            assert forall|i: int| 0 <= i < n implies marks@[i] == wanted[i] by {
                lemma_meant_by(seen, seen.len() as int, means, i);
                if reached[i] {
                    let j = choose|j: int| 0 <= j < seen.len() && means(#[trigger] seen[j], i);
                    assert(seen.contains(seen[j]));
                    assert(lands.firs_of_code(seen[j]).contains(i));
                }
                if self.fir_in_view(*rect, i) {
                    let c = choose|c: Seq<char>|
                        self.spec_firs2d().spec_box(c) is Some && in_view(
                            *rect,
                            self.spec_firs2d().spec_box(c)->0,
                            true,
                        ) && (#[trigger] lands.firs_of_code(c)).contains(i);
                    assert(seen.contains(c));
                    let j = choose|j: int| 0 <= j < seen.len() && seen[j] == c;
                    assert(means(seen[j], i));
                }
            }
            assert(marks@ =~= wanted);
        }
        select(all, &marks)
    }
}


/// The box that a region with the corners `min` and `max` has in the index,
/// where it lies within the limits of the index.
pub open spec fn region_box(min: Point, max: Point) -> Option<Envelope> {
    if Envelope::spec_from_corners(min, max).in_bounds() {
        Some(Envelope::spec_from_corners(min, max))
    } else {
        None
    }
}

/// How many of the first `n` pilots are over each country, the countries
/// in the order in which a pilot was first met over them. A pilot over no
/// country that is known is not counted.
pub open spec fn pilot_tally(pilots: Seq<PilotView>, geonames: Geonames, n: int) -> Seq<
    (Seq<char>, usize),
>
    decreases n,
{
    if n <= 0 || n > pilots.len() {
        Seq::empty()
    } else {
        match geonames.spec_country_by_position(pilots[n - 1].position) {
            Some(c) => counted(pilot_tally(pilots, geonames, n - 1), c.geoname_id),
            None => pilot_tally(pilots, geonames, n - 1),
        }
    }
}

impl Manager {
    /// Takes in the reference data and puts its airports and regions into
    /// the indexes, each under its name: an airport under its compound
    /// identifier at its position, a region under its code with the box of
    /// its outline. Where several go by one name, the last one counts.
    pub fn setup_fixed_data(&mut self, fixed: FixedData)
        requires
            old(self).wf(),
            fixed.wf(),
        ensures
            final(self).wf(),
            final(self).spec_fixed() == fixed,
            final(self).spec_pilots() == old(self).spec_pilots(),
            final(self).spec_pilots2d() == old(self).spec_pilots2d(),
            final(self).spec_metrics() == old(self).spec_metrics(),
            final(self).spec_updated_at() == old(self).spec_updated_at(),
            final(self).spec_cleanup() == old(self).spec_cleanup(),
            final(self).spec_controllers() == old(self).spec_controllers(),
            forall|c: Seq<char>| #[trigger]
                final(self).spec_airports2d().spec_box(c) == match airport_by_compound(
                    fixed.spec_airports(),
                    c,
                    fixed.spec_airports().len() as int,
                ) {
                    Some(i) => box_of(fixed.spec_airports()[i].position),
                    None => old(self).spec_airports2d().spec_box(c),
                },
            forall|c: Seq<char>| #[trigger]
                final(self).spec_firs2d().spec_box(c) == match crate::fixed::data::fir_by_icao(
                    fixed.spec_firs(),
                    c,
                    fixed.spec_firs().len() as int,
                ) {
                    Some(i) => region_box(
                        fixed.spec_firs()[i].boundaries.min,
                        fixed.spec_firs()[i].boundaries.max,
                    ),
                    None => old(self).spec_firs2d().spec_box(c),
                },
    {
        let airports = fixed.airports();
        let ghost av = fixed.spec_airports();
        let mut i: usize = 0;
        while i < airports.len()
            invariant
                i <= airports.len(),
                views(airports@) == av,
                self.wf(),
                self.spec_fixed() == old(self).spec_fixed(),
                self.spec_pilots() == old(self).spec_pilots(),
                self.spec_pilots2d() == old(self).spec_pilots2d(),
                self.spec_firs2d() == old(self).spec_firs2d(),
                self.spec_metrics() == old(self).spec_metrics(),
                self.spec_updated_at() == old(self).spec_updated_at(),
                self.spec_cleanup() == old(self).spec_cleanup(),
                self.spec_controllers() == old(self).spec_controllers(),
                forall|c: Seq<char>| #[trigger]
                    self.spec_airports2d().spec_box(c) == match airport_by_compound(av, c, i as int) {
                        Some(k) => box_of(av[k].position),
                        None => old(self).spec_airports2d().spec_box(c),
                    },
            decreases airports.len() - i,
        {
            assert(av[i as int] == airports@[i as int]@);
            let id = airports[i].compound_id();
            let point = Envelope::from_point(airports[i].position);
            if point.is_in_bounds() {
                self.airports2d.insert(id.as_str(), point);
            } else {
                self.airports2d.remove(id.as_str());
            }
            i += 1;
        }
        let firs = fixed.firs();
        let ghost fv = fixed.spec_firs();
        let mut j: usize = 0;
        while j < firs.len()
            invariant
                j <= firs.len(),
                views(firs@) == fv,
                self.wf(),
                self.spec_fixed() == old(self).spec_fixed(),
                self.spec_pilots() == old(self).spec_pilots(),
                self.spec_pilots2d() == old(self).spec_pilots2d(),
                self.spec_metrics() == old(self).spec_metrics(),
                self.spec_updated_at() == old(self).spec_updated_at(),
                self.spec_cleanup() == old(self).spec_cleanup(),
                self.spec_controllers() == old(self).spec_controllers(),
                forall|c: Seq<char>| #[trigger]
                    self.spec_airports2d().spec_box(c) == match airport_by_compound(
                        av,
                        c,
                        av.len() as int,
                    ) {
                        Some(k) => box_of(av[k].position),
                        None => old(self).spec_airports2d().spec_box(c),
                    },
                forall|c: Seq<char>| #[trigger]
                    self.spec_firs2d().spec_box(c) == match crate::fixed::data::fir_by_icao(
                        fv,
                        c,
                        j as int,
                    ) {
                        Some(k) => region_box(fv[k].boundaries.min, fv[k].boundaries.max),
                        None => old(self).spec_firs2d().spec_box(c),
                    },
            decreases firs.len() - j,
        {
            assert(fv[j as int] == firs@[j as int]@);
            let around = Envelope::from_corners(firs[j].boundaries.min, firs[j].boundaries.max);
            if around.is_in_bounds() {
                self.firs2d.insert(firs[j].icao.as_str(), around);
            } else {
                self.firs2d.remove(firs[j].icao.as_str());
            }
            j += 1;
        }
        self.fixed.fill(fixed);
    }

    /// Forgets all pilots.
    fn clear_pilots(&mut self)
        requires
            old(self).wf(),
        ensures
            final(self).wf(),
            forall|c: Seq<char>| final(self).spec_pilot(c) is None,
            final(self).spec_fixed() == old(self).spec_fixed(),
            final(self).spec_metrics() == old(self).spec_metrics(),
            final(self).spec_airports2d() == old(self).spec_airports2d(),
            final(self).spec_firs2d() == old(self).spec_firs2d(),
            final(self).spec_updated_at() == old(self).spec_updated_at(),
            final(self).spec_cleanup() == old(self).spec_cleanup(),
            final(self).spec_controllers() == old(self).spec_controllers(),
    {
        loop
            invariant_except_break
                self.wf(),
                self.spec_fixed() == old(self).spec_fixed(),
                self.spec_metrics() == old(self).spec_metrics(),
                self.spec_airports2d() == old(self).spec_airports2d(),
                self.spec_firs2d() == old(self).spec_firs2d(),
                self.spec_updated_at() == old(self).spec_updated_at(),
                self.spec_cleanup() == old(self).spec_cleanup(),
                self.spec_controllers() == old(self).spec_controllers(),
            ensures
                self.wf(),
                self.spec_pilots().spec_keys().len() == 0,
                self.spec_fixed() == old(self).spec_fixed(),
                self.spec_metrics() == old(self).spec_metrics(),
                self.spec_airports2d() == old(self).spec_airports2d(),
                self.spec_firs2d() == old(self).spec_firs2d(),
                self.spec_updated_at() == old(self).spec_updated_at(),
                self.spec_cleanup() == old(self).spec_cleanup(),
                self.spec_controllers() == old(self).spec_controllers(),
            decreases self.spec_pilots().spec_keys().len(),
        {
            if self.pilots.len() == 0 {
                break ;
            }
            let key = self.pilots.key_at(0).clone();
            proof {
                self.pilots.lemma_wf();
                lemma_key_index(self.spec_pilots().spec_keys(), key@, 0);
            }
            self.remove_pilot(key.as_str());
        }
        proof {
            assert forall|c: Seq<char>| self.spec_pilot(c) is None by {
                lemma_key_index_bounds(self.spec_pilots().spec_keys(), c);
            }
        }
    }

    /// Takes in the pilots of a snapshot in place of all pilots known: of
    /// several pilots with one callsign the last one counts. What comes
    /// back tells for each country how many of the pilots are over it.
    pub fn process_pilots(&mut self, pilots: &Vec<Pilot>) -> (groups: Counter)
        requires
            old(self).wf(),
        ensures
            final(self).wf(),
            forall|c: Seq<char>| #[trigger]
                final(self).spec_pilot(c) == pilot_named(views(pilots@), c, pilots@.len() as int),
            groups.wf(),
            groups.spec_tally() == pilot_tally(
                views(pilots@),
                old(self).spec_fixed().spec_geonames(),
                pilots@.len() as int,
            ),
            final(self).spec_fixed() == old(self).spec_fixed(),
            final(self).spec_metrics() == old(self).spec_metrics(),
            final(self).spec_airports2d() == old(self).spec_airports2d(),
            final(self).spec_firs2d() == old(self).spec_firs2d(),
            final(self).spec_updated_at() == old(self).spec_updated_at(),
            final(self).spec_cleanup() == old(self).spec_cleanup(),
            final(self).spec_controllers() == old(self).spec_controllers(),
    {
        self.clear_pilots();
        let ghost all = views(pilots@);
        let ghost geonames = self.spec_fixed().spec_geonames();
        let mut groups = Counter::new();
        let mut i: usize = 0;
        while i < pilots.len()
            invariant
                i <= pilots.len(),
                all == views(pilots@),
                self.wf(),
                groups.wf(),
                geonames == self.spec_fixed().spec_geonames(),
                forall|c: Seq<char>| #[trigger] self.spec_pilot(c) == pilot_named(all, c, i as int),
                groups.spec_tally() == pilot_tally(all, geonames, i as int),
                self.spec_fixed() == old(self).spec_fixed(),
                self.spec_metrics() == old(self).spec_metrics(),
                self.spec_airports2d() == old(self).spec_airports2d(),
                self.spec_firs2d() == old(self).spec_firs2d(),
                self.spec_updated_at() == old(self).spec_updated_at(),
                self.spec_cleanup() == old(self).spec_cleanup(),
                self.spec_controllers() == old(self).spec_controllers(),
            decreases pilots.len() - i,
        {
            assert(all[i as int] == pilots@[i as int]@);
            let pilot = pilots[i].clone();
            let country = self.fixed.get_geonames_country_by_position(pilot.position);
            self.put_pilot(pilot);
            match country {
                Some(c) => {
                    groups.inc(c.geoname_id.as_str());
                },
                None => {},
            }
            i += 1;
        }
        groups
    }
}


/// `list`, with `text` behind it unless it is in it already.
pub open spec fn with_text(list: Seq<Seq<char>>, text: Seq<char>) -> Seq<Seq<char>> {
    if list.contains(text) {
        list
    } else {
        list.push(text)
    }
}

/// What has come of the controllers of a snapshot.
pub struct Staffing {
    /// The airports and regions with their controllers.
    pub lands: Lands,
    /// The codes of the airports that have a controller of this snapshot,
    /// each once.
    pub controlled: Seq<Seq<char>>,
    /// The controllers of this snapshot, each callsign once.
    pub online: Seq<ControllerView>,
    /// How many controllers were taken in.
    pub count: nat,
    /// How many controllers are in each group, the groups in the order in
    /// which they were first met.
    pub groups: Seq<(Seq<char>, usize)>,
}

/// What has come of the first `n` controllers of a snapshot that met the
/// lands `start`. A controller that is rejected is passed over.
pub open spec fn staffed(start: Lands, ctrls: Seq<ControllerView>, n: int) -> Staffing
    decreases n,
{
    if n <= 0 || n > ctrls.len() {
        Staffing {
            lands: start,
            controlled: Seq::empty(),
            online: Seq::empty(),
            count: 0,
            groups: Seq::empty(),
        }
    } else {
        let before = staffed(start, ctrls, n - 1);
        let c = ctrls[n - 1];
        if c.facility == Facility::Reject {
            before
        } else {
            let after = before.lands.with_controller(c);
            Staffing {
                lands: after,
                controlled: match airport_of(before.lands, c) {
                    Some(i) => with_text(before.controlled, after.airports[i].icao),
                    None => before.controlled,
                },
                online: controllers_with(before.online, c),
                count: before.count + 1,
                groups: match group_key(before.lands, after, c) {
                    Some(key) => counted(before.groups, key),
                    None => before.groups,
                },
            }
        }
    }
}

/// The airport that the controller `c` looks after, if it is a controller
/// of an airport that is known.
pub open spec fn airport_of(lands: Lands, c: ControllerView) -> Option<int> {
    if c.facility.at_airport() {
        spec_airport_idx(lands.airports, first_token(c.callsign))
    } else {
        None
    }
}

/// The group that a controller is counted in: the country of its airport
/// and its facility, or the country of the last of its regions and
/// `radar`. A controller whose place or country is not known is in no
/// group.
pub open spec fn group_key(before: Lands, after: Lands, c: ControllerView) -> Option<Seq<char>> {
    match c.facility {
        Facility::Reject => None,
        Facility::Radar => if before.firs_of(c.callsign).len() > 0 {
            match after.firs[before.firs_of(c.callsign).last()].country {
                Some(country) => Some(country.geoname_id + ":radar"@),
                None => None,
            }
        } else {
            None
        },
        _ => match airport_of(before, c) {
            Some(i) => match after.airports[i].country {
                Some(country) => Some(country.geoname_id + ":"@ + c.facility.spec_label()),
                None => None,
            },
            None => None,
        },
    }
}

/// No more of the first `n` controllers are counted than there are.
pub proof fn lemma_staffed_count(start: Lands, ctrls: Seq<ControllerView>, n: int)
    requires
        0 <= n <= ctrls.len(),
    ensures
        staffed(start, ctrls, n).count <= n,
    decreases n,
{
    if n > 0 {
        lemma_staffed_count(start, ctrls, n - 1);
    }
}

/// The lands after those of the first `n` controllers of the last snapshot
/// have left that are not online any more.
pub open spec fn retired(
    lands: Lands,
    previous: Seq<ControllerView>,
    online: Seq<ControllerView>,
    n: int,
) -> Lands
    decreases n,
{
    if n <= 0 || n > previous.len() {
        lands
    } else {
        let before = retired(lands, previous, online, n - 1);
        if controller_at(online, previous[n - 1].callsign, online.len() as int) is None {
            before.without_controller(previous[n - 1])
        } else {
            before
        }
    }
}

/// What is handed back for the controllers of a snapshot.
pub struct Staffed {
    /// The codes of the airports that have a controller, each once.
    pub controlled: Vec<String>,
    /// How many controllers are in each group.
    pub groups: Counter,
    /// How many controllers were taken in.
    pub count: usize,
}

fn find_controller(list: &Vec<Controller>, callsign: &String) -> (r: Option<usize>)
    ensures
        r is Some <==> controller_at(views(list@), callsign@, list@.len() as int) is Some,
        r is Some ==> r->0 < list@.len() && r->0 == controller_at(
            views(list@),
            callsign@,
            list@.len() as int,
        )->0,
{
    let mut n: usize = list.len();
    while n > 0
        invariant
            n <= list@.len(),
            controller_at(views(list@), callsign@, list@.len() as int) == controller_at(
                views(list@),
                callsign@,
                n as int,
            ),
        decreases n,
    {
        assert(views(list@)[n - 1] == list@[n - 1]@);
        if list[n - 1].callsign == *callsign {
            return Some(n - 1);
        }
        n -= 1;
    }
    None
}

impl Manager {
    /// Notes the weather `wx` at the airport that `icao` means, if there is
    /// such an airport. Nothing else changes.
    pub fn set_airport_weather(&mut self, icao: &str, wx: WeatherInfo)
        requires
            old(self).wf(),
        ensures
            final(self).wf(),
            final(self).spec_fixed().same_frame(&old(self).spec_fixed()),
            final(self).spec_fixed().spec_firs() == old(self).spec_fixed().spec_firs(),
            final(self).spec_fixed().spec_airports() == match spec_airport_idx(
                old(self).spec_fixed().spec_airports(),
                icao@,
            ) {
                Some(i) => old(self).spec_fixed().spec_airports().update(
                    i,
                    AirportView { wx: Some(wx@), ..old(self).spec_fixed().spec_airports()[i] },
                ),
                None => old(self).spec_fixed().spec_airports(),
            },
            final(self).spec_pilots() == old(self).spec_pilots(),
            final(self).spec_pilots2d() == old(self).spec_pilots2d(),
            final(self).spec_airports2d() == old(self).spec_airports2d(),
            final(self).spec_firs2d() == old(self).spec_firs2d(),
            final(self).spec_metrics() == old(self).spec_metrics(),
            final(self).spec_controllers() == old(self).spec_controllers(),
            final(self).spec_updated_at() == old(self).spec_updated_at(),
            final(self).spec_cleanup() == old(self).spec_cleanup(),
    {
        self.fixed.set_airport_weather(icao, wx);
    }

    /// Takes in the controllers of a snapshot. Each comes to look after
    /// the airport or the regions that its callsign means; those of the
    /// last snapshot that are not among them leave.
    pub fn process_controllers(&mut self, controllers: &Vec<Controller>) -> (r: Staffed)
        requires
            old(self).wf(),
        ensures
            final(self).wf(),
            final(self).spec_fixed().spec_lands() == retired(
                staffed(
                    old(self).spec_fixed().spec_lands(),
                    views(controllers@),
                    controllers@.len() as int,
                ).lands,
                old(self).spec_controllers(),
                staffed(
                    old(self).spec_fixed().spec_lands(),
                    views(controllers@),
                    controllers@.len() as int,
                ).online,
                old(self).spec_controllers().len() as int,
            ),
            final(self).spec_controllers() == staffed(
                old(self).spec_fixed().spec_lands(),
                views(controllers@),
                controllers@.len() as int,
            ).online,
            string_views(r.controlled@) == staffed(
                old(self).spec_fixed().spec_lands(),
                views(controllers@),
                controllers@.len() as int,
            ).controlled,
            r.count == staffed(
                old(self).spec_fixed().spec_lands(),
                views(controllers@),
                controllers@.len() as int,
            ).count,
            r.groups.wf(),
            r.groups.spec_tally() == staffed(
                old(self).spec_fixed().spec_lands(),
                views(controllers@),
                controllers@.len() as int,
            ).groups,
            final(self).spec_fixed().spec_geonames() == old(self).spec_fixed().spec_geonames(),
            final(self).spec_pilots() == old(self).spec_pilots(),
            final(self).spec_pilots2d() == old(self).spec_pilots2d(),
            final(self).spec_airports2d() == old(self).spec_airports2d(),
            final(self).spec_firs2d() == old(self).spec_firs2d(),
            final(self).spec_metrics() == old(self).spec_metrics(),
            final(self).spec_updated_at() == old(self).spec_updated_at(),
            final(self).spec_cleanup() == old(self).spec_cleanup(),
    {
        let ghost start = self.spec_fixed().spec_lands();
        let ghost all = views(controllers@);
        let ghost previous = self.spec_controllers();
        let mut fresh: Vec<Controller> = Vec::new();
        let mut controlled: Vec<String> = Vec::new();
        let mut groups = Counter::new();
        let mut count: usize = 0;
        let mut i: usize = 0;
        assert(views(fresh@) =~= Seq::<ControllerView>::empty());
        assert(string_views(controlled@) =~= Seq::<Seq<char>>::empty());
        while i < controllers.len()
            invariant
                i <= controllers.len(),
                all == views(controllers@),
                self.spec_fixed().wf(),
                self.spec_pilots() == old(self).spec_pilots(),
                self.spec_pilots2d() == old(self).spec_pilots2d(),
                self.spec_airports2d() == old(self).spec_airports2d(),
                self.spec_firs2d() == old(self).spec_firs2d(),
                self.spec_metrics() == old(self).spec_metrics(),
                self.spec_updated_at() == old(self).spec_updated_at(),
                self.spec_cleanup() == old(self).spec_cleanup(),
                self.spec_controllers() == previous,
                self.spec_fixed().spec_geonames() == old(self).spec_fixed().spec_geonames(),
                self.spec_fixed().spec_lands() == staffed(start, all, i as int).lands,
                views(fresh@) == staffed(start, all, i as int).online,
                string_views(controlled@) == staffed(start, all, i as int).controlled,
                count == staffed(start, all, i as int).count,
                groups.wf(),
                groups.spec_tally() == staffed(start, all, i as int).groups,
            decreases controllers.len() - i,
        {
            assert(all[i as int] == controllers@[i as int]@);
            let ctrl = &controllers[i];
            let ghost before = self.spec_fixed().spec_lands();
            proof {
                lemma_staffed_count(start, all, i as int);
            }
            if ctrl.facility == Facility::Reject {
                i += 1;
                continue ;
            }
            {
                let ghost online = views(fresh@);
                match find_controller(&fresh, &ctrl.callsign) {
                    Some(k) => {
                        fresh[k] = ctrl.clone();
                        assert(views(fresh@) =~= online.update(k as int, ctrl@));
                    },
                    None => {
                        fresh.push(ctrl.clone());
                        assert(views(fresh@) =~= online.push(ctrl@));
                    },
                }
            }
            let facility = ctrl.facility;
            let (arpt, fir) = self.fixed.set_controller(ctrl.clone());
            let ghost after = self.spec_fixed().spec_lands();
            let mut key: Option<String> = None;
            match arpt {
                Some(arpt) => {
                    crate::text::add_text(&mut controlled, arpt.icao.as_str());
                    match &arpt.country {
                        Some(country) => {
                            let mut k = String::new();
                            crate::text::push_str(&mut k, country.geoname_id.as_str());
                            crate::text::push_str(&mut k, ":");
                            let label = facility.to_string();
                            crate::text::push_str(&mut k, label.as_str());
                            assert(k@ =~= country@.geoname_id + ":"@ + facility.spec_label());
                            key = Some(k);
                        },
                        None => {},
                    }
                },
                None => {},
            }
            match fir {
                Some(fir) => {
                    match &fir.country {
                        Some(country) => {
                            let mut k = String::new();
                            crate::text::push_str(&mut k, country.geoname_id.as_str());
                            crate::text::push_str(&mut k, ":radar");
                            assert(k@ =~= country@.geoname_id + ":radar"@);
                            key = Some(k);
                        },
                        None => {},
                    }
                },
                None => {},
            }
            assert(crate::text::opt_text(key) == group_key(before, after, ctrl@));
            match &key {
                Some(k) => {
                    groups.inc(k.as_str());
                },
                None => {},
            }
            count += 1;
            i += 1;
        }
        let ghost staffing = staffed(start, all, all.len() as int);
        let ghost mid = self.spec_fixed().spec_lands();
        let mut j: usize = 0;
        while j < self.controllers.len()
            invariant
                j <= self.controllers@.len(),
                self.spec_fixed().wf(),
                self.spec_pilots() == old(self).spec_pilots(),
                self.spec_pilots2d() == old(self).spec_pilots2d(),
                self.spec_airports2d() == old(self).spec_airports2d(),
                self.spec_firs2d() == old(self).spec_firs2d(),
                self.spec_metrics() == old(self).spec_metrics(),
                self.spec_updated_at() == old(self).spec_updated_at(),
                self.spec_cleanup() == old(self).spec_cleanup(),
                self.spec_controllers() == previous,
                self.spec_fixed().spec_geonames() == old(self).spec_fixed().spec_geonames(),
                views(fresh@) == staffing.online,
                self.spec_fixed().spec_lands() == retired(mid, previous, staffing.online, j as int),
            decreases self.controllers@.len() - j,
        {
            assert(previous[j as int] == self.controllers@[j as int]@);
            if find_controller(&fresh, &self.controllers[j].callsign).is_none() {
                let gone = self.controllers[j].clone();
                self.fixed.reset_controller(&gone);
            }
            j += 1;
        }
        self.controllers = fresh;
        Staffed { controlled, groups, count }
    }
}


/// `n` as a number with sign, held at the largest number of 64 bits.
pub open spec fn held_count(n: usize) -> i64 {
    if n > i64::MAX {
        i64::MAX
    } else {
        n as i64
    }
}

fn hold_count(n: usize) -> (r: i64)
    ensures
        r == held_count(n),
{
    if n as u128 > 0x7fff_ffff_ffff_ffff {
        0x7fff_ffff_ffff_ffff
    } else {
        n as i64
    }
}

/// The labels under which the pilots over the country `c` are counted.
pub open spec fn pilot_labels(c: GeonamesCountryView) -> Seq<(Seq<char>, Seq<char>)> {
    seq![
        ("object_type"@, "pilot"@),
        ("country_code"@, c.iso),
        ("continent_code"@, c.continent),
    ]
}

/// The labels under which the controllers of the facility `facility` in
/// the country `c` are counted.
pub open spec fn controller_labels(c: GeonamesCountryView, facility: Seq<char>) -> Seq<
    (Seq<char>, Seq<char>),
> {
    seq![
        ("object_type"@, "controller"@),
        ("controller_type"@, facility),
        ("country_code"@, c.iso),
        ("continent_code"@, c.continent),
    ]
}

/// The samples after the first `n` counts of pilots by country were set.
/// A country that the gazetteer does not know is passed over.
pub open spec fn online_pilots(
    samples: Seq<(Seq<char>, Sample)>,
    groups: Seq<(Seq<char>, usize)>,
    geonames: Geonames,
    n: int,
) -> Seq<(Seq<char>, Sample)>
    decreases n,
{
    if n <= 0 || n > groups.len() {
        samples
    } else {
        let before = online_pilots(samples, groups, geonames, n - 1);
        match geonames.spec_country_by_id(groups[n - 1].0) {
            Some(c) => with_sample(
                before,
                label_string(pilot_labels(c)),
                Sample::Whole(held_count(groups[n - 1].1)),
            ),
            None => before,
        }
    }
}

/// The samples after the first `n` counts of controllers by group were
/// set. The name of a group is the identifier of the country, a colon and
/// the facility.
pub open spec fn online_controllers(
    samples: Seq<(Seq<char>, Sample)>,
    groups: Seq<(Seq<char>, usize)>,
    geonames: Geonames,
    n: int,
) -> Seq<(Seq<char>, Sample)>
    decreases n,
{
    if n <= 0 || n > groups.len() {
        samples
    } else {
        let before = online_controllers(samples, groups, geonames, n - 1);
        let tokens = split_on(groups[n - 1].0, ':');
        if tokens.len() < 2 {
            before
        } else {
            match geonames.spec_country_by_id(tokens[0]) {
                Some(c) => with_sample(
                    before,
                    label_string(controller_labels(c, tokens[1])),
                    Sample::Whole(held_count(groups[n - 1].1)),
                ),
                None => before,
            }
        }
    }
}

fn pair(key: &str, value: &str) -> (p: (String, String))
    ensures
        p.0@ == key@,
        p.1@ == value@,
{
    (key.to_owned(), value.to_owned())
}

impl Manager {
    /// Whether all but the metrics is as in `other`.
    pub open spec fn same_world(&self, other: &Self) -> bool {
        &&& self.spec_fixed() == other.spec_fixed()
        &&& self.spec_pilots() == other.spec_pilots()
        &&& self.spec_pilots2d() == other.spec_pilots2d()
        &&& self.spec_airports2d() == other.spec_airports2d()
        &&& self.spec_firs2d() == other.spec_firs2d()
        &&& self.spec_controllers() == other.spec_controllers()
        &&& self.spec_updated_at() == other.spec_updated_at()
        &&& self.spec_cleanup() == other.spec_cleanup()
    }

    /// Whether the metrics are as in `other` but for the samples of the
    /// objects online.
    pub open spec fn same_gauges(&self, other: &Self) -> bool {
        &&& self.spec_metrics().vatsim_objects_online.titled_as(
            &other.spec_metrics().vatsim_objects_online,
        )
        &&& self.spec_metrics().database_objects_count == other.spec_metrics().database_objects_count
        &&& self.spec_metrics().database_objects_count_fetch_time_sec
            == other.spec_metrics().database_objects_count_fetch_time_sec
        &&& self.spec_metrics().vatsim_data_timestamp == other.spec_metrics().vatsim_data_timestamp
        &&& self.spec_metrics().vatsim_data_load_time_sec
            == other.spec_metrics().vatsim_data_load_time_sec
        &&& self.spec_metrics().processing_time_sec == other.spec_metrics().processing_time_sec
        &&& self.spec_metrics().db_cleanup_time_sec == other.spec_metrics().db_cleanup_time_sec
        &&& self.spec_metrics().process_started_at == other.spec_metrics().process_started_at
    }

    /// Notes how many pilots are over each country.
    pub fn record_pilots_online(&mut self, groups: &Counter)
        requires
            old(self).wf(),
            groups.wf(),
        ensures
            final(self).wf(),
            final(self).same_world(old(self)),
            final(self).same_gauges(old(self)),
            final(self).spec_metrics().vatsim_objects_online.spec_samples() == online_pilots(
                old(self).spec_metrics().vatsim_objects_online.spec_samples(),
                groups.spec_tally(),
                old(self).spec_fixed().spec_geonames(),
                groups.spec_tally().len() as int,
            ),
    {
        let ghost start = self.spec_metrics().vatsim_objects_online.spec_samples();
        let ghost geonames = self.spec_fixed().spec_geonames();
        let n: usize = groups.len();
        let mut i: usize = 0;
        while i < n
            invariant
                i <= n == groups.spec_keys().len(),
                groups.wf(),
                self.wf(),
                self.same_world(old(self)),
                self.same_gauges(old(self)),
                geonames == self.spec_fixed().spec_geonames(),
                self.spec_metrics().vatsim_objects_online.spec_samples() == online_pilots(
                    start,
                    groups.spec_tally(),
                    geonames,
                    i as int,
                ),
            decreases n - i,
        {
            match self.fixed.get_geonames_country_by_id(groups.key_at(i).as_str()) {
                Some(country) => {
                    let labels = vec![
                        pair("object_type", "pilot"),
                        pair("country_code", country.iso.as_str()),
                        pair("continent_code", country.continent.as_str()),
                    ];
                    assert(crate::manager::metrics::pair_views(labels@) =~= pilot_labels(country@));
                    self.metrics.vatsim_objects_online.set(
                        &labels,
                        Sample::Whole(hold_count(groups.count_at(i))),
                    );
                },
                None => {},
            }
            i += 1;
        }
    }

    /// Notes how many controllers are in each group.
    pub fn record_controllers_online(&mut self, groups: &Counter)
        requires
            old(self).wf(),
            groups.wf(),
        ensures
            final(self).wf(),
            final(self).same_world(old(self)),
            final(self).same_gauges(old(self)),
            final(self).spec_metrics().vatsim_objects_online.spec_samples() == online_controllers(
                old(self).spec_metrics().vatsim_objects_online.spec_samples(),
                groups.spec_tally(),
                old(self).spec_fixed().spec_geonames(),
                groups.spec_tally().len() as int,
            ),
    {
        let ghost start = self.spec_metrics().vatsim_objects_online.spec_samples();
        let ghost geonames = self.spec_fixed().spec_geonames();
        let n: usize = groups.len();
        let mut i: usize = 0;
        while i < n
            invariant
                i <= n == groups.spec_keys().len(),
                groups.wf(),
                self.wf(),
                self.same_world(old(self)),
                self.same_gauges(old(self)),
                geonames == self.spec_fixed().spec_geonames(),
                self.spec_metrics().vatsim_objects_online.spec_samples() == online_controllers(
                    start,
                    groups.spec_tally(),
                    geonames,
                    i as int,
                ),
            decreases n - i,
        {
            let tokens = crate::text::split(groups.key_at(i).as_str(), ':');
            if tokens.len() >= 2 {
                assert(string_views(tokens@)[0] == tokens@[0]@);
                assert(string_views(tokens@)[1] == tokens@[1]@);
                match self.fixed.get_geonames_country_by_id(tokens[0].as_str()) {
                    Some(country) => {
                        let labels = vec![
                            pair("object_type", "controller"),
                            pair("controller_type", tokens[1].as_str()),
                            pair("country_code", country.iso.as_str()),
                            pair("continent_code", country.continent.as_str()),
                        ];
                        assert(crate::manager::metrics::pair_views(labels@) =~= controller_labels(
                            country@,
                            tokens@[1]@,
                        ));
                        self.metrics.vatsim_objects_online.set(
                            &labels,
                            Sample::Whole(hold_count(groups.count_at(i))),
                        );
                    },
                    None => {},
                }
            }
            i += 1;
        }
    }

    /// Notes how long it took to load the snapshot, in millionths of a
    /// second.
    pub fn record_load_time(&mut self, elapsed: i64)
        requires
            old(self).wf(),
        ensures
            final(self).wf(),
            final(self).same_world(old(self)),
            final(self).spec_metrics().vatsim_data_load_time_sec.spec_samples() == seq![
                ("_"@, Sample::Fixed(elapsed)),
            ],
            final(self).spec_metrics().vatsim_data_load_time_sec.spec_single(),
            final(self).spec_metrics().vatsim_data_load_time_sec.titled_as(
                &old(self).spec_metrics().vatsim_data_load_time_sec,
            ),
            final(self).spec_metrics() == (Metrics {
                vatsim_data_load_time_sec: final(self).spec_metrics().vatsim_data_load_time_sec,
                ..old(self).spec_metrics()
            }),
    {
        self.metrics.vatsim_data_load_time_sec.set_single(Sample::Fixed(elapsed));
    }

    /// Notes how long it took to process the objects of the kind `kind`,
    /// in millionths of a second.
    pub fn record_processing_time(&mut self, kind: &str, elapsed: i64)
        requires
            old(self).wf(),
        ensures
            final(self).wf(),
            final(self).same_world(old(self)),
            final(self).spec_metrics().processing_time_sec.spec_samples() == with_sample(
                old(self).spec_metrics().processing_time_sec.spec_samples(),
                label_string(seq![("object_type"@, kind@)]),
                Sample::Fixed(elapsed),
            ),
            !final(self).spec_metrics().processing_time_sec.spec_single(),
            final(self).spec_metrics().processing_time_sec.titled_as(
                &old(self).spec_metrics().processing_time_sec,
            ),
            final(self).spec_metrics() == (Metrics {
                processing_time_sec: final(self).spec_metrics().processing_time_sec,
                ..old(self).spec_metrics()
            }),
    {
        let labels = vec![pair("object_type", kind)];
        assert(crate::manager::metrics::pair_views(labels@) =~= seq![("object_type"@, kind@)]);
        self.metrics.processing_time_sec.set(&labels, Sample::Fixed(elapsed));
    }

    /// Notes how many tracks and points of tracks are stored, and how long
    /// it took to count them, in millionths of a second.
    pub fn record_track_counters(&mut self, tracks: u64, points: u64, elapsed: i64)
        requires
            old(self).wf(),
        ensures
            final(self).wf(),
            final(self).same_world(old(self)),
            final(self).spec_metrics().database_objects_count.spec_samples() == with_sample(
                with_sample(
                    old(self).spec_metrics().database_objects_count.spec_samples(),
                    label_string(seq![("object_type"@, "track"@)]),
                    Sample::Whole(crate::manager::metrics::held_signed(tracks as int)),
                ),
                label_string(seq![("object_type"@, "trackpoint"@)]),
                Sample::Whole(crate::manager::metrics::held_signed(points as int)),
            ),
            final(self).spec_metrics().database_objects_count_fetch_time_sec.spec_samples() == seq![
                ("_"@, Sample::Fixed(elapsed)),
            ],
            !final(self).spec_metrics().database_objects_count.spec_single(),
            final(self).spec_metrics().database_objects_count.titled_as(
                &old(self).spec_metrics().database_objects_count,
            ),
            final(self).spec_metrics().database_objects_count_fetch_time_sec.spec_single(),
            final(self).spec_metrics().database_objects_count_fetch_time_sec.titled_as(
                &old(self).spec_metrics().database_objects_count_fetch_time_sec,
            ),
            final(self).spec_metrics() == (Metrics {
                database_objects_count: final(self).spec_metrics().database_objects_count,
                database_objects_count_fetch_time_sec: final(self).spec_metrics().database_objects_count_fetch_time_sec,
                ..old(self).spec_metrics()
            }),
    {
        let t: i64 = if tracks > 0x7fff_ffff_ffff_ffff { 0x7fff_ffff_ffff_ffff } else { tracks as i64 };
        let p: i64 = if points > 0x7fff_ffff_ffff_ffff { 0x7fff_ffff_ffff_ffff } else { points as i64 };
        let labels = vec![pair("object_type", "track")];
        assert(crate::manager::metrics::pair_views(labels@) =~= seq![("object_type"@, "track"@)]);
        self.metrics.database_objects_count.set(&labels, Sample::Whole(t));
        let labels = vec![pair("object_type", "trackpoint")];
        assert(crate::manager::metrics::pair_views(labels@) =~= seq![
            ("object_type"@, "trackpoint"@),
        ]);
        self.metrics.database_objects_count.set(&labels, Sample::Whole(p));
        self.metrics.database_objects_count_fetch_time_sec.set_single(Sample::Fixed(elapsed));
    }

    /// Counts one more snapshot, and tells whether the store of tracks is
    /// to be cleaned up now: that is so with every fifth snapshot.
    pub fn cleanup_due(&mut self) -> (due: bool)
        requires
            old(self).wf(),
        ensures
            final(self).wf(),
            final(self).spec_metrics() == old(self).spec_metrics(),
            final(self).spec_fixed() == old(self).spec_fixed(),
            final(self).spec_pilots() == old(self).spec_pilots(),
            final(self).spec_pilots2d() == old(self).spec_pilots2d(),
            final(self).spec_airports2d() == old(self).spec_airports2d(),
            final(self).spec_firs2d() == old(self).spec_firs2d(),
            final(self).spec_controllers() == old(self).spec_controllers(),
            final(self).spec_updated_at() == old(self).spec_updated_at(),
            due == (old(self).spec_cleanup() == 1),
            final(self).spec_cleanup() == if due {
                CLEANUP_EVERY_X_ITER
            } else {
                (old(self).spec_cleanup() - 1) as u8
            },
    {
        self.cleanup = self.cleanup - 1;
        if self.cleanup == 0 {
            self.cleanup = CLEANUP_EVERY_X_ITER;
            true
        } else {
            false
        }
    }

    /// A snapshot without pilots leaves nothing behind: no pilot is known
    /// by any callsign, the table of pilots is empty, and the index of
    /// pilots holds no box.
    pub proof fn lemma_without_pilots(&self, pilots: Seq<PilotView>)
        requires
            self.wf(),
            pilots.len() == 0,
            forall|c: Seq<char>| #[trigger]
                self.spec_pilot(c) == pilot_named(pilots, c, pilots.len() as int),
        ensures
            forall|c: Seq<char>| #[trigger] self.spec_pilot(c) is None,
            forall|c: Seq<char>| #[trigger] self.spec_pilots2d().spec_box(c) is None,
            self.spec_pilots().spec_keys().len() == 0,
            self.spec_pilots().spec_values().len() == 0,
    {
        self.spec_pilots().lemma_wf();
        assert forall|c: Seq<char>| #[trigger] self.spec_pilot(c) is None by {
            assert(pilot_named(pilots, c, pilots.len() as int) is None);
        }
        assert forall|c: Seq<char>| #[trigger] self.spec_pilots2d().spec_box(c) is None by {
            assert(self.spec_pilot(c) is None);
        }
        if self.spec_pilots().spec_keys().len() > 0 {
            let c = self.spec_pilots().spec_keys()[0];
            lemma_key_index(self.spec_pilots().spec_keys(), c, 0);
            assert(self.spec_pilot(c) is Some);
        }
    }

    /// Whether a snapshot written at `updated_at`, in milliseconds since the
    /// Unix epoch, is newer than the one taken in last. If so, it counts as
    /// the last one from now on, and the metrics tell its time in seconds;
    /// else nothing changes.
    pub fn accept(&mut self, updated_at: i64) -> (newer: bool)
        requires
            old(self).wf(),
        ensures
            final(self).wf(),
            newer == (updated_at > old(self).spec_updated_at()),
            !newer ==> final(self).same_world(old(self)) && final(self).spec_metrics() == old(self).spec_metrics(),
            newer ==> final(self).spec_updated_at() == updated_at,
            newer ==> final(self).spec_metrics() == (Metrics {
                vatsim_data_timestamp: (updated_at as int / 1000) as i64,
                ..old(self).spec_metrics()
            }),
            final(self).spec_fixed() == old(self).spec_fixed(),
            final(self).spec_pilots() == old(self).spec_pilots(),
            final(self).spec_pilots2d() == old(self).spec_pilots2d(),
            final(self).spec_airports2d() == old(self).spec_airports2d(),
            final(self).spec_firs2d() == old(self).spec_firs2d(),
            final(self).spec_controllers() == old(self).spec_controllers(),
            final(self).spec_cleanup() == old(self).spec_cleanup(),
    {
        if !(updated_at > self.data_updated_at) {
            return false;
        }
        self.data_updated_at = updated_at;
        self.metrics.vatsim_data_timestamp = if updated_at >= 0 {
            updated_at / 1000
        } else {
            (-((-(updated_at as i128) + 999) / 1000)) as i64
        };
        true
    }

    /// Takes in a snapshot of the live feed. A snapshot that is not newer
    /// than the one taken in last changes nothing. The pilots of a newer
    /// one take the place of all pilots known, its controllers come to look
    /// after their airports and regions, those who are gone leave, and the
    /// objects online are counted anew.
    pub fn run(&mut self, data: &Data) -> (r: Option<Staffed>)
        requires
            old(self).wf(),
        ensures
            final(self).wf(),
            data.general.updated_at <= old(self).spec_updated_at() ==> r is None && final(self).same_world(old(self)) && final(self).spec_metrics() == old(self).spec_metrics(),
            data.general.updated_at > old(self).spec_updated_at() ==> {
                let staffing = staffed(
                    old(self).spec_fixed().spec_lands(),
                    views(data.controllers@),
                    data.controllers@.len() as int,
                );
                &&& r is Some
                &&& final(self).spec_updated_at() == data.general.updated_at
                &&& final(self).spec_cleanup() == old(self).spec_cleanup()
                &&& final(self).spec_airports2d() == old(self).spec_airports2d()
                &&& final(self).spec_firs2d() == old(self).spec_firs2d()
                &&& forall|c: Seq<char>| #[trigger]
                    final(self).spec_pilot(c) == pilot_named(
                        views(data.pilots@),
                        c,
                        data.pilots@.len() as int,
                    )
                &&& final(self).spec_fixed().spec_lands() == retired(
                    staffing.lands,
                    old(self).spec_controllers(),
                    staffing.online,
                    old(self).spec_controllers().len() as int,
                )
                &&& final(self).spec_fixed().spec_geonames() == old(self).spec_fixed().spec_geonames()
                &&& final(self).spec_controllers() == staffing.online
                &&& string_views(r->0.controlled@) == staffing.controlled
                &&& r->0.count == staffing.count
                &&& r->0.groups.spec_tally() == staffing.groups
                &&& final(self).spec_metrics() == (Metrics {
                    vatsim_data_timestamp: (data.general.updated_at as int / 1000) as i64,
                    vatsim_objects_online: final(self).spec_metrics().vatsim_objects_online,
                    ..old(self).spec_metrics()
                })
                &&& final(self).spec_metrics().vatsim_objects_online.titled_as(
                    &old(self).spec_metrics().vatsim_objects_online,
                )
                &&& final(self).spec_metrics().vatsim_objects_online.spec_samples()
                    == online_controllers(
                    online_pilots(
                        old(self).spec_metrics().vatsim_objects_online.spec_samples(),
                        pilot_tally(
                            views(data.pilots@),
                            old(self).spec_fixed().spec_geonames(),
                            data.pilots@.len() as int,
                        ),
                        old(self).spec_fixed().spec_geonames(),
                        pilot_tally(
                            views(data.pilots@),
                            old(self).spec_fixed().spec_geonames(),
                            data.pilots@.len() as int,
                        ).len() as int,
                    ),
                    staffing.groups,
                    old(self).spec_fixed().spec_geonames(),
                    staffing.groups.len() as int,
                )
            },
    {
        if !self.accept(data.general.updated_at) {
            return None;
        }
        let groups = self.process_pilots(&data.pilots);
        let ghost mid = *self;
        self.record_pilots_online(&groups);
        let staffed = self.process_controllers(&data.controllers);
        self.record_controllers_online(&staffed.groups);
        proof {
            assert forall|c: Seq<char>| #[trigger]
                self.spec_pilot(c) == pilot_named(
                    views(data.pilots@),
                    c,
                    data.pilots@.len() as int,
                ) by {
                assert(self.spec_pilots() == mid.spec_pilots());
                assert(mid.spec_pilot(c) == pilot_named(
                    views(data.pilots@),
                    c,
                    data.pilots@.len() as int,
                ));
            }
        }
        Some(staffed)
    }
}

} // verus!

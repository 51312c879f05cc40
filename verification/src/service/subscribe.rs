//! Queries that viewers keep running: a viewer is told whenever a pilot
//! that one of its queries holds of comes online, files another flight
//! plan, or goes offline.

use super::calc::{gone, known_after, news, place_of, still_there, Keyed};
use super::compile_query;
use super::filter::{admits, lemma_admits, PilotFilter};
use super::spec_filter;
use crate::lee::parser::expression::{lemma_well_formed_connected, ExprTree, Expression};
use crate::manager::Manager;
use crate::moving::pilot::{Pilot, PilotView};
use crate::text::{string_views, views};
use vstd::prelude::*;

verus! {

/// A pilot as a query session sees it: two sightings of a pilot are alike
/// where the flight plan is the same.
#[derive(Debug)]
pub struct Sighting {
    pub pilot: Pilot,
}

impl View for Sighting {
    type V = PilotView;

    open spec fn view(&self) -> PilotView {
        self.pilot@
    }
}

impl Keyed for Sighting {
    open spec fn spec_key(v: PilotView) -> Seq<char> {
        v.callsign
    }

    open spec fn alike(a: PilotView, b: PilotView) -> bool {
        a.flight_plan == b.flight_plan
    }

    fn has_key(&self, key: &Self) -> (b: bool) {
        self.pilot.callsign == key.pilot.callsign
    }

    fn same(&self, other: &Self) -> (b: bool) {
        match (&self.pilot.flight_plan, &other.pilot.flight_plan) {
            (Some(x), Some(y)) => x.same(y),
            (None, None) => true,
            _ => false,
        }
    }

    fn copy(&self) -> (r: Self) {
        Sighting { pilot: self.pilot.clone() }
    }
}

/// What has happened to the pilots since a session last looked.
pub struct Online {
    /// The pilots that have come online.
    pub added: Vec<Pilot>,
    /// The pilots that have gone offline.
    pub deleted: Vec<Pilot>,
    /// The pilots that have filed another flight plan.
    pub replanned: Vec<Pilot>,
}

/// Those of the first `n` pilots that were known before, or were not, as
/// `known_before` says.
pub open spec fn split(
    items: Seq<PilotView>,
    before: Seq<PilotView>,
    known_before: bool,
    n: int,
) -> Seq<PilotView>
    decreases n,
{
    if n <= 0 || n > items.len() {
        Seq::empty()
    } else if (place_of::<Sighting>(before, items[n - 1].callsign, before.len() as int) is Some)
        == known_before {
        split(items, before, known_before, n - 1).push(items[n - 1])
    } else {
        split(items, before, known_before, n - 1)
    }
}

fn wrap(pilots: &Vec<Pilot>) -> (r: Vec<Sighting>)
    ensures
        views(r@) == views(pilots@),
{
    let mut r: Vec<Sighting> = Vec::new();
    let mut i: usize = 0;
    while i < pilots.len()
        invariant
            i <= pilots.len(),
            r@.len() == i,
            forall|k: int| 0 <= k < i ==> (#[trigger] r@[k])@ == pilots@[k]@,
        decreases pilots.len() - i,
    {
        r.push(Sighting { pilot: pilots[i].clone() });
        i += 1;
    }
    assert(views(r@) =~= views(pilots@));
    r
}

fn unwrap(sightings: Vec<Sighting>) -> (r: Vec<Pilot>)
    ensures
        views(r@) == views(sightings@),
{
    let mut r: Vec<Pilot> = Vec::new();
    let mut i: usize = 0;
    while i < sightings.len()
        invariant
            i <= sightings.len(),
            r@.len() == i,
            forall|k: int| 0 <= k < i ==> (#[trigger] r@[k])@ == sightings@[k]@,
        decreases sightings.len() - i,
    {
        r.push(sightings[i].pilot.clone());
        i += 1;
    }
    assert(views(r@) =~= views(sightings@));
    r
}

/// Holds the pilots online against those that a session knows, `prev`.
/// Every pilot that is new to the session or has another flight plan than
/// the session knows is news: it has come online if the session did not
/// know its callsign, else it has filed another plan. Every pilot that the
/// session knows and that is not among the pilots has gone offline.
pub fn calc_pilots_online(pilots: &Vec<Pilot>, prev: &mut Vec<Sighting>) -> (r: Online)
    ensures
        views(r.added@) == split(
            news::<Sighting>(views(old(prev)@), views(pilots@), pilots@.len() as int),
            views(old(prev)@),
            false,
            news::<Sighting>(views(old(prev)@), views(pilots@), pilots@.len() as int).len() as int,
        ),
        views(r.replanned@) == split(
            news::<Sighting>(views(old(prev)@), views(pilots@), pilots@.len() as int),
            views(old(prev)@),
            true,
            news::<Sighting>(views(old(prev)@), views(pilots@), pilots@.len() as int).len() as int,
        ),
        views(r.deleted@) == gone::<Sighting>(
            known_after::<Sighting>(views(old(prev)@), views(pilots@), pilots@.len() as int),
            views(pilots@),
            known_after::<Sighting>(
                views(old(prev)@),
                views(pilots@),
                pilots@.len() as int,
            ).len() as int,
        ),
        views(final(prev)@) == still_there::<Sighting>(
            known_after::<Sighting>(views(old(prev)@), views(pilots@), pilots@.len() as int),
            views(pilots@),
            known_after::<Sighting>(
                views(old(prev)@),
                views(pilots@),
                pilots@.len() as int,
            ).len() as int,
        ),
{
    let ghost before = views(prev@);
    let mut known: Vec<Sighting> = Vec::new();
    let mut i: usize = 0;
    while i < prev.len()
        invariant
            i <= prev.len(),
            known@.len() == i,
            forall|k: int| 0 <= k < i ==> (#[trigger] known@[k])@ == prev@[k]@,
        decreases prev.len() - i,
    {
        known.push(prev[i].copy());
        i += 1;
    }
    assert(views(known@) =~= before);
    let items = wrap(pilots);
    let (set, delete) = crate::service::calc::calc(&items, prev);
    let ghost told = views(set@);
    let mut added: Vec<Pilot> = Vec::new();
    let mut replanned: Vec<Pilot> = Vec::new();
    let mut j: usize = 0;
    assert(views(added@) =~= Seq::<PilotView>::empty());
    assert(views(replanned@) =~= Seq::<PilotView>::empty());
    while j < set.len()
        invariant
            j <= set.len(),
            told == views(set@),
            views(known@) == before,
            views(added@) == split(told, before, false, j as int),
            views(replanned@) == split(told, before, true, j as int),
        decreases set.len() - j,
    {
        let ghost a0 = views(added@);
        let ghost r0 = views(replanned@);
        assert(told[j as int] == set@[j as int]@);
        let found = crate::service::calc::find(&known, &set[j]).is_some();
        if found {
            replanned.push(set[j].pilot.clone());
            assert(views(replanned@) =~= r0.push(told[j as int]));
        } else {
            added.push(set[j].pilot.clone());
            assert(views(added@) =~= a0.push(told[j as int]));
        }
        j += 1;
    }
    Online { added, deleted: unwrap(delete), replanned }
}

/// What a viewer asks for.
#[derive(Debug)]
pub enum SubscriptionRequest {
    /// Keep the query running under the name.
    Add(String, String),
    /// Drop the query of the name.
    Delete(String),
}

/// What has happened to a pilot that a query holds of.
#[derive(Debug, Clone, Copy, PartialEq, Eq, Structural)]
pub enum QueryUpdateType {
    Online,
    Offline,
    Flightplan,
}

/// One thing that a viewer is told: what has happened to a pilot that the
/// query of the name holds of.
#[derive(Debug)]
pub struct QueryUpdate {
    pub subscription_id: String,
    pub update_type: QueryUpdateType,
    pub pilot: Pilot,
}

/// A [`QueryUpdate`] as a mathematical value.
pub struct QueryUpdateView {
    pub subscription_id: Seq<char>,
    pub update_type: QueryUpdateType,
    pub pilot: PilotView,
}

impl View for QueryUpdate {
    type V = QueryUpdateView;

    open spec fn view(&self) -> QueryUpdateView {
        QueryUpdateView {
            subscription_id: self.subscription_id@,
            update_type: self.update_type,
            pilot: self.pilot@,
        }
    }
}

/// The trees of a list of compiled expressions.
pub open spec fn trees(filters: Seq<Expression<PilotFilter>>) -> Seq<ExprTree> {
    filters.map_values(|f: Expression<PilotFilter>| f.tree())
}

/// What the viewer is told of one pilot: one update for each of the first
/// `n` queries that holds of it.
pub open spec fn told_of(
    ids: Seq<Seq<char>>,
    filters: Seq<ExprTree>,
    kind: QueryUpdateType,
    pilot: PilotView,
    n: int,
) -> Seq<QueryUpdateView>
    decreases n,
{
    if n <= 0 || n > ids.len() || n > filters.len() {
        Seq::empty()
    } else if admits(filters[n - 1], pilot) {
        told_of(ids, filters, kind, pilot, n - 1).push(
            QueryUpdateView { subscription_id: ids[n - 1], update_type: kind, pilot },
        )
    } else {
        told_of(ids, filters, kind, pilot, n - 1)
    }
}

/// What the viewer is told of the first `m` pilots.
pub open spec fn told_of_all(
    ids: Seq<Seq<char>>,
    filters: Seq<ExprTree>,
    kind: QueryUpdateType,
    pilots: Seq<PilotView>,
    m: int,
) -> Seq<QueryUpdateView>
    decreases m,
{
    if m <= 0 || m > pilots.len() {
        Seq::empty()
    } else {
        told_of_all(ids, filters, kind, pilots, m - 1) + told_of(
            ids,
            filters,
            kind,
            pilots[m - 1],
            ids.len() as int,
        )
    }
}

/// One viewer who keeps queries running.
pub struct QuerySession {
    ids: Vec<String>,
    filters: Vec<Expression<PilotFilter>>,
    pilots_state: Vec<Sighting>,
    next_update: i64,
}

impl QuerySession {
    /// The names of the queries, in the order in which they were added.
    pub closed spec fn spec_ids(&self) -> Seq<Seq<char>> {
        string_views(self.ids@)
    }

    pub closed spec fn spec_filters(&self) -> Seq<ExprTree> {
        trees(self.filters@)
    }

    pub closed spec fn spec_pilots(&self) -> Seq<PilotView> {
        views(self.pilots_state@)
    }

    pub closed spec fn spec_next_update(&self) -> i64 {
        self.next_update
    }

    pub closed spec fn wf(&self) -> bool {
        &&& self.ids@.len() == self.filters@.len()
        &&& forall|i: int|
            0 <= i < self.filters@.len() ==> (#[trigger] self.filters@[i]).tree().well_formed()
    }

    pub fn new(now: i64) -> (r: Self)
        ensures
            r.wf(),
            r.spec_ids() == Seq::<Seq<char>>::empty(),
            r.spec_filters() == Seq::<ExprTree>::empty(),
            r.spec_pilots() == Seq::<PilotView>::empty(),
            r.spec_next_update() == now,
    {
        let r = QuerySession {
            ids: Vec::new(),
            filters: Vec::new(),
            pilots_state: Vec::new(),
            next_update: now,
        };
        assert(r.spec_ids() =~= Seq::<Seq<char>>::empty());
        assert(r.spec_filters() =~= Seq::<ExprTree>::empty());
        assert(r.spec_pilots() =~= Seq::<PilotView>::empty());
        r
    }

    fn position(&self, id: &str) -> (r: Option<usize>)
        ensures
            r is Some <==> self.spec_ids().contains(id@),
            r is Some ==> r->0 < self.spec_ids().len() && self.spec_ids()[r->0 as int] == id@,
    {
        let wanted = id.to_owned();
        let mut i: usize = 0;
        while i < self.ids.len()
            invariant
                i <= self.ids@.len(),
                wanted@ == id@,
                forall|k: int| 0 <= k < i ==> (#[trigger] self.ids@[k])@ != id@,
            decreases self.ids@.len() - i,
        {
            if self.ids[i] == wanted {
                assert(self.spec_ids()[i as int] == id@);
                return Some(i);
            }
            i += 1;
        }
        assert forall|k: int| 0 <= k < self.spec_ids().len() implies self.spec_ids()[k] != id@ by {
            assert(self.spec_ids()[k] == self.ids@[k]@);
        }
        None
    }

    /// Takes in what the viewer asks for at `now`. A query is added under a
    /// name that is free, if it can be read and compiled for pilots; the
    /// query of a name is dropped, if there is one. Where anything changes,
    /// the viewer is updated at once.
    pub fn handle(&mut self, request: SubscriptionRequest, now: i64)
        requires
            old(self).wf(),
        ensures
            final(self).wf(),
            final(self).spec_pilots() == old(self).spec_pilots(),
            match request {
                SubscriptionRequest::Add(id, query) => if !old(self).spec_ids().contains(id@)
                    && spec_filter(query@) is Some {
                    &&& final(self).spec_ids() == old(self).spec_ids().push(id@)
                    &&& final(self).spec_filters() == old(self).spec_filters().push(
                        spec_filter(query@)->0,
                    )
                    &&& final(self).spec_next_update() == now
                } else {
                    &&& final(self).spec_ids() == old(self).spec_ids()
                    &&& final(self).spec_filters() == old(self).spec_filters()
                    &&& final(self).spec_next_update() == old(self).spec_next_update()
                },
                SubscriptionRequest::Delete(id) => if old(self).spec_ids().contains(id@) {
                    &&& exists|i: int|
                        0 <= i < old(self).spec_ids().len() && old(self).spec_ids()[i] == id@
                            && final(self).spec_ids() == old(self).spec_ids().remove(i) && final(self).spec_filters() == old(self).spec_filters().remove(i)
                    &&& final(self).spec_next_update() == now
                } else {
                    &&& final(self).spec_ids() == old(self).spec_ids()
                    &&& final(self).spec_filters() == old(self).spec_filters()
                    &&& final(self).spec_next_update() == old(self).spec_next_update()
                },
            },
    {
        let ghost ids = self.spec_ids();
        let ghost filters = self.spec_filters();
        match request {
            SubscriptionRequest::Add(id, query) => {
                if self.position(id.as_str()).is_none() {
                    match compile_query(query.as_str()) {
                        Some(filter) => {
                            self.ids.push(id);
                            self.filters.push(filter);
                            self.next_update = now;
                            assert(self.spec_ids() =~= ids.push(id@));
                            assert(self.spec_filters() =~= filters.push(spec_filter(query@)->0));
                        },
                        None => {},
                    }
                }
            },
            SubscriptionRequest::Delete(id) => {
                match self.position(id.as_str()) {
                    Some(i) => {
                        self.ids.remove(i);
                        self.filters.remove(i);
                        self.next_update = now;
                        assert(self.spec_ids() =~= ids.remove(i as int));
                        assert(self.spec_filters() =~= filters.remove(i as int));
                    },
                    None => {},
                }
            },
        }
    }

    fn tell(&self, out: &mut Vec<QueryUpdate>, pilots: &Vec<Pilot>, kind: QueryUpdateType)
        requires
            self.wf(),
        ensures
            views(final(out)@) == views(old(out)@) + told_of_all(
                self.spec_ids(),
                self.spec_filters(),
                kind,
                views(pilots@),
                pilots@.len() as int,
            ),
    {
        let ghost start = views(out@);
        let ghost ids = self.spec_ids();
        let ghost filters = self.spec_filters();
        let ghost all = views(pilots@);
        let mut m: usize = 0;
        assert(views(out@) =~= start + told_of_all(ids, filters, kind, all, 0));
        while m < pilots.len()
            invariant
                m <= pilots.len(),
                self.wf(),
                ids == self.spec_ids(),
                filters == self.spec_filters(),
                all == views(pilots@),
                views(out@) == start + told_of_all(ids, filters, kind, all, m as int),
            decreases pilots.len() - m,
        {
            let ghost head = views(out@);
            assert(all[m as int] == pilots@[m as int]@);
            let mut n: usize = 0;
            assert(views(out@) =~= head + told_of(ids, filters, kind, all[m as int], 0));
            while n < self.ids.len()
                invariant
                    n <= self.ids@.len(),
                    m < pilots.len(),
                    self.wf(),
                    ids == self.spec_ids(),
                    filters == self.spec_filters(),
                    all == views(pilots@),
                    all[m as int] == pilots@[m as int]@,
                    views(out@) == head + told_of(ids, filters, kind, all[m as int], n as int),
                decreases self.ids@.len() - n,
            {
                let ghost before = views(out@);
                assert(ids[n as int] == self.ids@[n as int]@);
                assert(filters[n as int] == self.filters@[n as int].tree());
                proof {
                    lemma_admits(filters[n as int], &pilots@[m as int]);
                    lemma_well_formed_connected(filters[n as int]);
                }
                if self.filters[n].evaluate(&pilots[m]) {
                    out.push(
                        QueryUpdate {
                            subscription_id: self.ids[n].clone(),
                            update_type: kind,
                            pilot: pilots[m].clone(),
                        },
                    );
                    assert(views(out@) =~= before.push(
                        QueryUpdateView {
                            subscription_id: ids[n as int],
                            update_type: kind,
                            pilot: all[m as int],
                        },
                    ));
                }
                n += 1;
                assert(views(out@) =~= head + told_of(ids, filters, kind, all[m as int], n as int));
            }
            m += 1;
            assert(views(out@) =~= start + told_of_all(ids, filters, kind, all, m as int));
        }
    }

    /// What the viewer is to be told at `now`, if it is time: for every
    /// pilot that has come online, then for every pilot that has filed
    /// another flight plan, then for every pilot that has gone offline, one
    /// update for each query that holds of the pilot. The next update is due
    /// five seconds later. Before its time nothing happens.
    pub fn tick(&mut self, manager: &Manager, now: i64) -> (r: Vec<QueryUpdate>)
        requires
            old(self).wf(),
            manager.wf(),
        ensures
            final(self).wf(),
            final(self).spec_ids() == old(self).spec_ids(),
            final(self).spec_filters() == old(self).spec_filters(),
            now < old(self).spec_next_update() ==> r@.len() == 0 && final(self).spec_pilots() == old(self).spec_pilots() && final(self).spec_next_update() == old(self).spec_next_update(),
            now >= old(self).spec_next_update() ==> {
                let pilots = views(manager.spec_pilots().spec_values());
                let before = old(self).spec_pilots();
                let told = news::<Sighting>(before, pilots, pilots.len() as int);
                let known = known_after::<Sighting>(before, pilots, pilots.len() as int);
                let added = split(told, before, false, told.len() as int);
                let replanned = split(told, before, true, told.len() as int);
                let deleted = gone::<Sighting>(known, pilots, known.len() as int);
                &&& final(self).spec_pilots() == still_there::<Sighting>(
                    known,
                    pilots,
                    known.len() as int,
                )
                &&& views(r@) == told_of_all(
                    old(self).spec_ids(),
                    old(self).spec_filters(),
                    QueryUpdateType::Online,
                    added,
                    added.len() as int,
                ) + told_of_all(
                    old(self).spec_ids(),
                    old(self).spec_filters(),
                    QueryUpdateType::Flightplan,
                    replanned,
                    replanned.len() as int,
                ) + told_of_all(
                    old(self).spec_ids(),
                    old(self).spec_filters(),
                    QueryUpdateType::Offline,
                    deleted,
                    deleted.len() as int,
                )
                &&& final(self).spec_next_update() == if now as int + super::UPDATE_MS > i64::MAX {
                    i64::MAX
                } else {
                    (now + super::UPDATE_MS) as i64
                }
            },
    {
        let mut out: Vec<QueryUpdate> = Vec::new();
        if now < self.next_update {
            return out;
        }
        let pilots = manager.get_all_pilots();
        let online = calc_pilots_online(&pilots, &mut self.pilots_state);
        assert(views(out@) =~= Seq::<QueryUpdateView>::empty());
        self.tell(&mut out, &online.added, QueryUpdateType::Online);
        self.tell(&mut out, &online.replanned, QueryUpdateType::Flightplan);
        self.tell(&mut out, &online.deleted, QueryUpdateType::Offline);
        self.next_update = if now > i64::MAX - super::UPDATE_MS {
            i64::MAX
        } else {
            now + super::UPDATE_MS
        };
        out
    }
}

} // verus!

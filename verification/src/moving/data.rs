//! One snapshot of the live feed, read.

use super::aircraft::{AircraftDb, AircraftView};
use super::controller::{Controller, ControllerView, Facility};
use super::exttypes;
use super::pilot::{Pilot, PilotView};
use crate::text::views;
use crate::timefmt::{instant_or, parse_instant_or};
use vstd::prelude::*;

verus! {

/// The head of a snapshot: when it was written, and how many are online.
#[derive(Debug, Clone, Copy, PartialEq, Eq, Structural)]
pub struct General {
    pub version: u64,
    pub reload: u64,
    pub connected_clients: u32,
    pub unique_users: u32,
    /// When the snapshot was published, in milliseconds since the Unix
    /// epoch.
    pub updated_at: i64,
}

/// One snapshot of the live feed.
#[derive(Debug)]
pub struct Data {
    pub general: General,
    pub pilots: Vec<Pilot>,
    pub controllers: Vec<Controller>,
}

impl exttypes::GeneralView {
    /// The head of the snapshot, with its time read. `now` stands in for a
    /// time that cannot be read.
    pub open spec fn converted(self, now: i64) -> General {
        General {
            version: self.version,
            reload: self.reload,
            connected_clients: self.connected_clients,
            unique_users: self.unique_users,
            updated_at: instant_or(self.update_timestamp, now),
        }
    }
}

impl General {
    pub fn from_ext(src: exttypes::General, now: i64) -> (r: General)
        ensures
            r == src@.converted(now),
    {
        General {
            version: src.version,
            reload: src.reload,
            connected_clients: src.connected_clients,
            unique_users: src.unique_users,
            updated_at: parse_instant_or(src.update_timestamp.as_str(), now),
        }
    }
}

/// The pilots that the records describe.
pub open spec fn converted_pilots(
    src: Seq<exttypes::PilotView>,
    now: i64,
    models: Seq<AircraftView>,
) -> Seq<PilotView> {
    src.map_values(|p: exttypes::PilotView| p.converted(now, models))
}

/// The controllers that the records describe.
pub open spec fn converted_controllers(src: Seq<exttypes::ControllerView>, now: i64) -> Seq<
    ControllerView,
> {
    src.map_values(|c: exttypes::ControllerView| c.converted(now))
}

/// The controllers that the records of broadcasts describe: whatever the
/// records say, their facility is the broadcast.
pub open spec fn converted_atis(src: Seq<exttypes::ControllerView>, now: i64) -> Seq<
    ControllerView,
> {
    src.map_values(
        |c: exttypes::ControllerView|
            ControllerView { facility: Facility::ATIS, ..c.converted(now) },
    )
}

impl Data {
    /// The snapshot that the records describe: the broadcasts come behind
    /// the controllers.
    pub fn from_ext(src: exttypes::Data, now: i64, db: &AircraftDb) -> (r: Data)
        ensures
            r.general == src.general@.converted(now),
            views(r.pilots@) == converted_pilots(views(src.pilots@), now, db.spec_models()),
            views(r.controllers@) == converted_controllers(views(src.controllers@), now)
                + converted_atis(views(src.atis@), now),
    {
        let exttypes::Data { general, pilots: ext_pilots, controllers: ext_ctrls, atis } = src;
        let ghost pv = views(ext_pilots@);
        let ghost cv = views(ext_ctrls@);
        let ghost av = views(atis@);
        let mut pilots: Vec<Pilot> = Vec::new();
        let mut ext_pilots = ext_pilots;
        let n: usize = ext_pilots.len();
        let mut i: usize = 0;
        while i < n
            invariant
                i <= n == pv.len(),
                ext_pilots@.len() == n,
                forall|k: int| i <= k < n ==> (#[trigger] ext_pilots@[k])@ == pv[k],
                pilots@.len() == i,
                forall|k: int|
                    0 <= k < i ==> (#[trigger] pilots@[k])@ == pv[k].converted(
                        now,
                        db.spec_models(),
                    ),
            decreases n - i,
        {
            let p = ext_pilots[i].clone();
            pilots.push(Pilot::from_ext(p, now, db));
            i += 1;
        }
        assert(views(pilots@) =~= converted_pilots(pv, now, db.spec_models()));
        let mut controllers: Vec<Controller> = Vec::new();
        let mut j: usize = 0;
        while j < ext_ctrls.len()
            invariant
                j <= ext_ctrls.len(),
                cv == views(ext_ctrls@),
                controllers@.len() == j,
                forall|k: int| 0 <= k < j ==> (#[trigger] controllers@[k])@ == cv[k].converted(now),
            decreases ext_ctrls.len() - j,
        {
            assert(cv[j as int] == ext_ctrls@[j as int]@);
            controllers.push(Controller::from_ext(ext_ctrls[j].clone(), now));
            j += 1;
        }
        let ghost first = views(controllers@);
        assert(first =~= converted_controllers(cv, now));
        let mut k: usize = 0;
        while k < atis.len()
            invariant
                k <= atis.len(),
                av == views(atis@),
                controllers@.len() == first.len() + k,
                forall|m: int| 0 <= m < first.len() ==> (#[trigger] controllers@[m])@ == first[m],
                forall|m: int|
                    0 <= m < k ==> (#[trigger] controllers@[first.len() + m])@ == (ControllerView {
                        facility: Facility::ATIS,
                        ..av[m].converted(now)
                    }),
            decreases atis.len() - k,
        {
            assert(av[k as int] == atis@[k as int]@);
            let mut ctrl = Controller::from_ext(atis[k].clone(), now);
            ctrl.facility = Facility::ATIS;
            controllers.push(ctrl);
            k += 1;
        }
        proof {
            let all = views(controllers@);
            let want = first + converted_atis(av, now);
            assert(all.len() == want.len());
            assert forall|m: int| 0 <= m < all.len() implies all[m] == want[m] by {
                if m < first.len() {
                    assert(controllers@[m]@ == first[m]);
                } else {
                    let d = m - first.len();
                    assert(controllers@[first.len() + d]@ == (ControllerView {
                        facility: Facility::ATIS,
                        ..av[d].converted(now)
                    }));
                }
            }
            assert(all =~= want);
        }
        Data { general: General::from_ext(general, now), pilots, controllers }
    }
}

} // verus!

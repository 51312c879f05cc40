//! What viewers are served: filters over pilots and deltas per session.
//!
//! A session does nothing by itself. It takes in what its viewer asks for,
//! and when it is time, it says what the viewer is to be told.

pub mod calc;
pub mod filter;
pub mod subscribe;

use self::calc::{
    calc_airports, calc_firs, calc_pilots, gone, known_after, lemma_second_look_at_pilots, news,
    still_there,
};
use self::filter::{admits, lemma_admits, lemma_compiled_can_be_evaluated, PilotFilter};
use crate::fixed::types::{Airport, AirportView, FIR, FIRView};
use crate::lee::lexer::lex;
use crate::lee::make_expr;
use crate::lee::parser::expression::{lemma_well_formed_connected, ExprTree, Expression};
use crate::lee::parser::spec_parse;
use crate::manager::{
    airport_shown, airports_shown, firs_staffed, lemma_selected_distinct, selected, Manager,
};
use crate::moving::pilot::{Pilot, PilotView};
use crate::text::{has_text, push_str, string_views, views};
use crate::types::Rect;
use vstd::prelude::*;

verus! {

/// Below this zoom, in millionths, the map may show the world more than
/// once, so that a viewer is shown everything whatever its viewport.
pub const MIN_ZOOM: i64 = 3_000_000;

/// The time between two looks at what a viewer asks for, in milliseconds.
pub const TICK_MS: i64 = 50;

/// The time between two updates of a viewer, in milliseconds.
pub const UPDATE_MS: i64 = 5000;

/// The viewport of a viewer and its zoom, in millionths.
#[derive(Debug, Clone, Copy, PartialEq, Eq, Structural)]
pub struct MapBounds {
    pub rect: Rect,
    pub zoom: i64,
}

/// What a viewer asks for.
#[derive(Debug)]
pub enum Request {
    /// Show only the pilots that the query holds of; all, if it is empty.
    Filter(String),
    Bounds(MapBounds),
    /// Show the weather of airports without a controller too, or not.
    ShowWx(bool),
    /// Follow the pilot with this callsign wherever it is.
    SubscribeId(String),
    UnsubscribeId(String),
}

/// Whether a batch tells of things to set or of things that are gone.
#[derive(Debug, Clone, Copy, PartialEq, Eq, Structural)]
pub enum UpdateType {
    /// The things of the batch are new, or not as the viewer knows them.
    Put,
    /// The things of the batch are gone.
    Delete,
}

/// One batch of things that a viewer is told of.
pub enum Update {
    PilotUpdate(UpdateType, Vec<Pilot>),
    AirportUpdate(UpdateType, Vec<Airport>),
    FirUpdate(UpdateType, Vec<FIR>),
}

/// `batches` with `batch` behind them, unless the batch holds nothing.
pub open spec fn with_batch(batches: Seq<Update>, batch: Update, size: nat) -> Seq<Update> {
    if size > 0 {
        batches.push(batch)
    } else {
        batches
    }
}

/// What has changed for a viewer.
pub struct Delta {
    pub pilots_set: Vec<Pilot>,
    pub pilots_delete: Vec<Pilot>,
    pub airports_set: Vec<Airport>,
    pub airports_delete: Vec<Airport>,
    pub firs_set: Vec<FIR>,
    pub firs_delete: Vec<FIR>,
}

impl Delta {
    /// How many batches the delta makes: one for each of its lists that is
    /// not empty.
    pub open spec fn spec_batches(&self) -> nat {
        ((if self.pilots_set@.len() > 0 {
            1nat
        } else {
            0nat
        }) + (if self.pilots_delete@.len() > 0 {
            1nat
        } else {
            0nat
        }) + (if self.airports_set@.len() > 0 {
            1nat
        } else {
            0nat
        }) + (if self.airports_delete@.len() > 0 {
            1nat
        } else {
            0nat
        }) + (if self.firs_set@.len() > 0 {
            1nat
        } else {
            0nat
        }) + (if self.firs_delete@.len() > 0 {
            1nat
        } else {
            0nat
        })) as nat
    }

    pub fn empty() -> (r: Delta)
        ensures
            r.spec_batches() == 0,
            r.pilots_set@.len() == 0,
            r.pilots_delete@.len() == 0,
            r.airports_set@.len() == 0,
            r.airports_delete@.len() == 0,
            r.firs_set@.len() == 0,
            r.firs_delete@.len() == 0,
    {
        Delta {
            pilots_set: Vec::new(),
            pilots_delete: Vec::new(),
            airports_set: Vec::new(),
            airports_delete: Vec::new(),
            firs_set: Vec::new(),
            firs_delete: Vec::new(),
        }
    }

    /// The batches that the viewer is sent: for pilots, airports and
    /// regions in this order what is to be set, then what is gone. An empty
    /// batch is not sent.
    pub open spec fn spec_updates(&self) -> Seq<Update> {
        let batches = Seq::<Update>::empty();
        let batches = with_batch(
            batches,
            Update::PilotUpdate(UpdateType::Put, self.pilots_set),
            self.pilots_set@.len(),
        );
        let batches = with_batch(
            batches,
            Update::PilotUpdate(UpdateType::Delete, self.pilots_delete),
            self.pilots_delete@.len(),
        );
        let batches = with_batch(
            batches,
            Update::AirportUpdate(UpdateType::Put, self.airports_set),
            self.airports_set@.len(),
        );
        let batches = with_batch(
            batches,
            Update::AirportUpdate(UpdateType::Delete, self.airports_delete),
            self.airports_delete@.len(),
        );
        let batches = with_batch(
            batches,
            Update::FirUpdate(UpdateType::Put, self.firs_set),
            self.firs_set@.len(),
        );
        with_batch(
            batches,
            Update::FirUpdate(UpdateType::Delete, self.firs_delete),
            self.firs_delete@.len(),
        )
    }

    /// The batches that the viewer is sent.
    pub fn updates(self) -> (r: Vec<Update>)
        ensures
            r@ == self.spec_updates(),
            r@.len() == self.spec_batches(),
    {
        let mut r: Vec<Update> = Vec::new();
        if self.pilots_set.len() > 0 {
            r.push(Update::PilotUpdate(UpdateType::Put, self.pilots_set));
        }
        if self.pilots_delete.len() > 0 {
            r.push(Update::PilotUpdate(UpdateType::Delete, self.pilots_delete));
        }
        if self.airports_set.len() > 0 {
            r.push(Update::AirportUpdate(UpdateType::Put, self.airports_set));
        }
        if self.airports_delete.len() > 0 {
            r.push(Update::AirportUpdate(UpdateType::Delete, self.airports_delete));
        }
        if self.firs_set.len() > 0 {
            r.push(Update::FirUpdate(UpdateType::Put, self.firs_set));
        }
        if self.firs_delete.len() > 0 {
            r.push(Update::FirUpdate(UpdateType::Delete, self.firs_delete));
        }
        r
    }
}

/// The filter that a query stands for: the compiled expression, where the
/// query can be read and compiled for pilots; none for any other query.
pub open spec fn spec_filter(query: Seq<char>) -> Option<ExprTree> {
    if query.len() == 0 {
        None
    } else {
        match spec_parse(lex(query), 0) {
            Ok(t) => if t.compiled::<PilotFilter>().1 is None {
                Some(t.compiled::<PilotFilter>().0)
            } else {
                None
            },
            Err(_) => None,
        }
    }
}

/// The callsigns without `id`.
pub open spec fn without_text(list: Seq<Seq<char>>, id: Seq<char>, n: int) -> Seq<Seq<char>>
    decreases n,
{
    if n <= 0 || n > list.len() {
        Seq::empty()
    } else if list[n - 1] == id {
        without_text(list, id, n - 1)
    } else {
        without_text(list, id, n - 1).push(list[n - 1])
    }
}

/// Those of the pilots that pass the filter `filter`: a pilot that the
/// viewer follows passes any filter.
pub open spec fn passing(
    pilots: Seq<PilotView>,
    subscriptions: Seq<Seq<char>>,
    filter: Option<ExprTree>,
) -> Seq<PilotView> {
    match filter {
        Some(t) => selected(
            pilots,
            Seq::new(
                pilots.len(),
                |i: int| subscriptions.contains(pilots[i].callsign) || admits(t, pilots[i]),
            ),
            pilots.len() as int,
        ),
        None => pilots,
    }
}

/// One viewer of the map.
pub struct Session {
    bounds: Option<MapBounds>,
    filter: Option<Expression<PilotFilter>>,
    show_wx: bool,
    subscriptions: Vec<String>,
    pilots_state: Vec<Pilot>,
    airports_state: Vec<Airport>,
    firs_state: Vec<FIR>,
    next_update: i64,
}

impl Session {
    pub closed spec fn spec_bounds(&self) -> Option<MapBounds> {
        self.bounds
    }

    pub closed spec fn spec_filter(&self) -> Option<ExprTree> {
        match self.filter {
            Some(f) => Some(f.tree()),
            None => None,
        }
    }

    pub closed spec fn spec_show_wx(&self) -> bool {
        self.show_wx
    }

    pub closed spec fn spec_subscriptions(&self) -> Seq<Seq<char>> {
        string_views(self.subscriptions@)
    }

    /// The pilots that the viewer knows of.
    pub closed spec fn spec_pilots(&self) -> Seq<PilotView> {
        views(self.pilots_state@)
    }

    pub closed spec fn spec_airports(&self) -> Seq<AirportView> {
        views(self.airports_state@)
    }

    pub closed spec fn spec_firs(&self) -> Seq<FIRView> {
        views(self.firs_state@)
    }

    /// When the viewer is to be updated next, in milliseconds since the
    /// Unix epoch.
    pub closed spec fn spec_next_update(&self) -> i64 {
        self.next_update
    }

    pub closed spec fn wf(&self) -> bool {
        match self.filter {
            Some(f) => f.tree().well_formed(),
            None => true,
        }
    }

    /// A session that starts at `now`: the viewer has set nothing and knows
    /// nothing.
    pub fn new(now: i64) -> (r: Self)
        ensures
            r.wf(),
            r.spec_bounds() is None,
            r.spec_filter() is None,
            !r.spec_show_wx(),
            r.spec_subscriptions() == Seq::<Seq<char>>::empty(),
            r.spec_pilots() == Seq::<PilotView>::empty(),
            r.spec_airports() == Seq::<AirportView>::empty(),
            r.spec_firs() == Seq::<FIRView>::empty(),
            r.spec_next_update() == now,
    {
        let r = Session {
            bounds: None,
            filter: None,
            show_wx: false,
            subscriptions: Vec::new(),
            pilots_state: Vec::new(),
            airports_state: Vec::new(),
            firs_state: Vec::new(),
            next_update: now,
        };
        assert(r.spec_subscriptions() =~= Seq::<Seq<char>>::empty());
        assert(r.spec_pilots() =~= Seq::<PilotView>::empty());
        assert(r.spec_airports() =~= Seq::<AirportView>::empty());
        assert(r.spec_firs() =~= Seq::<FIRView>::empty());
        r
    }

    /// Takes in what the viewer asks for at `now`. Whatever it is, the
    /// viewer is updated at once.
    pub fn handle(&mut self, request: Request, now: i64)
        requires
            old(self).wf(),
        ensures
            final(self).wf(),
            final(self).spec_next_update() == now,
            final(self).spec_pilots() == old(self).spec_pilots(),
            final(self).spec_airports() == old(self).spec_airports(),
            final(self).spec_firs() == old(self).spec_firs(),
            final(self).spec_bounds() == match request {
                Request::Bounds(b) => Some(b),
                _ => old(self).spec_bounds(),
            },
            final(self).spec_filter() == match request {
                Request::Filter(q) => spec_filter(q@),
                _ => old(self).spec_filter(),
            },
            final(self).spec_show_wx() == match request {
                Request::ShowWx(v) => v,
                _ => old(self).spec_show_wx(),
            },
            final(self).spec_subscriptions() == match request {
                Request::SubscribeId(id) => crate::manager::with_text(
                    old(self).spec_subscriptions(),
                    id@,
                ),
                Request::UnsubscribeId(id) => without_text(
                    old(self).spec_subscriptions(),
                    id@,
                    old(self).spec_subscriptions().len() as int,
                ),
                _ => old(self).spec_subscriptions(),
            },
    {
        self.next_update = now;
        match request {
            Request::Filter(flt) => {
                self.filter = compile_query(flt.as_str());
            },
            Request::Bounds(bds) => {
                self.bounds = Some(bds);
            },
            Request::ShowWx(value) => {
                self.show_wx = value;
            },
            Request::SubscribeId(value) => {
                crate::text::add_text(&mut self.subscriptions, value.as_str());
            },
            Request::UnsubscribeId(value) => {
                let mut kept: Vec<String> = Vec::new();
                let mut i: usize = 0;
                let ghost all = string_views(self.subscriptions@);
                assert(string_views(kept@) =~= Seq::<Seq<char>>::empty());
                while i < self.subscriptions.len()
                    invariant
                        i <= self.subscriptions@.len(),
                        all == string_views(self.subscriptions@),
                        string_views(kept@) == without_text(all, value@, i as int),
                    decreases self.subscriptions@.len() - i,
                {
                    let ghost before = string_views(kept@);
                    assert(all[i as int] == self.subscriptions@[i as int]@);
                    if !(self.subscriptions[i] == value) {
                        kept.push(self.subscriptions[i].clone());
                        assert(string_views(kept@) =~= before.push(all[i as int]));
                    }
                    i += 1;
                }
                self.subscriptions = kept;
            },
        }
    }

    /// The pilots that the manager has for the viewer at this time, before
    /// the filter.
    pub open spec fn pilots_sampled(&self, manager: &Manager) -> Seq<PilotView> {
        let b = self.spec_bounds()->0;
        if b.zoom < MIN_ZOOM {
            views(manager.spec_pilots().spec_values())
        } else {
            selected(
                views(manager.spec_pilots().spec_values()),
                Seq::new(
                    manager.spec_pilots().spec_keys().len(),
                    |i: int|
                        manager.pilot_shown(
                            b.rect,
                            self.spec_subscriptions(),
                            manager.spec_pilots().spec_keys()[i],
                        ),
                ),
                manager.spec_pilots().spec_keys().len() as int,
            )
        }
    }

    /// The airports that the manager has for the viewer at this time.
    pub open spec fn airports_sampled(&self, manager: &Manager) -> Seq<AirportView> {
        let b = self.spec_bounds()->0;
        let airports = manager.spec_fixed().spec_airports();
        if b.zoom < MIN_ZOOM {
            airports_shown(airports, self.spec_show_wx(), airports.len() as int)
        } else {
            selected(
                airports,
                Seq::new(
                    airports.len(),
                    |i: int|
                        airport_shown(airports[i], self.spec_show_wx()) && manager.airport_in_view(
                            b.rect,
                            i,
                        ),
                ),
                airports.len() as int,
            )
        }
    }

    /// The regions that the manager has for the viewer at this time.
    pub open spec fn firs_sampled(&self, manager: &Manager) -> Seq<FIRView> {
        let b = self.spec_bounds()->0;
        let firs = manager.spec_fixed().spec_firs();
        if b.zoom < MIN_ZOOM {
            firs_staffed(firs, firs.len() as int)
        } else {
            selected(
                firs,
                Seq::new(
                    firs.len(),
                    |i: int| !firs[i].is_empty() && manager.fir_in_view(b.rect, i),
                ),
                firs.len() as int,
            )
        }
    }

    /// Whether the viewer is to be updated at `now`.
    pub open spec fn due(&self, now: i64) -> bool {
        self.spec_bounds() is Some && now >= self.spec_next_update()
    }

    /// What the viewer is to be told at `now`, if it is time: of every
    /// pilot, airport and region that is new to it or not as it knows it,
    /// and of every one that it knows and that is gone. The next update is
    /// due five seconds later. Before its time, and for a viewer without a
    /// viewport, nothing happens.
    pub fn tick(&mut self, manager: &Manager, now: i64) -> (r: Delta)
        requires
            old(self).wf(),
            manager.wf(),
        ensures
            final(self).wf(),
            final(self).spec_bounds() == old(self).spec_bounds(),
            final(self).spec_filter() == old(self).spec_filter(),
            final(self).spec_show_wx() == old(self).spec_show_wx(),
            final(self).spec_subscriptions() == old(self).spec_subscriptions(),
            !old(self).due(now) ==> r.spec_batches() == 0 && final(self).spec_pilots() == old(self).spec_pilots() && final(self).spec_airports() == old(self).spec_airports() && final(self).spec_firs() == old(self).spec_firs() && final(self).spec_next_update() == old(self).spec_next_update(),
            old(self).due(now) ==> {
                let pilots = passing(
                    old(self).pilots_sampled(manager),
                    old(self).spec_subscriptions(),
                    old(self).spec_filter(),
                );
                let airports = old(self).airports_sampled(manager);
                let firs = old(self).firs_sampled(manager);
                let kp = known_after::<Pilot>(old(self).spec_pilots(), pilots, pilots.len() as int);
                let ka = known_after::<Airport>(
                    old(self).spec_airports(),
                    airports,
                    airports.len() as int,
                );
                let kf = known_after::<FIR>(old(self).spec_firs(), firs, firs.len() as int);
                &&& views(r.pilots_set@) == news::<Pilot>(
                    old(self).spec_pilots(),
                    pilots,
                    pilots.len() as int,
                )
                &&& views(r.pilots_delete@) == gone::<Pilot>(kp, pilots, kp.len() as int)
                &&& final(self).spec_pilots() == still_there::<Pilot>(kp, pilots, kp.len() as int)
                &&& views(r.airports_set@) == news::<Airport>(
                    old(self).spec_airports(),
                    airports,
                    airports.len() as int,
                )
                &&& views(r.airports_delete@) == gone::<Airport>(ka, airports, ka.len() as int)
                &&& final(self).spec_airports() == still_there::<Airport>(
                    ka,
                    airports,
                    ka.len() as int,
                )
                &&& views(r.firs_set@) == news::<FIR>(old(self).spec_firs(), firs, firs.len() as int)
                &&& views(r.firs_delete@) == gone::<FIR>(kf, firs, kf.len() as int)
                &&& final(self).spec_firs() == still_there::<FIR>(kf, firs, kf.len() as int)
                &&& final(self).spec_next_update() == if now as int + UPDATE_MS > i64::MAX {
                    i64::MAX
                } else {
                    (now + UPDATE_MS) as i64
                }
            },
    {
        let b = match self.bounds {
            Some(b) => b,
            None => {
                return Delta::empty();
            },
        };
        if now < self.next_update {
            return Delta::empty();
        }
        let no_bounds = b.zoom < MIN_ZOOM;
        let sampled = if no_bounds {
            manager.get_all_pilots()
        } else {
            manager.get_pilots(&b.rect, &self.subscriptions)
        };
        let pilots = match &self.filter {
            Some(f) => {
                let ghost all = views(sampled@);
                let ghost subs = string_views(self.subscriptions@);
                let ghost t = f.tree();
                let mut marks: Vec<bool> = Vec::new();
                let mut i: usize = 0;
                while i < sampled.len()
                    invariant
                        i <= sampled.len(),
                        all == views(sampled@),
                        subs == string_views(self.subscriptions@),
                        t == f.tree(),
                        t.well_formed(),
                        marks@.len() == i,
                        forall|k: int|
                            0 <= k < i ==> #[trigger] marks@[k] == (subs.contains(all[k].callsign)
                                || admits(t, all[k])),
                    decreases sampled.len() - i,
                {
                    assert(all[i as int] == sampled@[i as int]@);
                    proof {
                        lemma_admits(t, &sampled@[i as int]);
                        lemma_well_formed_connected(t);
                    }
                    let keep = has_text(&self.subscriptions, sampled[i].callsign.as_str())
                        || f.evaluate(&sampled[i]);
                    marks.push(keep);
                    i += 1;
                }
                assert(marks@ =~= Seq::new(
                    all.len(),
                    |i: int| subs.contains(all[i].callsign) || admits(t, all[i]),
                ));
                crate::manager::select(&sampled, &marks)
            },
            None => sampled,
        };
        let (pilots_set, pilots_delete) = calc_pilots(&pilots, &mut self.pilots_state);
        let airports = if no_bounds {
            manager.get_all_airports(self.show_wx)
        } else {
            manager.get_airports(&b.rect, self.show_wx)
        };
        let (airports_set, airports_delete) = calc_airports(&airports, &mut self.airports_state);
        let firs = if no_bounds {
            manager.get_all_firs()
        } else {
            manager.get_firs(&b.rect)
        };
        let (firs_set, firs_delete) = calc_firs(&firs, &mut self.firs_state);
        self.next_update = if now > i64::MAX - UPDATE_MS { i64::MAX } else { now + UPDATE_MS };
        Delta { pilots_set, pilots_delete, airports_set, airports_delete, firs_set, firs_delete }
    }
}

/// A viewer that is updated twice while nothing changes is told of no pilot
/// the second time: none is news to it, and none is gone. What the viewer
/// knows after the first update is what it knew with the pilots of the
/// update taken in, without those that were not among them.
pub proof fn lemma_second_update(session: Session, manager: Manager)
    requires
        session.wf(),
        manager.wf(),
        session.spec_bounds() is Some,
    ensures
        ({
            let pilots = passing(
                session.pilots_sampled(&manager),
                session.spec_subscriptions(),
                session.spec_filter(),
            );
            let first = known_after::<Pilot>(session.spec_pilots(), pilots, pilots.len() as int);
            let kept = still_there::<Pilot>(first, pilots, first.len() as int);
            &&& news::<Pilot>(kept, pilots, pilots.len() as int) == Seq::<PilotView>::empty()
            &&& gone::<Pilot>(kept, pilots, kept.len() as int) == Seq::<PilotView>::empty()
            &&& still_there::<Pilot>(
                known_after::<Pilot>(kept, pilots, pilots.len() as int),
                pilots,
                kept.len() as int,
            ) == kept
        }),
{
    let all = views(manager.spec_pilots().spec_values());
    let sampled = session.pilots_sampled(&manager);
    let pilots = passing(sampled, session.spec_subscriptions(), session.spec_filter());
    manager.lemma_pilots_distinct();
    let b = session.spec_bounds()->0;
    if b.zoom >= MIN_ZOOM {
        lemma_selected_distinct::<Pilot>(
            all,
            Seq::new(
                manager.spec_pilots().spec_keys().len(),
                |i: int|
                    manager.pilot_shown(
                        b.rect,
                        session.spec_subscriptions(),
                        manager.spec_pilots().spec_keys()[i],
                    ),
            ),
            manager.spec_pilots().spec_keys().len() as int,
        );
    }
    match session.spec_filter() {
        Some(t) => {
            lemma_selected_distinct::<Pilot>(
                sampled,
                Seq::new(
                    sampled.len(),
                    |i: int|
                        session.spec_subscriptions().contains(sampled[i].callsign) || admits(
                            t,
                            sampled[i],
                        ),
                ),
                sampled.len() as int,
            );
        },
        None => {},
    }
    lemma_second_look_at_pilots(session.spec_pilots(), pilots);
}

/// Reads and compiles a query for pilots; nothing comes back for the empty
/// query, and for one that cannot be read or compiled.
pub fn compile_query(query: &str) -> (r: Option<Expression<PilotFilter>>)
    ensures
        r is Some <==> spec_filter(query@) is Some,
        r is Some ==> r->0.tree() == spec_filter(query@)->0 && r->0.tree().well_formed(),
{
    if query.unicode_len() == 0 {
        return None;
    }
    match make_expr::<PilotFilter>(query) {
        Ok(expr) => {
            let mut expr = expr;
            proof {
                lemma_compiled_can_be_evaluated(expr.tree());
            }
            match expr.compile() {
                Ok(_) => Some(expr),
                Err(_) => None,
            }
        },
        Err(_) => None,
    }
}

/// What is said of a query that was checked.
#[derive(Debug)]
pub struct QueryResponse {
    pub valid: bool,
    pub error_message: Option<String>,
}

/// What is wrong with a query, if anything: it cannot be read, or it cannot
/// be compiled for pilots.
pub open spec fn query_fault(query: Seq<char>) -> Option<Seq<char>> {
    match spec_parse(lex(query), 0) {
        Ok(t) => match t.compiled::<PilotFilter>().1 {
            Some(reason) => Some("compilation error: "@ + reason),
            None => None,
        },
        Err(e) => Some(e.message()),
    }
}

/// Checks whether a query can be read and compiled for pilots.
pub fn check_query(query: &str) -> (r: QueryResponse)
    ensures
        r.valid == query_fault(query@) is None,
        crate::text::opt_text(r.error_message) == query_fault(query@),
{
    match make_expr::<PilotFilter>(query) {
        Ok(expr) => {
            let mut expr = expr;
            match expr.compile() {
                Ok(_) => QueryResponse { valid: true, error_message: None },
                Err(err) => QueryResponse { valid: false, error_message: Some(err.to_string()) },
            }
        },
        Err(err) => QueryResponse { valid: false, error_message: Some(err.to_string()) },
    }
}

/// The pilots that an answer to a query lists: all pilots for the empty
/// query, else those that the query holds of.
pub open spec fn listed(pilots: Seq<PilotView>, query: Seq<char>) -> Seq<PilotView> {
    if query.len() == 0 {
        pilots
    } else {
        let t = spec_parse(lex(query), 0)->Ok_0.compiled::<PilotFilter>().0;
        selected(pilots, Seq::new(pilots.len(), |i: int| admits(t, pilots[i])), pilots.len() as int)
    }
}

/// Why a query cannot be answered, if it cannot.
pub open spec fn list_fault(query: Seq<char>) -> Option<Seq<char>> {
    if query.len() == 0 {
        None
    } else {
        match spec_parse(lex(query), 0) {
            Ok(t) => match t.compiled::<PilotFilter>().1 {
                Some(reason) => Some("query compile error: "@ + "compilation error: "@ + reason),
                None => None,
            },
            Err(e) => Some("query parse error: "@ + e.message()),
        }
    }
}

/// The pilots online that `query` holds of.
pub fn list_pilots(manager: &Manager, query: &str) -> (r: Result<Vec<Pilot>, String>)
    requires
        manager.wf(),
    ensures
        match list_fault(query@) {
            Some(fault) => r is Err && r->Err_0@ == fault,
            None => r is Ok && views(r->Ok_0@) == listed(
                views(manager.spec_pilots().spec_values()),
                query@,
            ),
        },
{
    let pilots = manager.get_all_pilots();
    if query.unicode_len() == 0 {
        return Ok(pilots);
    }
    let mut expr = match make_expr::<PilotFilter>(query) {
        Ok(expr) => expr,
        Err(err) => {
            let mut msg = String::new();
            push_str(&mut msg, "query parse error: ");
            let text = err.to_string();
            push_str(&mut msg, text.as_str());
            assert(msg@ =~= "query parse error: "@ + err@.message());
            return Err(msg);
        },
    };
    proof {
        lemma_compiled_can_be_evaluated(expr.tree());
    }
    match expr.compile() {
        Ok(_) => {},
        Err(err) => {
            let mut msg = String::new();
            push_str(&mut msg, "query compile error: ");
            let text = err.to_string();
            push_str(&mut msg, text.as_str());
            assert(msg@ =~= "query compile error: "@ + "compilation error: "@ + err.msg@);
            return Err(msg);
        },
    }
    let ghost all = views(pilots@);
    let ghost t = expr.tree();
    let mut marks: Vec<bool> = Vec::new();
    let mut i: usize = 0;
    while i < pilots.len()
        invariant
            i <= pilots.len(),
            all == views(pilots@),
            t == expr.tree(),
            t.well_formed(),
            marks@.len() == i,
            forall|k: int| 0 <= k < i ==> #[trigger] marks@[k] == admits(t, all[k]),
        decreases pilots.len() - i,
    {
        assert(all[i as int] == pilots@[i as int]@);
        proof {
            lemma_admits(t, &pilots@[i as int]);
            lemma_well_formed_connected(t);
        }
        marks.push(expr.evaluate(&pilots[i]));
        i += 1;
    }
    assert(marks@ =~= Seq::new(all.len(), |i: int| admits(t, all[i])));
    Ok(crate::manager::select(&pilots, &marks))
}

} // verus!

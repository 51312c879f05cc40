//! The reference data as a whole, and how it is looked up and kept up to
//! date with the controllers that are online.

use super::geonames::Geonames;
use super::types::{Airport, AirportView, Country, CountryView, GeonamesCountry, FIR, FIRView, UIR, UIRView};
use crate::moving::controller::{Controller, ControllerSetView, ControllerView, Facility};
use crate::text::{chars_of, push_str, string_of, string_views, views};
use crate::types::Point;
use crate::weather::ext_types::WeatherInfo;
use vstd::prelude::*;

verus! {

/// The first `n` characters of `s`, or all of it where it is shorter.
pub open spec fn prefix_of(s: Seq<char>, n: int) -> Seq<char> {
    if s.len() <= n {
        s
    } else {
        s.subrange(0, n)
    }
}

/// Where the first `_` of `s` stands at or behind `i`, or the length of `s`.
pub open spec fn underscore_at(s: Seq<char>, i: int) -> int
    decreases s.len() - i,
{
    if i < 0 || i >= s.len() {
        s.len() as int
    } else if s[i] == '_' {
        i
    } else {
        underscore_at(s, i + 1)
    }
}

/// What stands before the first `_` of a callsign: the code of the place
/// that the controller looks after.
pub open spec fn first_token(callsign: Seq<char>) -> Seq<char> {
    callsign.subrange(0, underscore_at(callsign, 0))
}

/// The last of the first `n` airports with the code `code` of the
/// association of airlines; no airport has the empty code.
pub open spec fn airport_by_iata(airports: Seq<AirportView>, code: Seq<char>, n: int) -> Option<int>
    decreases n,
{
    if n <= 0 || n > airports.len() || code.len() == 0 {
        None
    } else if airports[n - 1].iata == code {
        Some(n - 1)
    } else {
        airport_by_iata(airports, code, n - 1)
    }
}

/// The first airport from `from` on with the code `code` of the
/// organisation of civil aviation; no airport has the empty code.
pub open spec fn airport_by_icao(airports: Seq<AirportView>, code: Seq<char>, from: int) -> Option<
    int,
>
    decreases airports.len() - from,
{
    if from < 0 || from >= airports.len() || code.len() == 0 {
        None
    } else if airports[from].icao == code {
        Some(from)
    } else {
        airport_by_icao(airports, code, from + 1)
    }
}

/// The airport that `code` means: its first four characters are taken for
/// the code of the association of airlines first, then for that of the
/// organisation of civil aviation.
pub open spec fn spec_airport_idx(airports: Seq<AirportView>, code: Seq<char>) -> Option<int> {
    match airport_by_iata(airports, prefix_of(code, 4), airports.len() as int) {
        Some(i) => Some(i),
        None => airport_by_icao(airports, prefix_of(code, 4), 0),
    }
}

/// The last of the first `n` airports with the compound identifier `id`.
pub open spec fn airport_by_compound(airports: Seq<AirportView>, id: Seq<char>, n: int) -> Option<
    int,
>
    decreases n,
{
    if n <= 0 || n > airports.len() {
        None
    } else if airports[n - 1].compound_id() == id {
        Some(n - 1)
    } else {
        airport_by_compound(airports, id, n - 1)
    }
}

/// The last of the first `n` countries with the prefix `prefix`.
pub open spec fn country_by_prefix(countries: Seq<CountryView>, prefix: Seq<char>, n: int) -> Option<
    int,
>
    decreases n,
{
    if n <= 0 || n > countries.len() {
        None
    } else if countries[n - 1].prefix == prefix {
        Some(n - 1)
    } else {
        country_by_prefix(countries, prefix, n - 1)
    }
}

/// The last of the first `n` regions with the code `icao`.
pub open spec fn fir_by_icao(firs: Seq<FIRView>, icao: Seq<char>, n: int) -> Option<int>
    decreases n,
{
    if n <= 0 || n > firs.len() {
        None
    } else if firs[n - 1].icao == icao {
        Some(n - 1)
    } else {
        fir_by_icao(firs, icao, n - 1)
    }
}

/// The last of the first `n` regions with the prefix `prefix`.
pub open spec fn fir_by_prefix(firs: Seq<FIRView>, prefix: Seq<char>, n: int) -> Option<int>
    decreases n,
{
    if n <= 0 || n > firs.len() {
        None
    } else if firs[n - 1].prefix == prefix {
        Some(n - 1)
    } else {
        fir_by_prefix(firs, prefix, n - 1)
    }
}

/// The region that goes by `name`: by its code, else by its prefix.
pub open spec fn fir_by_name(firs: Seq<FIRView>, name: Seq<char>) -> Option<int> {
    match fir_by_icao(firs, name, firs.len() as int) {
        Some(i) => Some(i),
        None => fir_by_prefix(firs, name, firs.len() as int),
    }
}

/// The last of the first `n` upper regions with the code `icao`.
pub open spec fn uir_by_icao(uirs: Seq<UIRView>, icao: Seq<char>, n: int) -> Option<int>
    decreases n,
{
    if n <= 0 || n > uirs.len() {
        None
    } else if uirs[n - 1].icao == icao {
        Some(n - 1)
    } else {
        uir_by_icao(uirs, icao, n - 1)
    }
}

/// The regions that the first `n` of `names` go by, in their order; a name
/// that no region goes by is passed over.
pub open spec fn firs_by_names(firs: Seq<FIRView>, names: Seq<Seq<char>>, n: int) -> Seq<int>
    decreases n,
{
    if n <= 0 || n > names.len() {
        Seq::empty()
    } else {
        match fir_by_name(firs, names[n - 1]) {
            Some(i) => firs_by_names(firs, names, n - 1).push(i),
            None => firs_by_names(firs, names, n - 1),
        }
    }
}

/// The regions that `query` means. It is taken for the name of a region
/// first, then for an airport, which stands for its region, and at last
/// for an upper region, which stands for all its regions.
pub open spec fn spec_fir_indices(
    firs: Seq<FIRView>,
    airports: Seq<AirportView>,
    uirs: Seq<UIRView>,
    query: Seq<char>,
) -> Seq<int> {
    match fir_by_name(firs, query) {
        Some(i) => seq![i],
        None => {
            let via_airport = match spec_airport_idx(airports, query) {
                Some(a) => if airports[a].fir_id.len() > 0 {
                    fir_by_name(firs, airports[a].fir_id)
                } else {
                    None
                },
                None => None,
            };
            match via_airport {
                Some(i) => seq![i],
                None => match uir_by_icao(uirs, query, uirs.len() as int) {
                    Some(u) => firs_by_names(firs, uirs[u].fir_ids, uirs[u].fir_ids.len() as int),
                    None => Seq::empty(),
                },
            }
        },
    }
}

/// What a controller of an airport is called: the name of the airport and
/// that of the facility.
pub open spec fn airport_label(name: Seq<char>, facility: Facility) -> Seq<char> {
    name + " "@ + facility.spec_title()
}

/// What a controller of a region is called: the name of the region and,
/// where the country has one, its name for those who control.
pub open spec fn fir_label(name: Seq<char>, control_name: Option<Seq<char>>) -> Seq<char> {
    match control_name {
        Some(cn) => name + " "@ + cn,
        None => name,
    }
}

impl ControllerSetView {
    /// The controllers with `ctrl` in the place of its facility.
    pub open spec fn with(self, ctrl: ControllerView) -> ControllerSetView {
        match ctrl.facility {
            Facility::ATIS => ControllerSetView { atis: Some(ctrl), ..self },
            Facility::Delivery => ControllerSetView { delivery: Some(ctrl), ..self },
            Facility::Ground => ControllerSetView { ground: Some(ctrl), ..self },
            Facility::Tower => ControllerSetView { tower: Some(ctrl), ..self },
            Facility::Approach => ControllerSetView { approach: Some(ctrl), ..self },
            _ => self,
        }
    }

    /// The controllers with nobody in the place of `facility`.
    pub open spec fn without(self, facility: Facility) -> ControllerSetView {
        match facility {
            Facility::ATIS => ControllerSetView { atis: None, ..self },
            Facility::Delivery => ControllerSetView { delivery: None, ..self },
            Facility::Ground => ControllerSetView { ground: None, ..self },
            Facility::Tower => ControllerSetView { tower: None, ..self },
            Facility::Approach => ControllerSetView { approach: None, ..self },
            _ => self,
        }
    }
}

impl Facility {
    /// Whether the facility belongs to an airport.
    pub open spec fn at_airport(self) -> bool {
        self != Facility::Radar && self != Facility::Reject
    }
}

impl AirportView {
    /// The airport after `ctrl` has taken the place of its facility: the
    /// controller is called after the airport, and a broadcast marks the
    /// runways anew.
    pub open spec fn with_controller(self, ctrl: ControllerView) -> AirportView {
        let named = ControllerView {
            human_readable: Some(airport_label(self.name, ctrl.facility)),
            ..ctrl
        };
        let staffed = AirportView { controllers: self.controllers.with(named), ..self };
        if ctrl.facility == Facility::ATIS {
            AirportView { runways: staffed.active_runways(), ..staffed }
        } else {
            staffed
        }
    }

    /// The airport after the place of `facility` was left: without a
    /// broadcast no runway is marked.
    pub open spec fn without_controller(self, facility: Facility) -> AirportView {
        let left = AirportView { controllers: self.controllers.without(facility), ..self };
        if facility == Facility::ATIS {
            AirportView { runways: super::types::unmarked(self.runways), ..left }
        } else {
            left
        }
    }
}

/// The index of the first of the first `n` controllers... counted from the
/// end: the last with the callsign `callsign`.
pub open spec fn controller_at(controllers: Seq<ControllerView>, callsign: Seq<char>, n: int)
    -> Option<int>
    decreases n,
{
    if n <= 0 || n > controllers.len() {
        None
    } else if controllers[n - 1].callsign == callsign {
        Some(n - 1)
    } else {
        controller_at(controllers, callsign, n - 1)
    }
}

/// The controllers with `ctrl` in the place of the one with its callsign,
/// or behind all others.
pub open spec fn controllers_with(controllers: Seq<ControllerView>, ctrl: ControllerView) -> Seq<
    ControllerView,
> {
    match controller_at(controllers, ctrl.callsign, controllers.len() as int) {
        Some(i) => controllers.update(i, ctrl),
        None => controllers.push(ctrl),
    }
}

/// The controllers without the one with the callsign `callsign`.
pub open spec fn controllers_without(controllers: Seq<ControllerView>, callsign: Seq<char>) -> Seq<
    ControllerView,
> {
    match controller_at(controllers, callsign, controllers.len() as int) {
        Some(i) => controllers.remove(i),
        None => controllers,
    }
}

impl FIRView {
    /// The region after `ctrl` has come to look after it. Where the country
    /// of the controller is known, the controller is called after the
    /// region.
    pub open spec fn with_controller(
        self,
        ctrl: ControllerView,
        country: Option<CountryView>,
    ) -> FIRView {
        let named = match country {
            Some(c) => ControllerView {
                human_readable: Some(fir_label(self.name, c.control_name)),
                ..ctrl
            },
            None => ctrl,
        };
        FIRView { controllers: controllers_with(self.controllers, named), ..self }
    }

    pub open spec fn without_controller(self, callsign: Seq<char>) -> FIRView {
        FIRView { controllers: controllers_without(self.controllers, callsign), ..self }
    }
}

/// The regions after `ctrl` has come to look after the first `n` of those
/// that `indices` names.
pub open spec fn firs_with_controller(
    firs: Seq<FIRView>,
    indices: Seq<int>,
    n: int,
    ctrl: ControllerView,
    country: Option<CountryView>,
) -> Seq<FIRView>
    decreases n,
{
    if n <= 0 || n > indices.len() {
        firs
    } else {
        let before = firs_with_controller(firs, indices, n - 1, ctrl, country);
        let i = indices[n - 1];
        if 0 <= i < before.len() {
            before.update(i, before[i].with_controller(ctrl, country))
        } else {
            before
        }
    }
}

/// The regions after the controller `callsign` has left the first `n` of
/// those that `indices` names.
pub open spec fn firs_without_controller(
    firs: Seq<FIRView>,
    indices: Seq<int>,
    n: int,
    callsign: Seq<char>,
) -> Seq<FIRView>
    decreases n,
{
    if n <= 0 || n > indices.len() {
        firs
    } else {
        let before = firs_without_controller(firs, indices, n - 1, callsign);
        let i = indices[n - 1];
        if 0 <= i < before.len() {
            before.update(i, before[i].without_controller(callsign))
        } else {
            before
        }
    }
}

/// The indices as whole numbers.
pub open spec fn index_views(indices: Seq<usize>) -> Seq<int> {
    indices.map_values(|i: usize| i as int)
}

/// What stands before the first `_` of `callsign`.
pub fn callsign_code(callsign: &str) -> (r: String)
    ensures
        r@ == first_token(callsign@),
{
    let v = chars_of(callsign);
    let mut out: Vec<char> = Vec::new();
    let mut i: usize = 0;
    assert(out@ =~= v@.subrange(0, 0));
    while i < v.len() && v[i] != '_'
        invariant
            i <= v.len(),
            out@ == v@.subrange(0, i as int),
            underscore_at(v@, 0) == underscore_at(v@, i as int),
        decreases v.len() - i,
    {
        out.push(v[i]);
        i += 1;
        assert(out@ =~= v@.subrange(0, i as int));
    }
    string_of(&out)
}

/// The first `n` characters of `s`.
pub fn take_prefix(s: &str, n: usize) -> (r: String)
    ensures
        r@ == prefix_of(s@, n as int),
{
    let v = chars_of(s);
    if v.len() <= n {
        return string_of(&v);
    }
    let mut out: Vec<char> = Vec::new();
    let mut i: usize = 0;
    assert(out@ =~= v@.subrange(0, 0));
    while i < n
        invariant
            i <= n < v.len(),
            out@ == v@.subrange(0, i as int),
        decreases n - i,
    {
        out.push(v[i]);
        i += 1;
        assert(out@ =~= v@.subrange(0, i as int));
    }
    string_of(&out)
}

/// The reference data: countries, airports, regions and upper regions, and
/// the countries of the gazetteer.
#[derive(Debug)]
pub struct FixedData {
    countries: Vec<Country>,
    airports: Vec<Airport>,
    firs: Vec<FIR>,
    uirs: Vec<UIR>,
    geonames: Geonames,
}

impl FixedData {
    pub closed spec fn spec_countries(&self) -> Seq<CountryView> {
        views(self.countries@)
    }

    pub closed spec fn spec_airports(&self) -> Seq<AirportView> {
        views(self.airports@)
    }

    pub closed spec fn spec_firs(&self) -> Seq<FIRView> {
        views(self.firs@)
    }

    pub closed spec fn spec_uirs(&self) -> Seq<UIRView> {
        views(self.uirs@)
    }

    pub closed spec fn spec_geonames(&self) -> Geonames {
        self.geonames
    }

    pub closed spec fn wf(&self) -> bool {
        self.geonames.wf()
    }

    /// Whether all but the airports and the regions is as in `other`.
    pub open spec fn same_frame(&self, other: &Self) -> bool {
        &&& self.spec_countries() == other.spec_countries()
        &&& self.spec_uirs() == other.spec_uirs()
        &&& self.spec_geonames() == other.spec_geonames()
        &&& self.wf() == other.wf()
    }

    pub fn empty() -> (r: Self)
        ensures
            r.wf(),
            r.spec_countries() == Seq::<CountryView>::empty(),
            r.spec_airports() == Seq::<AirportView>::empty(),
            r.spec_firs() == Seq::<FIRView>::empty(),
            r.spec_uirs() == Seq::<UIRView>::empty(),
            r.spec_geonames().spec_countries().len() == 0,
            r.spec_geonames().spec_shapes().len() == 0,
    {
        let r = FixedData {
            countries: Vec::new(),
            airports: Vec::new(),
            firs: Vec::new(),
            uirs: Vec::new(),
            geonames: Geonames::empty(),
        };
        assert(r.spec_countries() =~= Seq::<CountryView>::empty());
        assert(r.spec_airports() =~= Seq::<AirportView>::empty());
        assert(r.spec_firs() =~= Seq::<FIRView>::empty());
        assert(r.spec_uirs() =~= Seq::<UIRView>::empty());
        r
    }

    /// Takes over all that `other` holds.
    pub fn fill(&mut self, other: FixedData)
        ensures
            *final(self) == other,
    {
        *self = other;
    }

    pub fn new(
        countries: Vec<Country>,
        airports: Vec<Airport>,
        firs: Vec<FIR>,
        uirs: Vec<UIR>,
        geonames: Geonames,
    ) -> (r: Self)
        requires
            geonames.wf(),
        ensures
            r.wf(),
            r.spec_countries() == views(countries@),
            r.spec_airports() == views(airports@),
            r.spec_firs() == views(firs@),
            r.spec_uirs() == views(uirs@),
            r.spec_geonames() == geonames,
    {
        FixedData { countries, airports, firs, uirs, geonames }
    }

    pub fn airports(&self) -> (r: &Vec<Airport>)
        ensures
            views(r@) == self.spec_airports(),
    {
        &self.airports
    }

    pub fn firs(&self) -> (r: &Vec<FIR>)
        ensures
            views(r@) == self.spec_firs(),
    {
        &self.firs
    }

    fn find_fir_idx_by_icao(&self, query: &str) -> (r: Option<usize>)
        ensures
            r is Some <==> fir_by_icao(self.spec_firs(), query@, self.spec_firs().len() as int)
                is Some,
            r is Some ==> r->0 < self.firs@.len() && r->0 == fir_by_icao(
                self.spec_firs(),
                query@,
                self.spec_firs().len() as int,
            )->0,
    {
        let wanted = query.to_owned();
        let mut n: usize = self.firs.len();
        while n > 0
            invariant
                n <= self.firs@.len(),
                wanted@ == query@,
                fir_by_icao(self.spec_firs(), query@, self.spec_firs().len() as int)
                    == fir_by_icao(self.spec_firs(), query@, n as int),
            decreases n,
        {
            assert(self.spec_firs()[n - 1] == self.firs@[n - 1]@);
            if self.firs[n - 1].icao == wanted {
                return Some(n - 1);
            }
            n -= 1;
        }
        None
    }

    fn find_fir_idx_by_prefix(&self, query: &str) -> (r: Option<usize>)
        ensures
            r is Some <==> fir_by_prefix(self.spec_firs(), query@, self.spec_firs().len() as int)
                is Some,
            r is Some ==> r->0 < self.firs@.len() && r->0 == fir_by_prefix(
                self.spec_firs(),
                query@,
                self.spec_firs().len() as int,
            )->0,
    {
        let wanted = query.to_owned();
        let mut n: usize = self.firs.len();
        while n > 0
            invariant
                n <= self.firs@.len(),
                wanted@ == query@,
                fir_by_prefix(self.spec_firs(), query@, self.spec_firs().len() as int)
                    == fir_by_prefix(self.spec_firs(), query@, n as int),
            decreases n,
        {
            assert(self.spec_firs()[n - 1] == self.firs@[n - 1]@);
            if self.firs[n - 1].prefix == wanted {
                return Some(n - 1);
            }
            n -= 1;
        }
        None
    }

    fn find_fir_idx(&self, name: &str) -> (r: Option<usize>)
        ensures
            r is Some <==> fir_by_name(self.spec_firs(), name@) is Some,
            r is Some ==> r->0 < self.firs@.len() && r->0 == fir_by_name(self.spec_firs(), name@)->0,
    {
        match self.find_fir_idx_by_icao(name) {
            Some(i) => Some(i),
            None => self.find_fir_idx_by_prefix(name),
        }
    }

    fn find_uir_idx(&self, query: &str) -> (r: Option<usize>)
        ensures
            r is Some <==> uir_by_icao(self.spec_uirs(), query@, self.spec_uirs().len() as int)
                is Some,
            r is Some ==> r->0 < self.uirs@.len() && r->0 == uir_by_icao(
                self.spec_uirs(),
                query@,
                self.spec_uirs().len() as int,
            )->0,
    {
        let wanted = query.to_owned();
        let mut n: usize = self.uirs.len();
        while n > 0
            invariant
                n <= self.uirs@.len(),
                wanted@ == query@,
                uir_by_icao(self.spec_uirs(), query@, self.spec_uirs().len() as int)
                    == uir_by_icao(self.spec_uirs(), query@, n as int),
            decreases n,
        {
            assert(self.spec_uirs()[n - 1] == self.uirs@[n - 1]@);
            if self.uirs[n - 1].icao == wanted {
                return Some(n - 1);
            }
            n -= 1;
        }
        None
    }

    /// The regions that `query` means, as indices into the list of regions.
    pub fn find_fir_indices(&self, query: &str) -> (r: Vec<usize>)
        ensures
            index_views(r@) == spec_fir_indices(
                self.spec_firs(),
                self.spec_airports(),
                self.spec_uirs(),
                query@,
            ),
            forall|k: int| 0 <= k < r@.len() ==> #[trigger] r@[k] < self.spec_firs().len(),
    {
        match self.find_fir_idx(query) {
            Some(idx) => {
                let r = vec![idx];
                assert(index_views(r@) =~= seq![idx as int]);
                return r;
            },
            None => {},
        }
        match self.find_airport_idx(query) {
            Some(a) => {
                assert(self.spec_airports()[a as int] == self.airports@[a as int]@);
                if self.airports[a].fir_id.as_str().unicode_len() > 0 {
                    match self.find_fir_idx(self.airports[a].fir_id.as_str()) {
                        Some(idx) => {
                            let r = vec![idx];
                            assert(index_views(r@) =~= seq![idx as int]);
                            return r;
                        },
                        None => {},
                    }
                }
            },
            None => {},
        }
        let mut idcs: Vec<usize> = Vec::new();
        match self.find_uir_idx(query) {
            Some(u) => {
                assert(self.spec_uirs()[u as int] == self.uirs@[u as int]@);
                let names = &self.uirs[u].fir_ids;
                let ghost firs = self.spec_firs();
                let mut i: usize = 0;
                assert(index_views(idcs@) =~= Seq::<int>::empty());
                while i < names.len()
                    invariant
                        i <= names.len(),
                        firs == self.spec_firs(),
                        index_views(idcs@) == firs_by_names(firs, string_views(names@), i as int),
                        forall|k: int| 0 <= k < idcs@.len() ==> #[trigger] idcs@[k] < firs.len(),
                    decreases names.len() - i,
                {
                    let ghost before = index_views(idcs@);
                    assert(string_views(names@)[i as int] == names@[i as int]@);
                    match self.find_fir_idx(names[i].as_str()) {
                        Some(idx) => {
                            idcs.push(idx);
                            assert(index_views(idcs@) =~= before.push(idx as int));
                        },
                        None => {},
                    }
                    i += 1;
                }
                idcs
            },
            None => {
                assert(index_views(idcs@) =~= Seq::<int>::empty());
                idcs
            },
        }
    }

    /// The regions that `query` means.
    pub fn find_firs(&self, query: &str) -> (r: Vec<FIR>)
        ensures
            r@.len() == spec_fir_indices(
                self.spec_firs(),
                self.spec_airports(),
                self.spec_uirs(),
                query@,
            ).len(),
            forall|k: int|
                0 <= k < r@.len() ==> (#[trigger] r@[k])@ == self.spec_firs()[spec_fir_indices(
                    self.spec_firs(),
                    self.spec_airports(),
                    self.spec_uirs(),
                    query@,
                )[k]],
    {
        let indices = self.find_fir_indices(query);
        let mut r: Vec<FIR> = Vec::new();
        let mut i: usize = 0;
        while i < indices.len()
            invariant
                i <= indices.len(),
                r@.len() == i,
                forall|k: int|
                    0 <= k < indices@.len() ==> #[trigger] indices@[k] < self.spec_firs().len(),
                forall|k: int|
                    0 <= k < i ==> (#[trigger] r@[k])@ == self.spec_firs()[indices@[k] as int],
            decreases indices.len() - i,
        {
            assert(indices@[i as int] < self.spec_firs().len());
            assert(self.spec_firs()[indices@[i as int] as int] == self.firs@[indices@[i as int] as int]@);
            r.push(self.firs[indices[i]].clone());
            i += 1;
        }
        assert forall|k: int| 0 <= k < r@.len() implies (#[trigger] r@[k])@
            == self.spec_firs()[spec_fir_indices(
            self.spec_firs(),
            self.spec_airports(),
            self.spec_uirs(),
            query@,
        )[k]] by {
            assert(index_views(indices@)[k] == indices@[k] as int);
        }
        r
    }

    fn find_country_idx(&self, prefix: &str) -> (r: Option<usize>)
        ensures
            r is Some <==> country_by_prefix(
                self.spec_countries(),
                prefix@,
                self.spec_countries().len() as int,
            ) is Some,
            r is Some ==> r->0 < self.countries@.len() && r->0 == country_by_prefix(
                self.spec_countries(),
                prefix@,
                self.spec_countries().len() as int,
            )->0,
    {
        let wanted = prefix.to_owned();
        let mut n: usize = self.countries.len();
        while n > 0
            invariant
                n <= self.countries@.len(),
                wanted@ == prefix@,
                country_by_prefix(
                    self.spec_countries(),
                    prefix@,
                    self.spec_countries().len() as int,
                ) == country_by_prefix(self.spec_countries(), prefix@, n as int),
            decreases n,
        {
            assert(self.spec_countries()[n - 1] == self.countries@[n - 1]@);
            if self.countries[n - 1].prefix == wanted {
                return Some(n - 1);
            }
            n -= 1;
        }
        None
    }

    /// The country with the prefix `prefix`.
    pub open spec fn spec_country(&self, prefix: Seq<char>) -> Option<CountryView> {
        match country_by_prefix(
            self.spec_countries(),
            prefix,
            self.spec_countries().len() as int,
        ) {
            Some(i) => Some(self.spec_countries()[i]),
            None => None,
        }
    }

    pub fn find_country(&self, prefix: &str) -> (r: Option<Country>)
        ensures
            r is Some <==> self.spec_country(prefix@) is Some,
            r is Some ==> r->0@ == self.spec_country(prefix@)->0,
    {
        match self.find_country_idx(prefix) {
            Some(i) => {
                assert(self.spec_countries()[i as int] == self.countries@[i as int]@);
                Some(self.countries[i].clone())
            },
            None => None,
        }
    }

    /// The airport that `code` means, as an index into the list of
    /// airports.
    pub fn find_airport_idx(&self, code: &str) -> (r: Option<usize>)
        ensures
            r is Some <==> spec_airport_idx(self.spec_airports(), code@) is Some,
            r is Some ==> r->0 < self.spec_airports().len() && r->0 == spec_airport_idx(
                self.spec_airports(),
                code@,
            )->0,
    {
        let short = take_prefix(code, 4);
        let ghost c = short@;
        let ghost airports = self.spec_airports();
        if short.as_str().unicode_len() == 0 {
            return None;
        }
        let mut n: usize = self.airports.len();
        while n > 0
            invariant
                n <= self.airports@.len(),
                c == short@,
                c == prefix_of(code@, 4),
                c.len() > 0,
                airports == self.spec_airports(),
                airport_by_iata(airports, c, airports.len() as int) == airport_by_iata(
                    airports,
                    c,
                    n as int,
                ),
            decreases n,
        {
            assert(airports[n - 1] == self.airports@[n - 1]@);
            if self.airports[n - 1].iata == short {
                return Some(n - 1);
            }
            n -= 1;
        }
        let mut i: usize = 0;
        while i < self.airports.len()
            invariant
                i <= self.airports@.len(),
                c == short@,
                c == prefix_of(code@, 4),
                c.len() > 0,
                airports == self.spec_airports(),
                airport_by_iata(airports, c, airports.len() as int) is None,
                airport_by_icao(airports, c, 0) == airport_by_icao(airports, c, i as int),
            decreases self.airports@.len() - i,
        {
            assert(airports[i as int] == self.airports@[i as int]@);
            if self.airports[i].icao == short {
                return Some(i);
            }
            i += 1;
        }
        None
    }

    pub fn find_airport(&self, code: &str) -> (r: Option<Airport>)
        ensures
            r is Some <==> spec_airport_idx(self.spec_airports(), code@) is Some,
            r is Some ==> r->0@ == self.spec_airports()[spec_airport_idx(
                self.spec_airports(),
                code@,
            )->0],
    {
        match self.find_airport_idx(code) {
            Some(i) => {
                assert(self.spec_airports()[i as int] == self.airports@[i as int]@);
                Some(self.airports[i].clone())
            },
            None => None,
        }
    }

    /// The airport with the compound identifier `code`, as an index into
    /// the list of airports.
    pub fn find_airport_compound_idx(&self, code: &str) -> (r: Option<usize>)
        ensures
            r is Some <==> airport_by_compound(
                self.spec_airports(),
                code@,
                self.spec_airports().len() as int,
            ) is Some,
            r is Some ==> r->0 < self.spec_airports().len() && r->0 == airport_by_compound(
                self.spec_airports(),
                code@,
                self.spec_airports().len() as int,
            )->0,
    {
        let ghost airports = self.spec_airports();
        let mut n: usize = self.airports.len();
        while n > 0
            invariant
                n <= self.airports@.len(),
                airports == self.spec_airports(),
                airport_by_compound(airports, code@, airports.len() as int) == airport_by_compound(
                    airports,
                    code@,
                    n as int,
                ),
            decreases n,
        {
            assert(airports[n - 1] == self.airports@[n - 1]@);
            let id = self.airports[n - 1].compound_id();
            if crate::text::same_text(id.as_str(), code) {
                return Some(n - 1);
            }
            n -= 1;
        }
        None
    }

    pub fn find_airport_compound(&self, code: &str) -> (r: Option<Airport>)
        ensures
            r is Some <==> airport_by_compound(
                self.spec_airports(),
                code@,
                self.spec_airports().len() as int,
            ) is Some,
            r is Some ==> r->0@ == self.spec_airports()[airport_by_compound(
                self.spec_airports(),
                code@,
                self.spec_airports().len() as int,
            )->0],
    {
        let ghost airports = self.spec_airports();
        let mut n: usize = self.airports.len();
        while n > 0
            invariant
                n <= self.airports@.len(),
                airports == self.spec_airports(),
                airport_by_compound(airports, code@, airports.len() as int) == airport_by_compound(
                    airports,
                    code@,
                    n as int,
                ),
            decreases n,
        {
            assert(airports[n - 1] == self.airports@[n - 1]@);
            let id = self.airports[n - 1].compound_id();
            if crate::text::same_text(id.as_str(), code) {
                return Some(self.airports[n - 1].clone());
            }
            n -= 1;
        }
        None
    }

    pub fn get_geonames_country_by_position(&self, position: Point) -> (r: Option<
        GeonamesCountry,
    >)
        requires
            self.wf(),
        ensures
            r is Some <==> self.spec_geonames().spec_country_by_position(position) is Some,
            r is Some ==> r->0@ == self.spec_geonames().spec_country_by_position(position)->0,
    {
        self.geonames.get_country_by_position(position)
    }

    pub fn get_geonames_country_by_id(&self, id: &str) -> (r: Option<GeonamesCountry>)
        ensures
            r is Some <==> self.spec_geonames().spec_country_by_id(id@) is Some,
            r is Some ==> r->0@ == self.spec_geonames().spec_country_by_id(id@)->0,
    {
        self.geonames.get_country_by_id(id)
    }
}


fn controller_position(list: &Vec<Controller>, callsign: &String) -> (r: Option<usize>)
    ensures
        r is Some <==> controller_at(views(list@), callsign@, list@.len() as int) is Some,
        r is Some ==> r->0 < list@.len() && r->0 == controller_at(
            views(list@),
            callsign@,
            list@.len() as int,
        )->0,
{
    let mut n: usize = list.len();
    while n > 0
        invariant
            n <= list@.len(),
            controller_at(views(list@), callsign@, list@.len() as int) == controller_at(
                views(list@),
                callsign@,
                n as int,
            ),
        decreases n,
    {
        assert(views(list@)[n - 1] == list@[n - 1]@);
        if list[n - 1].callsign == *callsign {
            return Some(n - 1);
        }
        n -= 1;
    }
    None
}

fn put_controller(list: &mut Vec<Controller>, ctrl: Controller)
    ensures
        views(final(list)@) == controllers_with(views(old(list)@), ctrl@),
{
    let ghost before = views(list@);
    match controller_position(list, &ctrl.callsign) {
        Some(i) => {
            list[i] = ctrl;
            assert(views(list@) =~= before.update(i as int, ctrl@));
        },
        None => {
            list.push(ctrl);
            assert(views(list@) =~= before.push(ctrl@));
        },
    }
}

fn drop_controller(list: &mut Vec<Controller>, callsign: &String)
    ensures
        views(final(list)@) == controllers_without(views(old(list)@), callsign@),
{
    let ghost before = views(list@);
    match controller_position(list, callsign) {
        Some(i) => {
            list.remove(i);
            assert(views(list@) =~= before.remove(i as int));
        },
        None => {},
    }
}

impl FixedData {
    /// Notes the weather `wx` at the airport that `icao` means, if there is
    /// such an airport.
    pub fn set_airport_weather(&mut self, icao: &str, wx: WeatherInfo)
        ensures
            final(self).same_frame(old(self)),
            final(self).spec_firs() == old(self).spec_firs(),
            final(self).spec_airports() == match spec_airport_idx(old(self).spec_airports(), icao@) {
                Some(i) => old(self).spec_airports().update(
                    i,
                    AirportView { wx: Some(wx@), ..old(self).spec_airports()[i] },
                ),
                None => old(self).spec_airports(),
            },
    {
        let ghost before = self.spec_airports();
        match self.find_airport_idx(icao) {
            Some(idx) => {
                assert(before[idx as int] == self.airports@[idx as int]@);
                let mut arpt = self.airports[idx].clone();
                arpt.wx = Some(wx);
                self.airports[idx] = arpt;
                assert(self.spec_airports() =~= before.update(
                    idx as int,
                    AirportView { wx: Some(wx@), ..before[idx as int] },
                ));
            },
            None => {},
        }
    }

    /// Puts the controller `ctrl` of an airport in its place at the airport
    /// that the callsign means, and gives back the airport as it is then.
    /// Nothing happens where the callsign means no airport.
    pub fn set_airport_controller(&mut self, ctrl: Controller) -> (r: Option<Airport>)
        requires
            ctrl.facility.at_airport() || spec_airport_idx(
                old(self).spec_airports(),
                first_token(ctrl@.callsign),
            ) is None,
        ensures
            final(self).same_frame(old(self)),
            final(self).spec_firs() == old(self).spec_firs(),
            match spec_airport_idx(old(self).spec_airports(), first_token(ctrl@.callsign)) {
                Some(i) => final(self).spec_airports() == old(self).spec_airports().update(
                    i,
                    old(self).spec_airports()[i].with_controller(ctrl@),
                ) && r is Some && r->0@ == old(self).spec_airports()[i].with_controller(ctrl@),
                None => final(self).spec_airports() == old(self).spec_airports() && r is None,
            },
    {
        let ghost before = self.spec_airports();
        let code = callsign_code(ctrl.callsign.as_str());
        let idx = match self.find_airport_idx(code.as_str()) {
            Some(idx) => idx,
            None => {
                return None;
            },
        };
        assert(before[idx as int] == self.airports@[idx as int]@);
        let mut arpt = self.airports[idx].clone();
        let mut ctrl = ctrl;
        let ghost given = ctrl@;
        let mut label = String::new();
        push_str(&mut label, arpt.name.as_str());
        push_str(&mut label, " ");
        push_str(&mut label, ctrl.facility.title());
        assert(label@ =~= airport_label(arpt.name@, ctrl.facility));
        ctrl.human_readable = Some(label);
        match ctrl.facility {
            Facility::ATIS => {
                arpt.controllers.atis = Some(ctrl);
                arpt.set_active_runways();
            },
            Facility::Delivery => {
                arpt.controllers.delivery = Some(ctrl);
            },
            Facility::Ground => {
                arpt.controllers.ground = Some(ctrl);
            },
            Facility::Tower => {
                arpt.controllers.tower = Some(ctrl);
            },
            _ => {
                arpt.controllers.approach = Some(ctrl);
            },
        }
        assert(arpt@ == before[idx as int].with_controller(given));
        let out = arpt.clone();
        self.airports[idx] = arpt;
        assert(self.spec_airports() =~= before.update(
            idx as int,
            before[idx as int].with_controller(given),
        ));
        Some(out)
    }

    /// Takes the controller `ctrl` of an airport out of its place at the
    /// airport that the callsign means.
    pub fn reset_airport_controller(&mut self, ctrl: &Controller)
        requires
            ctrl.facility.at_airport() || spec_airport_idx(
                old(self).spec_airports(),
                first_token(ctrl@.callsign),
            ) is None,
        ensures
            final(self).same_frame(old(self)),
            final(self).spec_firs() == old(self).spec_firs(),
            final(self).spec_airports() == match spec_airport_idx(
                old(self).spec_airports(),
                first_token(ctrl@.callsign),
            ) {
                Some(i) => old(self).spec_airports().update(
                    i,
                    old(self).spec_airports()[i].without_controller(ctrl.facility),
                ),
                None => old(self).spec_airports(),
            },
    {
        let ghost before = self.spec_airports();
        let code = callsign_code(ctrl.callsign.as_str());
        let idx = match self.find_airport_idx(code.as_str()) {
            Some(idx) => idx,
            None => {
                return ;
            },
        };
        assert(before[idx as int] == self.airports@[idx as int]@);
        let mut arpt = self.airports[idx].clone();
        match ctrl.facility {
            Facility::ATIS => {
                arpt.controllers.atis = None;
                arpt.reset_active_runways();
            },
            Facility::Delivery => {
                arpt.controllers.delivery = None;
            },
            Facility::Ground => {
                arpt.controllers.ground = None;
            },
            Facility::Tower => {
                arpt.controllers.tower = None;
            },
            _ => {
                arpt.controllers.approach = None;
            },
        }
        assert(arpt@ == before[idx as int].without_controller(ctrl.facility));
        self.airports[idx] = arpt;
        assert(self.spec_airports() =~= before.update(
            idx as int,
            before[idx as int].without_controller(ctrl.facility),
        ));
    }

    /// Lets the controller `ctrl` look after the regions that the callsign
    /// means, and gives back the last of them as it is then. The country of
    /// the controller is the one whose prefix the callsign starts with.
    pub fn set_fir_controller(&mut self, ctrl: Controller) -> (r: Option<FIR>)
        ensures
            final(self).same_frame(old(self)),
            final(self).spec_airports() == old(self).spec_airports(),
            final(self).spec_firs() == firs_with_controller(
                old(self).spec_firs(),
                spec_fir_indices(
                    old(self).spec_firs(),
                    old(self).spec_airports(),
                    old(self).spec_uirs(),
                    first_token(ctrl@.callsign),
                ),
                spec_fir_indices(
                    old(self).spec_firs(),
                    old(self).spec_airports(),
                    old(self).spec_uirs(),
                    first_token(ctrl@.callsign),
                ).len() as int,
                ctrl@,
                old(self).spec_country(prefix_of(first_token(ctrl@.callsign), 2)),
            ),
            r is Some <==> spec_fir_indices(
                old(self).spec_firs(),
                old(self).spec_airports(),
                old(self).spec_uirs(),
                first_token(ctrl@.callsign),
            ).len() > 0,
            r is Some ==> r->0@ == final(self).spec_firs()[spec_fir_indices(
                old(self).spec_firs(),
                old(self).spec_airports(),
                old(self).spec_uirs(),
                first_token(ctrl@.callsign),
            ).last()],
    {
        let ghost start = self.spec_firs();
        let code = callsign_code(ctrl.callsign.as_str());
        let prefix = take_prefix(code.as_str(), 2);
        let country = self.find_country(prefix.as_str());
        let ghost country_view = self.spec_country(prefix@);
        let fir_ids = self.find_fir_indices(code.as_str());
        let ghost indices = index_views(fir_ids@);
        let mut fir_found: Option<FIR> = None;
        let mut k: usize = 0;
        while k < fir_ids.len()
            invariant
                k <= fir_ids.len(),
                indices == index_views(fir_ids@),
                forall|j: int| 0 <= j < fir_ids@.len() ==> #[trigger] fir_ids@[j] < start.len(),
                self.spec_firs().len() == start.len(),
                self.spec_firs() == firs_with_controller(
                    start,
                    indices,
                    k as int,
                    ctrl@,
                    country_view,
                ),
                self.same_frame(old(self)),
                self.spec_airports() == old(self).spec_airports(),
                country is Some <==> country_view is Some,
                country is Some ==> country->0@ == country_view->0,
                fir_found is Some <==> k > 0,
                fir_found is Some ==> fir_found->0@ == self.spec_firs()[indices[k - 1]],
            decreases fir_ids.len() - k,
        {
            let idx: usize = fir_ids[k];
            assert(indices[k as int] == idx);
            assert(fir_ids@[k as int] < start.len());
            let ghost before = self.spec_firs();
            assert(before[idx as int] == self.firs@[idx as int]@);
            let mut fir = self.firs[idx].clone();
            let mut named = ctrl.clone();
            match &country {
                Some(c) => {
                    let mut label = String::new();
                    push_str(&mut label, fir.name.as_str());
                    match &c.control_name {
                        Some(cn) => {
                            push_str(&mut label, " ");
                            push_str(&mut label, cn.as_str());
                        },
                        None => {},
                    }
                    assert(label@ =~= fir_label(fir.name@, c@.control_name));
                    named.human_readable = Some(label);
                },
                None => {},
            }
            put_controller(&mut fir.controllers, named);
            assert(fir@ == before[idx as int].with_controller(ctrl@, country_view));
            fir_found = Some(fir.clone());
            self.firs[idx] = fir;
            assert(self.spec_firs() =~= before.update(
                idx as int,
                before[idx as int].with_controller(ctrl@, country_view),
            ));
            k += 1;
        }
        fir_found
    }

    /// Lets the controller `ctrl` leave the regions that the callsign
    /// means.
    pub fn reset_fir_controller(&mut self, ctrl: &Controller)
        ensures
            final(self).same_frame(old(self)),
            final(self).spec_airports() == old(self).spec_airports(),
            final(self).spec_firs() == firs_without_controller(
                old(self).spec_firs(),
                spec_fir_indices(
                    old(self).spec_firs(),
                    old(self).spec_airports(),
                    old(self).spec_uirs(),
                    first_token(ctrl@.callsign),
                ),
                spec_fir_indices(
                    old(self).spec_firs(),
                    old(self).spec_airports(),
                    old(self).spec_uirs(),
                    first_token(ctrl@.callsign),
                ).len() as int,
                ctrl@.callsign,
            ),
    {
        let ghost start = self.spec_firs();
        let code = callsign_code(ctrl.callsign.as_str());
        let fir_ids = self.find_fir_indices(code.as_str());
        let ghost indices = index_views(fir_ids@);
        let mut k: usize = 0;
        while k < fir_ids.len()
            invariant
                k <= fir_ids.len(),
                indices == index_views(fir_ids@),
                forall|j: int| 0 <= j < fir_ids@.len() ==> #[trigger] fir_ids@[j] < start.len(),
                self.spec_firs().len() == start.len(),
                self.spec_firs() == firs_without_controller(
                    start,
                    indices,
                    k as int,
                    ctrl@.callsign,
                ),
                self.same_frame(old(self)),
                self.spec_airports() == old(self).spec_airports(),
            decreases fir_ids.len() - k,
        {
            let idx: usize = fir_ids[k];
            assert(indices[k as int] == idx);
            assert(fir_ids@[k as int] < start.len());
            let ghost before = self.spec_firs();
            assert(before[idx as int] == self.firs@[idx as int]@);
            let mut fir = self.firs[idx].clone();
            drop_controller(&mut fir.controllers, &ctrl.callsign);
            assert(fir@ == before[idx as int].without_controller(ctrl@.callsign));
            self.firs[idx] = fir;
            assert(self.spec_firs() =~= before.update(
                idx as int,
                before[idx as int].without_controller(ctrl@.callsign),
            ));
            k += 1;
        }
    }
}


/// The airports and regions with all that it takes to look them up, as
/// mathematical values.
pub struct Lands {
    pub countries: Seq<CountryView>,
    pub airports: Seq<AirportView>,
    pub firs: Seq<FIRView>,
    pub uirs: Seq<UIRView>,
}

impl Lands {
    /// The country whose prefix the code of a callsign starts with.
    pub open spec fn country_of(self, callsign: Seq<char>) -> Option<CountryView> {
        match country_by_prefix(
            self.countries,
            prefix_of(first_token(callsign), 2),
            self.countries.len() as int,
        ) {
            Some(i) => Some(self.countries[i]),
            None => None,
        }
    }

    /// The regions that a code means.
    pub open spec fn firs_of_code(self, code: Seq<char>) -> Seq<int> {
        spec_fir_indices(self.firs, self.airports, self.uirs, code)
    }

    /// The regions that a callsign means.
    pub open spec fn firs_of(self, callsign: Seq<char>) -> Seq<int> {
        spec_fir_indices(self.firs, self.airports, self.uirs, first_token(callsign))
    }

    /// The lands after the controller `ctrl` has come online: a controller
    /// of the radar looks after the regions that the callsign means, any
    /// other after the airport that it means. A controller that is rejected
    /// changes nothing.
    pub open spec fn with_controller(self, ctrl: ControllerView) -> Lands {
        match ctrl.facility {
            Facility::Reject => self,
            Facility::Radar => Lands {
                firs: firs_with_controller(
                    self.firs,
                    self.firs_of(ctrl.callsign),
                    self.firs_of(ctrl.callsign).len() as int,
                    ctrl,
                    self.country_of(ctrl.callsign),
                ),
                ..self
            },
            _ => match spec_airport_idx(self.airports, first_token(ctrl.callsign)) {
                Some(i) => Lands {
                    airports: self.airports.update(i, self.airports[i].with_controller(ctrl)),
                    ..self
                },
                None => self,
            },
        }
    }

    /// The lands after the controller `ctrl` has gone offline.
    pub open spec fn without_controller(self, ctrl: ControllerView) -> Lands {
        match ctrl.facility {
            Facility::Reject => self,
            Facility::Radar => Lands {
                firs: firs_without_controller(
                    self.firs,
                    self.firs_of(ctrl.callsign),
                    self.firs_of(ctrl.callsign).len() as int,
                    ctrl.callsign,
                ),
                ..self
            },
            _ => match spec_airport_idx(self.airports, first_token(ctrl.callsign)) {
                Some(i) => Lands {
                    airports: self.airports.update(
                        i,
                        self.airports[i].without_controller(ctrl.facility),
                    ),
                    ..self
                },
                None => self,
            },
        }
    }
}

impl FixedData {
    pub open spec fn spec_lands(&self) -> Lands {
        Lands {
            countries: self.spec_countries(),
            airports: self.spec_airports(),
            firs: self.spec_firs(),
            uirs: self.spec_uirs(),
        }
    }

    /// Lets the controller `ctrl` come online, and gives back the airport
    /// that it looks after, or the last of its regions.
    pub fn set_controller(&mut self, ctrl: Controller) -> (r: (Option<Airport>, Option<FIR>))
        ensures
            final(self).spec_lands() == old(self).spec_lands().with_controller(ctrl@),
            final(self).spec_geonames() == old(self).spec_geonames(),
            final(self).wf() == old(self).wf(),
            r.0 is Some <==> ctrl.facility.at_airport() && spec_airport_idx(
                old(self).spec_airports(),
                first_token(ctrl@.callsign),
            ) is Some,
            r.0 is Some ==> r.0->0@ == final(self).spec_airports()[spec_airport_idx(
                old(self).spec_airports(),
                first_token(ctrl@.callsign),
            )->0],
            r.1 is Some <==> ctrl.facility == Facility::Radar && old(self).spec_lands().firs_of(
                ctrl@.callsign,
            ).len() > 0,
            r.1 is Some ==> r.1->0@ == final(self).spec_firs()[old(self).spec_lands().firs_of(
                ctrl@.callsign,
            ).last()],
    {
        proof {
            lemma_airport_idx_bounds(self.spec_airports(), first_token(ctrl@.callsign));
        }
        match ctrl.facility {
            Facility::Reject => (None, None),
            Facility::Radar => {
                let fir = self.set_fir_controller(ctrl);
                (None, fir)
            },
            _ => {
                let arpt = self.set_airport_controller(ctrl);
                (arpt, None)
            },
        }
    }

    /// Lets the controller `ctrl` go offline.
    pub fn reset_controller(&mut self, ctrl: &Controller)
        ensures
            final(self).spec_lands() == old(self).spec_lands().without_controller(ctrl@),
            final(self).spec_geonames() == old(self).spec_geonames(),
            final(self).wf() == old(self).wf(),
    {
        match ctrl.facility {
            Facility::Reject => {},
            Facility::Radar => {
                self.reset_fir_controller(ctrl);
            },
            _ => {
                self.reset_airport_controller(ctrl);
            },
        }
    }
}

/// An airport that a code means stands within the list.
pub proof fn lemma_airport_idx_bounds(airports: Seq<AirportView>, code: Seq<char>)
    ensures
        spec_airport_idx(airports, code) is Some ==> 0 <= spec_airport_idx(airports, code)->0
            < airports.len(),
{
    lemma_by_iata_bounds(airports, prefix_of(code, 4), airports.len() as int);
    lemma_by_icao_bounds(airports, prefix_of(code, 4), 0);
}

/// An airport found by its code of the association of airlines stands within
/// the list.
pub proof fn lemma_by_iata_bounds(airports: Seq<AirportView>, code: Seq<char>, n: int)
    ensures
        airport_by_iata(airports, code, n) is Some ==> 0 <= airport_by_iata(airports, code, n)->0
            < airports.len(),
    decreases n,
{
    if 0 < n <= airports.len() && code.len() > 0 && airports[n - 1].iata != code {
        lemma_by_iata_bounds(airports, code, n - 1);
    }
}

/// An airport found by its code of the organisation of civil aviation stands
/// within the list.
pub proof fn lemma_by_icao_bounds(airports: Seq<AirportView>, code: Seq<char>, from: int)
    requires
        0 <= from,
    ensures
        airport_by_icao(airports, code, from) is Some ==> 0 <= airport_by_icao(
            airports,
            code,
            from,
        )->0 < airports.len(),
    decreases airports.len() - from,
{
    if from < airports.len() && code.len() > 0 && airports[from].icao != code {
        lemma_by_icao_bounds(airports, code, from + 1);
    }
}

} // verus!

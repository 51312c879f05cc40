//! Reference data: countries, airports, runways and regions of airspace.

use crate::moving::controller::{Controller, ControllerSet, ControllerSetView, ControllerView};
use crate::atis::runways::{
    arrival_patterns, departure_patterns, detect_arrivals, detect_departures, detected,
    normalize_atis_text, spec_normalized,
};
use crate::text::{string_views, views};
use crate::types::Point;
use crate::weather::ext_types::{WeatherInfo, WeatherInfoView};
use vstd::prelude::*;

verus! {

/// A country of the reference file.
#[derive(Debug)]
pub struct Country {
    pub name: String,
    pub prefix: String,
    pub control_name: Option<String>,
}

/// A [`Country`] as a mathematical value.
pub struct CountryView {
    pub name: Seq<char>,
    pub prefix: Seq<char>,
    pub control_name: Option<Seq<char>>,
}

impl View for Country {
    type V = CountryView;

    open spec fn view(&self) -> CountryView {
        CountryView {
            name: self.name@,
            prefix: self.prefix@,
            control_name: crate::text::opt_text(self.control_name),
        }
    }
}

impl Clone for Country {
    fn clone(&self) -> (r: Self)
        ensures
            r@ == self@,
    {
        Country {
            name: self.name.clone(),
            prefix: self.prefix.clone(),
            control_name: crate::text::clone_opt_text(&self.control_name),
        }
    }
}

impl Country {
    /// Whether the two are equal, field by field.
    pub fn same(&self, other: &Self) -> (b: bool)
        ensures
            b == (self@ == other@),
    {
        self.name == other.name
            && self.prefix == other.prefix
            && crate::text::same_opt_text(&self.control_name, &other.control_name)
    }
}
/// One end of a runway.
#[derive(Debug)]
pub struct Runway {
    pub icao: String,
    pub length_ft: u32,
    pub width_ft: u32,
    pub surface: String,
    pub lighted: bool,
    pub closed: bool,
    pub ident: String,
    /// Millionths of a degree.
    pub latitude: i64,
    /// Millionths of a degree.
    pub longitude: i64,
    pub elevation_ft: i32,
    pub heading: u16,
    /// Whether the broadcast of the airport names the runway for take-off.
    pub active_to: bool,
    /// Whether the broadcast of the airport names the runway for landing.
    pub active_lnd: bool,
}

/// A [`Runway`] as a mathematical value.
pub struct RunwayView {
    pub icao: Seq<char>,
    pub length_ft: u32,
    pub width_ft: u32,
    pub surface: Seq<char>,
    pub lighted: bool,
    pub closed: bool,
    pub ident: Seq<char>,
    pub latitude: i64,
    pub longitude: i64,
    pub elevation_ft: i32,
    pub heading: u16,
    pub active_to: bool,
    pub active_lnd: bool,
}

impl View for Runway {
    type V = RunwayView;

    open spec fn view(&self) -> RunwayView {
        RunwayView {
            icao: self.icao@,
            length_ft: self.length_ft,
            width_ft: self.width_ft,
            surface: self.surface@,
            lighted: self.lighted,
            closed: self.closed,
            ident: self.ident@,
            latitude: self.latitude,
            longitude: self.longitude,
            elevation_ft: self.elevation_ft,
            heading: self.heading,
            active_to: self.active_to,
            active_lnd: self.active_lnd,
        }
    }
}

impl Clone for Runway {
    fn clone(&self) -> (r: Self)
        ensures
            r@ == self@,
    {
        Runway {
            icao: self.icao.clone(),
            length_ft: self.length_ft,
            width_ft: self.width_ft,
            surface: self.surface.clone(),
            lighted: self.lighted,
            closed: self.closed,
            ident: self.ident.clone(),
            latitude: self.latitude,
            longitude: self.longitude,
            elevation_ft: self.elevation_ft,
            heading: self.heading,
            active_to: self.active_to,
            active_lnd: self.active_lnd,
        }
    }
}

impl Runway {
    /// Whether the two are equal, field by field.
    pub fn same(&self, other: &Self) -> (b: bool)
        ensures
            b == (self@ == other@),
    {
        self.icao == other.icao
            && self.length_ft == other.length_ft
            && self.width_ft == other.width_ft
            && self.surface == other.surface
            && self.lighted == other.lighted
            && self.closed == other.closed
            && self.ident == other.ident
            && self.latitude == other.latitude
            && self.longitude == other.longitude
            && self.elevation_ft == other.elevation_ft
            && self.heading == other.heading
            && self.active_to == other.active_to
            && self.active_lnd == other.active_lnd
    }
}
/// A copy of `v`.
pub fn clone_runways(v: &Vec<Runway>) -> (r: Vec<Runway>)
    ensures
        crate::text::views(r@) == crate::text::views(v@),
{
    let mut r: Vec<Runway> = Vec::new();
    let mut i: usize = 0;
    while i < v.len()
        invariant
            i <= v.len(),
            r@.len() == i,
            forall|k: int| 0 <= k < i ==> (#[trigger] r@[k])@ == v@[k]@,
        decreases v.len() - i,
    {
        r.push(v[i].clone());
        i += 1;
    }
    assert(crate::text::views(r@) =~= crate::text::views(v@));
    r
}

pub fn same_runways(a: &Vec<Runway>, b: &Vec<Runway>) -> (r: bool)
    ensures
        r == (crate::text::views(a@) == crate::text::views(b@)),
{
    if a.len() != b.len() {
        assert(crate::text::views(a@).len() != crate::text::views(b@).len());
        return false;
    }
    let mut i: usize = 0;
    while i < a.len()
        invariant
            i <= a.len() == b.len(),
            forall|k: int| 0 <= k < i ==> (#[trigger] a@[k])@ == b@[k]@,
        decreases a.len() - i,
    {
        if !a[i].same(&b[i]) {
            assert(crate::text::views(a@)[i as int] == a@[i as int]@);
            assert(crate::text::views(b@)[i as int] == b@[i as int]@);
            return false;
        }
        i += 1;
    }
    assert(crate::text::views(a@) =~= crate::text::views(b@));
    true
}
/// A country as the gazetteer describes it.
#[derive(Debug)]
pub struct GeonamesCountry {
    pub iso: String,
    pub iso3: String,
    pub iso_numeric: String,
    pub fips: String,
    pub name: String,
    pub capital: String,
    /// In millionths of a square kilometre.
    pub area: i64,
    pub population: u64,
    pub continent: String,
    pub tld: String,
    pub currency_code: String,
    pub currency_name: String,
    pub phone: String,
    pub postal_code_format: String,
    pub postal_code_regex: String,
    pub languages: String,
    pub geoname_id: String,
    pub neighbours: String,
    pub equivalent_fips_code: String,
}

/// A [`GeonamesCountry`] as a mathematical value.
pub struct GeonamesCountryView {
    pub iso: Seq<char>,
    pub iso3: Seq<char>,
    pub iso_numeric: Seq<char>,
    pub fips: Seq<char>,
    pub name: Seq<char>,
    pub capital: Seq<char>,
    pub area: i64,
    pub population: u64,
    pub continent: Seq<char>,
    pub tld: Seq<char>,
    pub currency_code: Seq<char>,
    pub currency_name: Seq<char>,
    pub phone: Seq<char>,
    pub postal_code_format: Seq<char>,
    pub postal_code_regex: Seq<char>,
    pub languages: Seq<char>,
    pub geoname_id: Seq<char>,
    pub neighbours: Seq<char>,
    pub equivalent_fips_code: Seq<char>,
}

impl View for GeonamesCountry {
    type V = GeonamesCountryView;

    open spec fn view(&self) -> GeonamesCountryView {
        GeonamesCountryView {
            iso: self.iso@,
            iso3: self.iso3@,
            iso_numeric: self.iso_numeric@,
            fips: self.fips@,
            name: self.name@,
            capital: self.capital@,
            area: self.area,
            population: self.population,
            continent: self.continent@,
            tld: self.tld@,
            currency_code: self.currency_code@,
            currency_name: self.currency_name@,
            phone: self.phone@,
            postal_code_format: self.postal_code_format@,
            postal_code_regex: self.postal_code_regex@,
            languages: self.languages@,
            geoname_id: self.geoname_id@,
            neighbours: self.neighbours@,
            equivalent_fips_code: self.equivalent_fips_code@,
        }
    }
}

impl Clone for GeonamesCountry {
    fn clone(&self) -> (r: Self)
        ensures
            r@ == self@,
    {
        GeonamesCountry {
            iso: self.iso.clone(),
            iso3: self.iso3.clone(),
            iso_numeric: self.iso_numeric.clone(),
            fips: self.fips.clone(),
            name: self.name.clone(),
            capital: self.capital.clone(),
            area: self.area,
            population: self.population,
            continent: self.continent.clone(),
            tld: self.tld.clone(),
            currency_code: self.currency_code.clone(),
            currency_name: self.currency_name.clone(),
            phone: self.phone.clone(),
            postal_code_format: self.postal_code_format.clone(),
            postal_code_regex: self.postal_code_regex.clone(),
            languages: self.languages.clone(),
            geoname_id: self.geoname_id.clone(),
            neighbours: self.neighbours.clone(),
            equivalent_fips_code: self.equivalent_fips_code.clone(),
        }
    }
}

impl GeonamesCountry {
    /// Whether the two are equal, field by field.
    pub fn same(&self, other: &Self) -> (b: bool)
        ensures
            b == (self@ == other@),
    {
        self.iso == other.iso
            && self.iso3 == other.iso3
            && self.iso_numeric == other.iso_numeric
            && self.fips == other.fips
            && self.name == other.name
            && self.capital == other.capital
            && self.area == other.area
            && self.population == other.population
            && self.continent == other.continent
            && self.tld == other.tld
            && self.currency_code == other.currency_code
            && self.currency_name == other.currency_name
            && self.phone == other.phone
            && self.postal_code_format == other.postal_code_format
            && self.postal_code_regex == other.postal_code_regex
            && self.languages == other.languages
            && self.geoname_id == other.geoname_id
            && self.neighbours == other.neighbours
            && self.equivalent_fips_code == other.equivalent_fips_code
    }
}
/// A copy of `v`.
pub fn clone_controllers(v: &Vec<Controller>) -> (r: Vec<Controller>)
    ensures
        crate::text::views(r@) == crate::text::views(v@),
{
    let mut r: Vec<Controller> = Vec::new();
    let mut i: usize = 0;
    while i < v.len()
        invariant
            i <= v.len(),
            r@.len() == i,
            forall|k: int| 0 <= k < i ==> (#[trigger] r@[k])@ == v@[k]@,
        decreases v.len() - i,
    {
        r.push(v[i].clone());
        i += 1;
    }
    assert(crate::text::views(r@) =~= crate::text::views(v@));
    r
}

/// Whether the two lists are of one length and alike item by item.
pub open spec fn controllers_alike(a: Seq<ControllerView>, b: Seq<ControllerView>) -> bool {
    &&& a.len() == b.len()
    &&& forall|i: int| 0 <= i < a.len() ==> (#[trigger] a[i]).alike(b[i])
}

pub fn same_controllers(a: &Vec<Controller>, b: &Vec<Controller>) -> (r: bool)
    ensures
        r == controllers_alike(crate::text::views(a@), crate::text::views(b@)),
{
    if a.len() != b.len() {
        return false;
    }
    let mut i: usize = 0;
    while i < a.len()
        invariant
            i <= a.len() == b.len(),
            forall|k: int| 0 <= k < i ==> (#[trigger] a@[k])@.alike(b@[k]@),
        decreases a.len() - i,
    {
        if !a[i].same(&b[i]) {
            assert(crate::text::views(a@)[i as int] == a@[i as int]@);
            assert(crate::text::views(b@)[i as int] == b@[i as int]@);
            return false;
        }
        i += 1;
    }
    assert forall|k: int| 0 <= k < a@.len() implies (#[trigger] crate::text::views(a@)[k]).alike(
        crate::text::views(b@)[k],
    ) by {
        assert(crate::text::views(a@)[k] == a@[k]@);
        assert(crate::text::views(b@)[k] == b@[k]@);
    }
    true
}
/// An airport.
#[derive(Debug)]
pub struct Airport {
    pub icao: String,
    pub iata: String,
    pub name: String,
    pub position: Point,
    pub fir_id: String,
    pub is_pseudo: bool,
    pub controllers: ControllerSet,
    /// The ends of the runways, each identifier once.
    pub runways: Vec<Runway>,
    pub country: Option<GeonamesCountry>,
    pub wx: Option<WeatherInfo>,
}

/// A [`Airport`] as a mathematical value.
pub struct AirportView {
    pub icao: Seq<char>,
    pub iata: Seq<char>,
    pub name: Seq<char>,
    pub position: Point,
    pub fir_id: Seq<char>,
    pub is_pseudo: bool,
    pub controllers: ControllerSetView,
    pub runways: Seq<RunwayView>,
    pub country: Option<GeonamesCountryView>,
    pub wx: Option<WeatherInfoView>,
}

impl View for Airport {
    type V = AirportView;

    open spec fn view(&self) -> AirportView {
        AirportView {
            icao: self.icao@,
            iata: self.iata@,
            name: self.name@,
            position: self.position,
            fir_id: self.fir_id@,
            is_pseudo: self.is_pseudo,
            controllers: self.controllers@,
            runways: crate::text::views(self.runways@),
            country: match self.country {
                Some(x) => Some(x@),
                None => None,
            },
            wx: match self.wx {
                Some(x) => Some(x@),
                None => None,
            },
        }
    }
}

impl Clone for Airport {
    fn clone(&self) -> (r: Self)
        ensures
            r@ == self@,
    {
        Airport {
            icao: self.icao.clone(),
            iata: self.iata.clone(),
            name: self.name.clone(),
            position: self.position,
            fir_id: self.fir_id.clone(),
            is_pseudo: self.is_pseudo,
            controllers: self.controllers.clone(),
            runways: clone_runways(&self.runways),
            country: match &self.country {
                Some(x) => Some(x.clone()),
                None => None,
            },
            wx: match &self.wx {
                Some(x) => Some(x.clone()),
                None => None,
            },
        }
    }
}

impl AirportView {
    /// Whether the two are the same but for what `alike` overlooks in their parts.
    pub open spec fn alike(self, other: AirportView) -> bool {
        &&& self.icao == other.icao
        &&& self.iata == other.iata
        &&& self.name == other.name
        &&& self.position == other.position
        &&& self.fir_id == other.fir_id
        &&& self.is_pseudo == other.is_pseudo
        &&& self.controllers.alike(other.controllers)
        &&& self.runways == other.runways
        &&& self.country == other.country
        &&& self.wx == other.wx
    }
}

impl Airport {
    /// Whether the two are alike.
    pub fn same(&self, other: &Self) -> (b: bool)
        ensures
            b == self@.alike(other@),
    {
        self.icao == other.icao
            && self.iata == other.iata
            && self.name == other.name
            && self.position == other.position
            && self.fir_id == other.fir_id
            && self.is_pseudo == other.is_pseudo
            && self.controllers.same(&other.controllers)
            && same_runways(&self.runways, &other.runways)
            && (match (&self.country, &other.country) {
                (Some(x), Some(y)) => x.same(y),
                (None, None) => true,
                _ => false,
            })
            && (match (&self.wx, &other.wx) {
                (Some(x), Some(y)) => x.same(y),
                (None, None) => true,
                _ => false,
            })
    }
}
/// The outline of a region of airspace.
#[derive(Debug)]
pub struct Boundaries {
    pub id: String,
    pub region: String,
    pub division: String,
    pub is_oceanic: bool,
    pub min: Point,
    pub max: Point,
    pub center: Point,
    pub points: Vec<Vec<Point>>,
}

/// A [`Boundaries`] as a mathematical value.
pub struct BoundariesView {
    pub id: Seq<char>,
    pub region: Seq<char>,
    pub division: Seq<char>,
    pub is_oceanic: bool,
    pub min: Point,
    pub max: Point,
    pub center: Point,
    pub points: Seq<Seq<Point>>,
}

/// The rings of an outline as sequences.
pub open spec fn ring_views(rings: Seq<Vec<Point>>) -> Seq<Seq<Point>> {
    rings.map_values(|r: Vec<Point>| r@)
}

impl View for Boundaries {
    type V = BoundariesView;

    open spec fn view(&self) -> BoundariesView {
        BoundariesView {
            id: self.id@,
            region: self.region@,
            division: self.division@,
            is_oceanic: self.is_oceanic,
            min: self.min,
            max: self.max,
            center: self.center,
            points: ring_views(self.points@),
        }
    }
}

/// A copy of a ring.
pub fn clone_ring(v: &Vec<Point>) -> (r: Vec<Point>)
    ensures
        r@ == v@,
{
    let mut r: Vec<Point> = Vec::new();
    let mut i: usize = 0;
    while i < v.len()
        invariant
            i <= v.len(),
            r@ == v@.subrange(0, i as int),
        decreases v.len() - i,
    {
        r.push(v[i]);
        i += 1;
        assert(r@ =~= v@.subrange(0, i as int));
    }
    assert(v@.subrange(0, i as int) =~= v@);
    r
}

impl Clone for Boundaries {
    fn clone(&self) -> (r: Self)
        ensures
            r@ == self@,
    {
        let mut points: Vec<Vec<Point>> = Vec::new();
        let mut i: usize = 0;
        while i < self.points.len()
            invariant
                i <= self.points.len(),
                points@.len() == i,
                forall|k: int| 0 <= k < i ==> (#[trigger] points@[k])@ == self.points@[k]@,
            decreases self.points.len() - i,
        {
            points.push(clone_ring(&self.points[i]));
            i += 1;
        }
        assert(ring_views(points@) =~= ring_views(self.points@));
        Boundaries {
            id: self.id.clone(),
            region: self.region.clone(),
            division: self.division.clone(),
            is_oceanic: self.is_oceanic,
            min: self.min,
            max: self.max,
            center: self.center,
            points,
        }
    }
}

impl BoundariesView {
    /// Outlines do not change while the service runs, so two outlines with
    /// one identifier count as the same.
    pub open spec fn alike(self, other: BoundariesView) -> bool {
        self.id == other.id
    }
}

impl Boundaries {
    pub fn same(&self, other: &Self) -> (b: bool)
        ensures
            b == self@.alike(other@),
    {
        self.id == other.id
    }
}

/// A flight information region.
#[derive(Debug)]
pub struct FIR {
    pub icao: String,
    pub name: String,
    pub prefix: String,
    pub boundaries: Boundaries,
    /// The controllers of the region, each callsign once.
    pub controllers: Vec<Controller>,
    pub country: Option<GeonamesCountry>,
}

/// A [`FIR`] as a mathematical value.
pub struct FIRView {
    pub icao: Seq<char>,
    pub name: Seq<char>,
    pub prefix: Seq<char>,
    pub boundaries: BoundariesView,
    pub controllers: Seq<ControllerView>,
    pub country: Option<GeonamesCountryView>,
}

impl View for FIR {
    type V = FIRView;

    open spec fn view(&self) -> FIRView {
        FIRView {
            icao: self.icao@,
            name: self.name@,
            prefix: self.prefix@,
            boundaries: self.boundaries@,
            controllers: crate::text::views(self.controllers@),
            country: match self.country {
                Some(x) => Some(x@),
                None => None,
            },
        }
    }
}

impl Clone for FIR {
    fn clone(&self) -> (r: Self)
        ensures
            r@ == self@,
    {
        FIR {
            icao: self.icao.clone(),
            name: self.name.clone(),
            prefix: self.prefix.clone(),
            boundaries: self.boundaries.clone(),
            controllers: clone_controllers(&self.controllers),
            country: match &self.country {
                Some(x) => Some(x.clone()),
                None => None,
            },
        }
    }
}

impl FIRView {
    /// Whether the two are the same but for what `alike` overlooks in their parts.
    pub open spec fn alike(self, other: FIRView) -> bool {
        &&& self.icao == other.icao
        &&& self.name == other.name
        &&& self.prefix == other.prefix
        &&& self.boundaries.alike(other.boundaries)
        &&& controllers_alike(self.controllers, other.controllers)
        &&& self.country == other.country
    }
}

impl FIR {
    /// Whether the two are alike.
    pub fn same(&self, other: &Self) -> (b: bool)
        ensures
            b == self@.alike(other@),
    {
        self.icao == other.icao
            && self.name == other.name
            && self.prefix == other.prefix
            && self.boundaries.same(&other.boundaries)
            && same_controllers(&self.controllers, &other.controllers)
            && (match (&self.country, &other.country) {
                (Some(x), Some(y)) => x.same(y),
                (None, None) => true,
                _ => false,
            })
    }
}
/// An upper information region: a group of flight information regions.
#[derive(Debug)]
pub struct UIR {
    pub icao: String,
    pub name: String,
    /// The regions that make up this one.
    pub fir_ids: Vec<String>,
}

/// A [`UIR`] as a mathematical value.
pub struct UIRView {
    pub icao: Seq<char>,
    pub name: Seq<char>,
    pub fir_ids: Seq<Seq<char>>,
}

impl View for UIR {
    type V = UIRView;

    open spec fn view(&self) -> UIRView {
        UIRView {
            icao: self.icao@,
            name: self.name@,
            fir_ids: crate::text::string_views(self.fir_ids@),
        }
    }
}

impl Clone for UIR {
    fn clone(&self) -> (r: Self)
        ensures
            r@ == self@,
    {
        UIR {
            icao: self.icao.clone(),
            name: self.name.clone(),
            fir_ids: crate::text::clone_texts(&self.fir_ids),
        }
    }
}

impl UIR {
    /// Whether the two are equal, field by field.
    pub fn same(&self, other: &Self) -> (b: bool)
        ensures
            b == (self@ == other@),
    {
        self.icao == other.icao
            && self.name == other.name
            && crate::text::same_texts(&self.fir_ids, &other.fir_ids)
    }
}
impl AirportView {
    /// The identifier of the airport that no other airport has: the two
    /// codes with a colon between them.
    pub open spec fn compound_id(self) -> Seq<char> {
        self.icao + ":"@ + self.iata
    }
}

impl FIRView {
    /// Whether no controller looks after the region.
    pub open spec fn is_empty(self) -> bool {
        self.controllers.len() == 0
    }
}

impl Airport {
    pub fn compound_id(&self) -> (s: String)
        ensures
            s@ == self@.compound_id(),
    {
        let mut s = String::new();
        crate::text::push_str(&mut s, self.icao.as_str());
        crate::text::push_str(&mut s, ":");
        crate::text::push_str(&mut s, self.iata.as_str());
        assert(s@ =~= self@.compound_id());
        s
    }
}

impl FIR {
    pub fn is_empty(&self) -> (b: bool)
        ensures
            b == self@.is_empty(),
    {
        self.controllers.len() == 0
    }
}


impl RunwayView {
    /// The runway with its two marks set anew.
    pub open spec fn marked(self, landing: bool, takeoff: bool) -> RunwayView {
        RunwayView { active_lnd: landing, active_to: takeoff, ..self }
    }
}

/// The runways with no mark set.
pub open spec fn unmarked(runways: Seq<RunwayView>) -> Seq<RunwayView> {
    runways.map_values(|r: RunwayView| r.marked(false, false))
}

/// The runways, each marked for landing where `arrivals` names it and for
/// take-off where `departures` names it.
pub open spec fn marked_by(
    runways: Seq<RunwayView>,
    arrivals: Seq<Seq<char>>,
    departures: Seq<Seq<char>>,
) -> Seq<RunwayView> {
    runways.map_values(
        |r: RunwayView| r.marked(arrivals.contains(r.ident), departures.contains(r.ident)),
    )
}

impl AirportView {
    /// The runways as the broadcast of the airport marks them: none is
    /// marked where there is no broadcast.
    pub open spec fn active_runways(self) -> Seq<RunwayView> {
        match self.controllers.atis {
            Some(atis) => {
                let text = spec_normalized(atis.text_atis, true);
                marked_by(
                    self.runways,
                    detected(arrival_patterns(), text, 5),
                    detected(departure_patterns(), text, 5),
                )
            },
            None => unmarked(self.runways),
        }
    }
}

fn names(list: &Vec<String>, ident: &String) -> (b: bool)
    ensures
        b == string_views(list@).contains(ident@),
{
    let mut i: usize = 0;
    while i < list.len()
        invariant
            i <= list.len(),
            forall|k: int| 0 <= k < i ==> (#[trigger] list@[k])@ != ident@,
        decreases list.len() - i,
    {
        if list[i] == *ident {
            assert(string_views(list@)[i as int] == ident@);
            return true;
        }
        i += 1;
    }
    assert forall|k: int| 0 <= k < string_views(list@).len() implies string_views(list@)[k]
        != ident@ by {
        assert(string_views(list@)[k] == list@[k]@);
    }
    false
}

impl Airport {
    fn mark_runways(&mut self, arrivals: &Vec<String>, departures: &Vec<String>)
        ensures
            final(self)@ == (AirportView {
                runways: marked_by(
                    old(self)@.runways,
                    string_views(arrivals@),
                    string_views(departures@),
                ),
                ..old(self)@
            }),
    {
        let ghost before = views(self.runways@);
        let ghost whole = self@;
        let mut i: usize = 0;
        while i < self.runways.len()
            invariant
                i <= self.runways@.len(),
                self.runways@.len() == before.len(),
                self@ == (AirportView { runways: views(self.runways@), ..whole }),
                forall|k: int|
                    0 <= k < i ==> (#[trigger] self.runways@[k])@ == before[k].marked(
                        string_views(arrivals@).contains(before[k].ident),
                        string_views(departures@).contains(before[k].ident),
                    ),
                forall|k: int| i <= k < before.len() ==> (#[trigger] self.runways@[k])@ == before[k],
            decreases self.runways@.len() - i,
        {
            let landing = names(arrivals, &self.runways[i].ident);
            let takeoff = names(departures, &self.runways[i].ident);
            let mut rwy = self.runways[i].clone();
            rwy.active_lnd = landing;
            rwy.active_to = takeoff;
            self.runways[i] = rwy;
            i += 1;
        }
        assert(views(self.runways@) =~= marked_by(
            before,
            string_views(arrivals@),
            string_views(departures@),
        ));
    }

    /// Takes the marks off all runways.
    pub fn reset_active_runways(&mut self)
        ensures
            final(self)@ == (AirportView { runways: unmarked(old(self)@.runways), ..old(self)@ }),
    {
        let none: Vec<String> = Vec::new();
        self.mark_runways(&none, &none);
        assert(string_views(none@) =~= Seq::<Seq<char>>::empty());
        assert(marked_by(old(self)@.runways, string_views(none@), string_views(none@)) =~= unmarked(
            old(self)@.runways,
        ));
    }

    /// Marks the runways that the broadcast of the airport names for
    /// landing and for take-off, and takes the marks off the others.
    pub fn set_active_runways(&mut self)
        ensures
            final(self)@ == (AirportView { runways: old(self)@.active_runways(), ..old(self)@ }),
    {
        match &self.controllers.atis {
            Some(atis) => {
                let norm_atis = normalize_atis_text(atis.text_atis.as_str(), true);
                let arrivals = detect_arrivals(norm_atis.as_str());
                let departures = detect_departures(norm_atis.as_str());
                self.mark_runways(&arrivals, &departures);
            },
            None => {
                self.reset_active_runways();
            },
        }
    }
}

} // verus!

//! Countries by position: the countries of a gazetteer and their shapes.

use super::errors::GeonamesParseError;
use super::types::{GeonamesCountry, GeonamesCountryView};
use crate::manager::spatial::{
    held, lemma_held_count, meets, tree_entries, tree_insert, tree_locate_intersecting, tree_new,
    Entry, Tree, COORDINATE_LIMIT,
};
use crate::tables::{read_rows, row_views, tsv_rows};
use crate::text::{
    decimal_text_within, parse_decimal_within, parse_unsigned_within, string_views,
    unsigned_text_within, views,
};
use crate::types::{Envelope, Point};
use vstd::prelude::*;

verus! {

/// Whether the point `p` lies inside the polygon whose first ring is its
/// outer border and whose other rings are holes.
pub uninterp spec fn polygon_contains(rings: Seq<Seq<Point>>, p: Point) -> bool;

/// The rings of a polygon as sequences.
pub open spec fn rings_view(rings: Seq<Vec<Point>>) -> Seq<Seq<Point>> {
    rings.map_values(|r: Vec<Point>| r@)
}

/// Whether a coordinate lies within the limits in which differences of
/// coordinates can be multiplied without leaving 64 bits.
pub open spec fn limited(p: Point) -> bool {
    -COORDINATE_LIMIT <= p.lat <= COORDINATE_LIMIT && -COORDINATE_LIMIT <= p.lng
        <= COORDINATE_LIMIT
}

pub open spec fn all_limited(rings: Seq<Vec<Point>>) -> bool {
    forall|i: int, j: int|
        0 <= i < rings.len() && 0 <= j < rings[i]@.len() ==> limited(#[trigger] rings[i]@[j])
}

/// Builds a `geo_types::Polygon` from the rings, the first as its outer
/// border, and asks `geo::Contains::contains` whether the point lies inside.
/// The outcome depends on the rings and the point alone, which is all that
/// the contract claims: it gives the outcome its name. The coordinates must
/// lie within the limits, so that the products that decide which way three
/// points turn stay within 64 bits.
#[verifier::external_body]
fn contains(rings: &Vec<Vec<Point>>, p: Point) -> (b: bool)
    requires
        rings@.len() > 0,
        all_limited(rings@),
        limited(p),
    ensures
        b == polygon_contains(rings_view(rings@), p),
{
    let mut lines: Vec<geo_types::LineString<i64>> = rings.iter().map(
        |r| r.iter().map(|q| geo_types::Coord { x: q.lng, y: q.lat }).collect(),
    ).collect();
    let exterior = lines.remove(0);
    geo::Contains::contains(
        &geo_types::Polygon::new(exterior, lines),
        &geo_types::Coord { x: p.lng, y: p.lat },
    )
}

/// The shape of a country, or of a part of it.
#[derive(Debug)]
pub struct GeonamesShape {
    /// The outer border first, then the holes.
    pub rings: Vec<Vec<Point>>,
    /// The identifier of the country.
    pub ref_id: String,
    /// Whether the shape can be asked for the points inside: it has a ring,
    /// and all its coordinates lie within the limits.
    pub usable: bool,
    /// The box around the shape, where it is usable.
    pub envelope: Envelope,
}

/// The box around the first `n` points of a ring, starting from `start`.
pub open spec fn box_of_ring(start: Option<Envelope>, ring: Seq<Point>, n: int) -> Option<Envelope>
    decreases n,
{
    if n <= 0 || n > ring.len() {
        start
    } else {
        Some(grown(box_of_ring(start, ring, n - 1), ring[n - 1]))
    }
}

/// The box around the first `n` rings.
pub open spec fn box_of_rings(rings: Seq<Vec<Point>>, n: int) -> Option<Envelope>
    decreases n,
{
    if n <= 0 || n > rings.len() {
        None
    } else {
        box_of_ring(box_of_rings(rings, n - 1), rings[n - 1]@, rings[n - 1]@.len() as int)
    }
}

/// The smallest box that holds `b` and `p`.
pub open spec fn grown(b: Option<Envelope>, p: Point) -> Envelope {
    match b {
        None => Envelope { lower: p, upper: p },
        Some(e) => Envelope {
            lower: Point {
                lat: if p.lat < e.lower.lat {
                    p.lat
                } else {
                    e.lower.lat
                },
                lng: if p.lng < e.lower.lng {
                    p.lng
                } else {
                    e.lower.lng
                },
            },
            upper: Point {
                lat: if p.lat > e.upper.lat {
                    p.lat
                } else {
                    e.upper.lat
                },
                lng: if p.lng > e.upper.lng {
                    p.lng
                } else {
                    e.upper.lng
                },
            },
        },
    }
}

fn grow(b: Option<Envelope>, p: Point) -> (e: Envelope)
    ensures
        e == grown(b, p),
{
    match b {
        None => Envelope { lower: p, upper: p },
        Some(e) => Envelope {
            lower: Point {
                lat: if p.lat < e.lower.lat { p.lat } else { e.lower.lat },
                lng: if p.lng < e.lower.lng { p.lng } else { e.lower.lng },
            },
            upper: Point {
                lat: if p.lat > e.upper.lat { p.lat } else { e.upper.lat },
                lng: if p.lng > e.upper.lng { p.lng } else { e.upper.lng },
            },
        },
    }
}

/// The box around points within the limits lies within the limits of the
/// index.
proof fn lemma_box_of_ring(start: Option<Envelope>, ring: Seq<Point>, n: int)
    requires
        0 <= n <= ring.len(),
        forall|j: int| 0 <= j < ring.len() ==> limited(#[trigger] ring[j]),
        start is Some ==> start->0.in_bounds(),
    ensures
        box_of_ring(start, ring, n) is Some ==> box_of_ring(start, ring, n)->0.in_bounds(),
    decreases n,
{
    if n > 0 {
        lemma_box_of_ring(start, ring, n - 1);
        assert(limited(ring[n - 1]));
    }
}

proof fn lemma_box_of_rings(rings: Seq<Vec<Point>>, n: int)
    requires
        0 <= n <= rings.len(),
        all_limited(rings),
    ensures
        box_of_rings(rings, n) is Some ==> box_of_rings(rings, n)->0.in_bounds(),
    decreases n,
{
    if n > 0 {
        lemma_box_of_rings(rings, n - 1);
        lemma_box_of_ring(box_of_rings(rings, n - 1), rings[n - 1]@, rings[n - 1]@.len() as int);
    }
}

impl GeonamesShape {
    pub open spec fn wf(&self) -> bool {
        &&& self.usable == (self.rings@.len() > 0 && all_limited(self.rings@))
        &&& self.envelope == match box_of_rings(self.rings@, self.rings@.len() as int) {
            Some(e) => e,
            None => Envelope { lower: Point { lat: 0, lng: 0 }, upper: Point { lat: 0, lng: 0 } },
        }
    }

    /// The box around a usable shape lies within the limits of the index.
    pub proof fn lemma_envelope_in_bounds(&self)
        requires
            self.wf(),
            self.usable,
        ensures
            self.envelope.in_bounds(),
    {
        lemma_box_of_rings(self.rings@, self.rings@.len() as int);
    }

    /// Whether `p` lies inside the shape. A shape that is not usable holds
    /// no point.
    pub open spec fn spec_holds(&self, p: Point) -> bool {
        &&& self.usable
        &&& limited(p)
        &&& self.envelope.spec_contains(p)
        &&& polygon_contains(rings_view(self.rings@), p)
    }

    /// The shape of the country `ref_id` with the given rings, the outer
    /// border first.
    pub fn from_vec(ref_id: String, rings: Vec<Vec<Point>>) -> (r: Self)
        ensures
            r.wf(),
            r.ref_id@ == ref_id@,
            r.rings@ == rings@,
    {
        let mut usable = rings.len() > 0;
        let mut around: Option<Envelope> = None;
        let mut i: usize = 0;
        while i < rings.len()
            invariant
                i <= rings.len(),
                around == box_of_rings(rings@, i as int),
                usable == (rings@.len() > 0 && forall|a: int, b: int|
                    0 <= a < i && 0 <= b < rings@[a]@.len() ==> limited(#[trigger] rings@[a]@[b])),
            decreases rings.len() - i,
        {
            let ring = &rings[i];
            let ghost start = around;
            let mut j: usize = 0;
            while j < ring.len()
                invariant
                    j <= ring.len(),
                    i < rings.len(),
                    ring@ == rings@[i as int]@,
                    around == box_of_ring(start, ring@, j as int),
                    usable == (rings@.len() > 0 && (forall|a: int, b: int|
                        0 <= a < i && 0 <= b < rings@[a]@.len() ==> limited(
                            #[trigger] rings@[a]@[b],
                        )) && (forall|b: int| 0 <= b < j ==> limited(#[trigger] ring@[b]))),
                decreases ring.len() - j,
            {
                let p = ring[j];
                if !(-COORDINATE_LIMIT <= p.lat && p.lat <= COORDINATE_LIMIT && -COORDINATE_LIMIT
                    <= p.lng && p.lng <= COORDINATE_LIMIT) {
                    usable = false;
                }
                around = Some(grow(around, p));
                j += 1;
            }
            i += 1;
        }
        let envelope = match around {
            Some(e) => e,
            None => Envelope { lower: Point { lat: 0, lng: 0 }, upper: Point { lat: 0, lng: 0 } },
        };
        GeonamesShape { rings, ref_id, usable, envelope }
    }

    /// Whether `p` lies inside the shape.
    pub fn holds(&self, p: Point) -> (b: bool)
        requires
            self.wf(),
        ensures
            b == self.spec_holds(p),
    {
        if !self.usable {
            return false;
        }
        if !(-COORDINATE_LIMIT <= p.lat && p.lat <= COORDINATE_LIMIT && -COORDINATE_LIMIT <= p.lng
            && p.lng <= COORDINATE_LIMIT) {
            return false;
        }
        if !self.envelope.contains(p) {
            return false;
        }
        contains(&self.rings, p)
    }
}

/// The shapes of one country.
#[derive(Debug)]
pub enum GeonamesShapeSet {
    Single(GeonamesShape),
    Multi(Vec<GeonamesShape>),
}

/// What a feature of the file of shapes carries as the identifier of its
/// country.
#[derive(Debug)]
pub enum Property {
    Absent,
    /// A value that is no text.
    Other,
    Text(String),
}

/// The geometry of a feature of the file of shapes.
#[derive(Debug)]
pub enum Geometry {
    Polygon(Vec<Vec<Point>>),
    MultiPolygon(Vec<Vec<Vec<Point>>>),
}

/// One feature of the file of shapes.
#[derive(Debug)]
pub struct ShapeFeature {
    /// The identifier of the country, where the feature has properties at
    /// all.
    pub geoname_id: Option<Property>,
    pub geometry: Option<Geometry>,
}

impl ShapeFeature {
    /// What is wrong with the feature, if anything.
    pub open spec fn spec_fault(&self) -> Option<Seq<char>> {
        match self.geoname_id {
            None => Some("no geojson properties defined for feature"@),
            Some(Property::Absent) => Some("geoNameId is absent in feature properties"@),
            Some(Property::Other) => Some("geoNameId is of incorrect type"@),
            Some(Property::Text(_)) => match self.geometry {
                None => Some("feature geometry is absent"@),
                Some(_) => None,
            },
        }
    }
}

impl GeonamesShapeSet {
    pub open spec fn wf(&self) -> bool {
        match self {
            GeonamesShapeSet::Single(s) => s.wf(),
            GeonamesShapeSet::Multi(v) => forall|i: int| 0 <= i < v@.len() ==> (#[trigger] v@[i]).wf(),
        }
    }

    /// The shapes of the country that a feature describes: one for a
    /// polygon, one for each polygon of a multi-polygon.
    pub fn try_from(value: ShapeFeature) -> (r: Result<GeonamesShapeSet, GeonamesParseError>)
        ensures
            match value.spec_fault() {
                Some(msg) => r is Err && r->Err_0.msg@ == msg,
                None => r is Ok && r->Ok_0.wf() && match (value.geometry->0, r->Ok_0) {
                    (Geometry::Polygon(rings), GeonamesShapeSet::Single(s)) => s.rings@ == rings@
                        && s.ref_id@ == value.geoname_id->0->Text_0@,
                    (Geometry::MultiPolygon(polys), GeonamesShapeSet::Multi(v)) => v@.len()
                        == polys@.len() && forall|i: int|
                        0 <= i < v@.len() ==> (#[trigger] v@[i]).rings@ == polys@[i]@ && v@[i].ref_id@
                            == value.geoname_id->0->Text_0@,
                    _ => false,
                },
            },
    {
        let geoname_id = match value.geoname_id {
            None => {
                return Err(
                    GeonamesParseError {
                        msg: "no geojson properties defined for feature".to_owned(),
                    },
                );
            },
            Some(Property::Absent) => {
                return Err(
                    GeonamesParseError {
                        msg: "geoNameId is absent in feature properties".to_owned(),
                    },
                );
            },
            Some(Property::Other) => {
                return Err(GeonamesParseError { msg: "geoNameId is of incorrect type".to_owned() });
            },
            Some(Property::Text(s)) => s,
        };
        match value.geometry {
            None => Err(GeonamesParseError { msg: "feature geometry is absent".to_owned() }),
            Some(Geometry::Polygon(rings)) => Ok(
                GeonamesShapeSet::Single(GeonamesShape::from_vec(geoname_id, rings)),
            ),
            Some(Geometry::MultiPolygon(polys)) => {
                let mut gss: Vec<GeonamesShape> = Vec::new();
                let mut polys = polys;
                let ghost all = polys@;
                let mut i: usize = 0;
                let n: usize = polys.len();
                while i < n
                    invariant
                        i <= n == all.len(),
                        polys@.len() == n,
                        forall|k: int| i <= k < n ==> #[trigger] polys@[k] == all[k],
                        gss@.len() == i,
                        forall|k: int|
                            0 <= k < i ==> (#[trigger] gss@[k]).wf() && gss@[k].rings@ == all[k]@
                                && gss@[k].ref_id@ == geoname_id@,
                    decreases n - i,
                {
                    let mut rings: Vec<Vec<Point>> = Vec::new();
                    core::mem::swap(&mut rings, &mut polys[i]);
                    gss.push(GeonamesShape::from_vec(geoname_id.clone(), rings));
                    i += 1;
                }
                Ok(GeonamesShapeSet::Multi(gss))
            },
        }
    }
}

/// The country that a row of the table of countries describes: the row must
/// have its 19 fields, an area and a number of inhabitants.
pub open spec fn spec_country(row: Seq<Seq<char>>) -> Option<GeonamesCountryView> {
    if row.len() < 19 {
        None
    } else {
        match (
            decimal_text_within(row[6], i64::MIN as int, i64::MAX as int),
            unsigned_text_within(row[7], u64::MAX as int),
        ) {
            (Some(area), Some(population)) => Some(
                GeonamesCountryView {
                    iso: row[0],
                    iso3: row[1],
                    iso_numeric: row[2],
                    fips: row[3],
                    name: row[4],
                    capital: row[5],
                    area: area as i64,
                    population: population as u64,
                    continent: row[8],
                    tld: row[9],
                    currency_code: row[10],
                    currency_name: row[11],
                    phone: row[12],
                    postal_code_format: row[13],
                    postal_code_regex: row[14],
                    languages: row[15],
                    geoname_id: row[16],
                    neighbours: row[17],
                    equivalent_fips_code: row[18],
                },
            ),
            _ => None,
        }
    }
}

/// The countries that the first `n` rows describe, in the order of the
/// rows; a row that describes none is passed over.
pub open spec fn spec_countries(rows: Seq<Seq<Seq<char>>>, n: int) -> Seq<GeonamesCountryView>
    decreases n,
{
    if n <= 0 || n > rows.len() {
        Seq::empty()
    } else {
        match spec_country(rows[n - 1]) {
            Some(c) => spec_countries(rows, n - 1).push(c),
            None => spec_countries(rows, n - 1),
        }
    }
}

fn country_of(row: &Vec<String>) -> (r: Option<GeonamesCountry>)
    ensures
        r is Some <==> spec_country(string_views(row@)) is Some,
        r is Some ==> r->0@ == spec_country(string_views(row@))->0,
{
    if row.len() < 19 {
        return None;
    }
    let ghost v = string_views(row@);
    assert(forall|k: int| 0 <= k < 19 ==> #[trigger] v[k] == row@[k]@);
    let area = match parse_decimal_within(row[6].as_str(), i64::MIN, i64::MAX) {
        Some(a) => a,
        None => {
            return None;
        },
    };
    let population = match parse_unsigned_within(row[7].as_str(), 0xffff_ffff_ffff_ffff) {
        Some(p) => p,
        None => {
            return None;
        },
    };
    Some(
        GeonamesCountry {
            iso: row[0].clone(),
            iso3: row[1].clone(),
            iso_numeric: row[2].clone(),
            fips: row[3].clone(),
            name: row[4].clone(),
            capital: row[5].clone(),
            area,
            population,
            continent: row[8].clone(),
            tld: row[9].clone(),
            currency_code: row[10].clone(),
            currency_name: row[11].clone(),
            phone: row[12].clone(),
            postal_code_format: row[13].clone(),
            postal_code_regex: row[14].clone(),
            languages: row[15].clone(),
            geoname_id: row[16].clone(),
            neighbours: row[17].clone(),
            equivalent_fips_code: row[18].clone(),
        },
    )
}

/// The countries that the rows of a table describe.
pub fn countries_of_rows(rows: &Vec<Vec<String>>) -> (r: Vec<GeonamesCountry>)
    ensures
        views(r@) == spec_countries(row_views(rows@), rows@.len() as int),
{
    let mut out: Vec<GeonamesCountry> = Vec::new();
    let mut i: usize = 0;
    assert(views(out@) =~= Seq::<GeonamesCountryView>::empty());
    while i < rows.len()
        invariant
            i <= rows.len(),
            views(out@) == spec_countries(row_views(rows@), i as int),
        decreases rows.len() - i,
    {
        let ghost before = views(out@);
        assert(row_views(rows@)[i as int] == string_views(rows@[i as int]@));
        match country_of(&rows[i]) {
            Some(c) => {
                let ghost v = c@;
                out.push(c);
                assert(views(out@) =~= before.push(v));
            },
            None => {},
        }
        i += 1;
    }
    out
}

/// Reads the table of countries: fields between tabs, no head, `#` for
/// comments.
pub fn parse_countries(text: &str) -> (r: Vec<GeonamesCountry>)
    ensures
        views(r@) == spec_countries(tsv_rows(text@), tsv_rows(text@).len() as int),
{
    let rows = read_rows(text);
    countries_of_rows(&rows)
}

/// The index of the last of the first `n` countries with the identifier
/// `id`.
pub open spec fn country_index(countries: Seq<GeonamesCountryView>, id: Seq<char>, n: int)
    -> Option<int>
    decreases n,
{
    if n <= 0 || n > countries.len() {
        None
    } else if countries[n - 1].geoname_id == id {
        Some(n - 1)
    } else {
        country_index(countries, id, n - 1)
    }
}

/// The index of the first shape from `from` on that holds `p`.
pub open spec fn shape_index(shapes: Seq<GeonamesShape>, p: Point, from: int) -> Option<int>
    decreases shapes.len() - from,
{
    if from < 0 || from >= shapes.len() {
        None
    } else if shapes[from].spec_holds(p) {
        Some(from)
    } else {
        shape_index(shapes, p, from + 1)
    }
}

/// Where the first shape from `from` on that holds `p` stands, and that no
/// shape before it holds `p`.
pub proof fn lemma_shape_index(shapes: Seq<GeonamesShape>, p: Point, from: int)
    requires
        0 <= from <= shapes.len(),
    ensures
        match shape_index(shapes, p, from) {
            Some(i) => from <= i < shapes.len() && shapes[i].spec_holds(p) && forall|j: int|
                from <= j < i ==> !(#[trigger] shapes[j]).spec_holds(p),
            None => forall|j: int| from <= j < shapes.len() ==> !(#[trigger] shapes[j]).spec_holds(p),
        },
    decreases shapes.len() - from,
{
    if from < shapes.len() && !shapes[from].spec_holds(p) {
        lemma_shape_index(shapes, p, from + 1);
    }
}

/// The boxes under which the shapes stand in the tree: a usable shape under
/// the box around it, any other under none.
pub open spec fn shape_boxes(shapes: Seq<GeonamesShape>) -> Seq<Option<Envelope>> {
    Seq::new(
        shapes.len(),
        |i: int|
            if shapes[i].usable {
                Some(shapes[i].envelope)
            } else {
                None
            },
    )
}

/// The countries of the gazetteer and their shapes. The boxes around the
/// shapes are kept in an R-tree, which finds the shapes that may hold a
/// point.
#[derive(Debug)]
pub struct Geonames {
    countries: Vec<GeonamesCountry>,
    shapes: Vec<GeonamesShape>,
    tree: Tree,
}

impl Geonames {
    pub closed spec fn spec_countries(&self) -> Seq<GeonamesCountryView> {
        views(self.countries@)
    }

    pub closed spec fn spec_shapes(&self) -> Seq<GeonamesShape> {
        self.shapes@
    }

    /// The shapes are as they were made, and the tree holds the box of each
    /// usable shape under the number of the shape.
    pub closed spec fn wf(&self) -> bool {
        &&& forall|i: int| 0 <= i < self.shapes@.len() ==> (#[trigger] self.shapes@[i]).wf()
        &&& self.shapes@.len() <= u64::MAX
        &&& tree_entries(self.tree) == held(shape_boxes(self.shapes@), self.shapes@.len() as int)
    }

    /// The country with the identifier `id`: where several countries carry
    /// it, the last of them.
    pub open spec fn spec_country_by_id(&self, id: Seq<char>) -> Option<GeonamesCountryView> {
        match country_index(self.spec_countries(), id, self.spec_countries().len() as int) {
            Some(i) => Some(self.spec_countries()[i]),
            None => None,
        }
    }

    /// The country at `p`: that of the first shape that holds `p`, if that
    /// country is known.
    pub open spec fn spec_country_by_position(&self, p: Point) -> Option<GeonamesCountryView> {
        match shape_index(self.spec_shapes(), p, 0) {
            Some(i) => self.spec_country_by_id(self.spec_shapes()[i].ref_id@),
            None => None,
        }
    }

    pub fn empty() -> (r: Self)
        ensures
            r.wf(),
            r.spec_countries() == Seq::<GeonamesCountryView>::empty(),
            r.spec_shapes() == Seq::<GeonamesShape>::empty(),
    {
        let r = Geonames { countries: Vec::new(), shapes: Vec::new(), tree: tree_new() };
        assert(r.spec_countries() =~= Seq::<GeonamesCountryView>::empty());
        r
    }

    /// Takes over all that `other` holds.
    pub fn fill(&mut self, other: Self)
        requires
            other.wf(),
        ensures
            final(self).wf(),
            final(self).spec_countries() == other.spec_countries(),
            final(self).spec_shapes() == other.spec_shapes(),
    {
        self.countries = other.countries;
        self.shapes = other.shapes;
        self.tree = other.tree;
    }

    /// The gazetteer of the given countries and shapes.
    pub fn load(countries: Vec<GeonamesCountry>, shapes: Vec<GeonamesShape>) -> (r: Self)
        requires
            forall|i: int| 0 <= i < shapes@.len() ==> (#[trigger] shapes@[i]).wf(),
        ensures
            r.wf(),
            r.spec_countries() == views(countries@),
            r.spec_shapes() == shapes@,
    {
        let ghost boxes = shape_boxes(shapes@);
        let mut tree = tree_new();
        let mut i: usize = 0;
        while i < shapes.len()
            invariant
                i <= shapes@.len(),
                boxes == shape_boxes(shapes@),
                forall|k: int| 0 <= k < shapes@.len() ==> (#[trigger] shapes@[k]).wf(),
                tree_entries(tree) == held(boxes, i as int),
            decreases shapes@.len() - i,
        {
            if shapes[i].usable {
                proof {
                    shapes@[i as int].lemma_envelope_in_bounds();
                }
                tree_insert(&mut tree, Entry { envelope: shapes[i].envelope, key: i as u64 });
            }
            i += 1;
        }
        Geonames { countries, shapes, tree }
    }

    fn find_by_id(&self, id: &str) -> (r: Option<usize>)
        ensures
            r is Some <==> country_index(
                self.spec_countries(),
                id@,
                self.spec_countries().len() as int,
            ) is Some,
            r is Some ==> r->0 < self.countries@.len() && r->0 == country_index(
                self.spec_countries(),
                id@,
                self.spec_countries().len() as int,
            )->0,
    {
        let wanted = id.to_owned();
        let mut n: usize = self.countries.len();
        while n > 0
            invariant
                n <= self.countries@.len(),
                wanted@ == id@,
                country_index(self.spec_countries(), id@, self.spec_countries().len() as int)
                    == country_index(self.spec_countries(), id@, n as int),
            decreases n,
        {
            assert(self.spec_countries()[n - 1] == self.countries@[n - 1]@);
            if self.countries[n - 1].geoname_id == wanted {
                return Some(n - 1);
            }
            n -= 1;
        }
        None
    }

    pub fn get_country_by_id(&self, id: &str) -> (r: Option<GeonamesCountry>)
        ensures
            r is Some <==> self.spec_country_by_id(id@) is Some,
            r is Some ==> r->0@ == self.spec_country_by_id(id@)->0,
    {
        match self.find_by_id(id) {
            Some(i) => {
                assert(self.spec_countries()[i as int] == self.countries@[i as int]@);
                Some(self.countries[i].clone())
            },
            None => None,
        }
    }

    /// Where the first shape that holds `position` stands. The tree names
    /// the shapes whose box holds the point, in no order that could be
    /// told; of those that hold the point, the first one counts.
    fn find_shape(&self, position: Point) -> (r: Option<usize>)
        requires
            self.wf(),
        ensures
            r is Some <==> shape_index(self.shapes@, position, 0) is Some,
            r is Some ==> r->0 < self.shapes@.len() && r->0 == shape_index(
                self.shapes@,
                position,
                0,
            )->0,
    {
        broadcast use vstd::multiset::group_multiset_axioms;
        broadcast use vstd::seq_lib::group_to_multiset_ensures;

        proof {
            lemma_shape_index(self.shapes@, position, 0);
        }
        if !(-COORDINATE_LIMIT <= position.lat && position.lat <= COORDINATE_LIMIT
            && -COORDINATE_LIMIT <= position.lng && position.lng <= COORDINATE_LIMIT) {
            return None;
        }
        let query = Envelope::from_point(position);
        let found = tree_locate_intersecting(&self.tree, query);
        let ghost boxes = shape_boxes(self.shapes@);
        let total: usize = self.shapes.len();
        let ghost n = total as int;
        let mut best: Option<usize> = None;
        let mut k: usize = 0;
        while k < found.len()
            invariant
                k <= found@.len(),
                self.wf(),
                boxes == shape_boxes(self.shapes@),
                n == self.shapes@.len() == total,
                found@.to_multiset() == tree_entries(self.tree).filter(meets(query)),
                best is Some ==> best->0 < n && self.shapes@[best->0 as int].spec_holds(position),
                forall|j: int|
                    0 <= j < k ==> (#[trigger] found@[j]).key < n && (self.shapes@[found@[j].key as int].spec_holds(
                        position,
                    ) ==> best is Some && best->0 <= found@[j].key),
            decreases found@.len() - k,
        {
            let e = found[k];
            proof {
                assert(found@.contains(e));
                found@.to_multiset_ensures();
                assert(found@.to_multiset().count(e) > 0);
                vstd::multiset::axiom_filter_count(tree_entries(self.tree), meets(query), e);
                lemma_held_count(boxes, n, e);
            }
            let i: usize = e.key as usize;
            if self.shapes[i].holds(position) {
                let better = match best {
                    Some(b) => i < b,
                    None => true,
                };
                if better {
                    best = Some(i);
                }
            }
            k += 1;
        }
        proof {
            assert forall|i: int| 0 <= i < n && (#[trigger] self.shapes@[i]).spec_holds(
                position,
            ) implies best is Some && best->0 <= i by {
                let e = Entry { envelope: self.shapes@[i].envelope, key: i as u64 };
                assert(boxes[i] == Some(e.envelope));
                lemma_held_count(boxes, n, e);
                assert(meets(query)(e));
                vstd::multiset::axiom_filter_count(tree_entries(self.tree), meets(query), e);
                assert(found@.to_multiset().count(e) > 0);
                found@.to_multiset_ensures();
                assert(found@.contains(e));
                let j = choose|j: int| 0 <= j < found@.len() && found@[j] == e;
                assert(found@[j].key == i);
            }
        }
        best
    }

    pub fn get_country_by_position(&self, position: Point) -> (r: Option<GeonamesCountry>)
        requires
            self.wf(),
        ensures
            r is Some <==> self.spec_country_by_position(position) is Some,
            r is Some ==> r->0@ == self.spec_country_by_position(position)->0,
    {
        match self.find_shape(position) {
            Some(i) => self.get_country_by_id(self.shapes[i].ref_id.as_str()),
            None => None,
        }
    }
}

} // verus!

//! The outlines of regions of airspace and their extent.
//!
//! Longitudes are ordered on the circle: one longitude is less than another
//! where the way east from the one to the other is the shorter way. So the
//! extent of an outline that crosses the antimeridian reaches from its
//! easternmost to its westernmost point the short way round.

use super::types::{Boundaries, BoundariesView};
use crate::types::{div_toward_zero, Point, FULL_TURN};
use vstd::prelude::*;

verus! {

/// Whether `b` lies east of `a` the short way round.
pub open spec fn spec_lng_less(a: int, b: int) -> bool {
    (b - a) % (FULL_TURN as int) < (a - b) % (FULL_TURN as int)
}

/// The remainder of `a` by the positive `b` with the sign of `a`.
pub open spec fn rem_toward_zero(a: int, b: int) -> int {
    if a >= 0 {
        a % b
    } else {
        -((-a) % b)
    }
}

/// The longitude half-way from `min` east to `max`. Where `max` is not
/// greater than `min`, the way leads across the antimeridian, and the
/// result lies a full turn further west than one would write it.
pub open spec fn spec_lng_center(min: int, max: int) -> int {
    if min < max {
        div_toward_zero(min + max, 2)
    } else {
        div_toward_zero(
            rem_toward_zero(min + FULL_TURN, FULL_TURN as int) + rem_toward_zero(
                max + FULL_TURN,
                FULL_TURN as int,
            ),
            2,
        ) - FULL_TURN
    }
}

fn rem_turn(a: i128) -> (r: i128)
    ensures
        r == (a as int) % (FULL_TURN as int),
{
    let t: i128 = a % 360_000_000;
    if t < 0 {
        t + 360_000_000
    } else {
        t
    }
}

pub fn lng_less(a: i64, b: i64) -> (r: bool)
    ensures
        r == spec_lng_less(a as int, b as int),
{
    let d1 = rem_turn(b as i128 - a as i128);
    let d2 = rem_turn(a as i128 - b as i128);
    d1 < d2
}

fn rem_trunc(a: i128) -> (r: i128)
    requires
        a > i128::MIN,
    ensures
        r == rem_toward_zero(a as int, FULL_TURN as int),
{
    if a >= 0 {
        a % 360_000_000
    } else {
        let n: i128 = -a;
        -(n % 360_000_000)
    }
}

fn half(a: i128) -> (r: i128)
    requires
        a > i128::MIN,
    ensures
        r == div_toward_zero(a as int, 2),
{
    if a >= 0 {
        a / 2
    } else {
        let n: i128 = -a;
        -(n / 2)
    }
}

pub fn lng_center(min: i64, max: i64) -> (r: i64)
    ensures
        r == spec_lng_center(min as int, max as int),
{
    if min < max {
        half(min as i128 + max as i128) as i64
    } else {
        let a = rem_trunc(min as i128 + FULL_TURN as i128);
        let b = rem_trunc(max as i128 + FULL_TURN as i128);
        (half(a + b) - FULL_TURN as i128) as i64
    }
}

/// The least and the greatest latitude and longitude met so far.
#[derive(Debug, Clone, Copy, PartialEq, Eq, Structural)]
pub struct Extent {
    pub min: Point,
    pub max: Point,
    /// Whether any point was met.
    pub seen: bool,
}

impl Extent {
    /// The extent of no points at all.
    pub open spec fn spec_empty() -> Extent {
        Extent { min: Point { lat: 0, lng: 0 }, max: Point { lat: 0, lng: 0 }, seen: false }
    }

    /// The extent after one more point.
    pub open spec fn spec_with(self, p: Point) -> Extent {
        if self.seen {
            Extent {
                min: Point {
                    lat: if self.min.lat > p.lat {
                        p.lat
                    } else {
                        self.min.lat
                    },
                    lng: if spec_lng_less(p.lng as int, self.min.lng as int) {
                        p.lng
                    } else {
                        self.min.lng
                    },
                },
                max: Point {
                    lat: if self.max.lat < p.lat {
                        p.lat
                    } else {
                        self.max.lat
                    },
                    lng: if spec_lng_less(self.max.lng as int, p.lng as int) {
                        p.lng
                    } else {
                        self.max.lng
                    },
                },
                seen: true,
            }
        } else {
            Extent { min: p, max: p, seen: true }
        }
    }

    /// The middle of the extent.
    pub open spec fn spec_center(self) -> Point {
        Point {
            lat: div_toward_zero(self.min.lat + self.max.lat, 2) as i64,
            lng: spec_lng_center(self.min.lng as int, self.max.lng as int) as i64,
        }
    }

    fn with(self, p: Point) -> (r: Extent)
        ensures
            r == self.spec_with(p),
    {
        if self.seen {
            Extent {
                min: Point {
                    lat: if self.min.lat > p.lat { p.lat } else { self.min.lat },
                    lng: if lng_less(p.lng, self.min.lng) { p.lng } else { self.min.lng },
                },
                max: Point {
                    lat: if self.max.lat < p.lat { p.lat } else { self.max.lat },
                    lng: if lng_less(self.max.lng, p.lng) { p.lng } else { self.max.lng },
                },
                seen: true,
            }
        } else {
            Extent { min: p, max: p, seen: true }
        }
    }

    fn center(self) -> (r: Point)
        ensures
            r == self.spec_center(),
    {
        Point {
            lat: half(self.min.lat as i128 + self.max.lat as i128) as i64,
            lng: lng_center(self.min.lng, self.max.lng),
        }
    }
}

/// The extent after the first `n` points of a ring.
pub open spec fn extent_of_ring(start: Extent, ring: Seq<Point>, n: int) -> Extent
    decreases n,
{
    if n <= 0 || n > ring.len() {
        start
    } else {
        extent_of_ring(start, ring, n - 1).spec_with(ring[n - 1])
    }
}

/// The extent after the first `n` rings of a polygon.
pub open spec fn extent_of_polygon(start: Extent, polygon: Seq<Vec<Point>>, n: int) -> Extent
    decreases n,
{
    if n <= 0 || n > polygon.len() {
        start
    } else {
        extent_of_ring(
            extent_of_polygon(start, polygon, n - 1),
            polygon[n - 1]@,
            polygon[n - 1]@.len() as int,
        )
    }
}

/// The extent after the first `n` polygons of an outline.
pub open spec fn extent_of_outline(start: Extent, outline: Seq<Vec<Vec<Point>>>, n: int) -> Extent
    decreases n,
{
    if n <= 0 || n > outline.len() {
        start
    } else {
        extent_of_polygon(
            extent_of_outline(start, outline, n - 1),
            outline[n - 1]@,
            outline[n - 1]@.len() as int,
        )
    }
}

/// The points of the first `n` rings of a polygon, one after the other.
pub open spec fn points_of_polygon(polygon: Seq<Vec<Point>>, n: int) -> Seq<Point>
    decreases n,
{
    if n <= 0 || n > polygon.len() {
        Seq::empty()
    } else {
        points_of_polygon(polygon, n - 1) + polygon[n - 1]@
    }
}

/// For each polygon of an outline, its points.
pub open spec fn points_of_outline(outline: Seq<Vec<Vec<Point>>>) -> Seq<Seq<Point>> {
    outline.map_values(|p: Vec<Vec<Point>>| points_of_polygon(p@, p@.len() as int))
}

/// What a feature of the file of outlines says of itself.
#[derive(Debug)]
pub struct FeatureProperties {
    pub id: Option<String>,
    pub oceanic: Option<String>,
    pub region: Option<String>,
    pub division: Option<String>,
}

/// One feature of the file of outlines. Only an outline made of several
/// polygons counts as a geometry here: for a feature with another
/// geometry, or with none, `polygons` is empty.
#[derive(Debug)]
pub struct Feature {
    pub properties: Option<FeatureProperties>,
    pub polygons: Option<Vec<Vec<Vec<Point>>>>,
}

impl Feature {
    /// Whether the feature has all that an outline needs: its polygons and
    /// the four texts that describe it.
    pub open spec fn is_complete(&self) -> bool {
        &&& self.polygons is Some
        &&& self.properties is Some
        &&& self.properties->0.id is Some
        &&& self.properties->0.oceanic is Some
        &&& self.properties->0.region is Some
        &&& self.properties->0.division is Some
    }

    /// The outline that the feature describes, where it is complete.
    pub open spec fn spec_boundaries(&self) -> BoundariesView {
        let outline = self.polygons->0@;
        let extent = extent_of_outline(Extent::spec_empty(), outline, outline.len() as int);
        BoundariesView {
            id: self.properties->0.id->0@,
            region: self.properties->0.region->0@,
            division: self.properties->0.division->0@,
            is_oceanic: self.properties->0.oceanic->0@ == "1"@,
            min: extent.min,
            max: extent.max,
            center: extent.spec_center(),
            points: points_of_outline(outline),
        }
    }
}

/// The outline that a feature describes, with its extent and its middle;
/// nothing for a feature that is not complete.
pub fn extract_boundaries(feat: &Feature) -> (r: Option<Boundaries>)
    ensures
        r is Some <==> feat.is_complete(),
        r is Some ==> r->0@ == feat.spec_boundaries(),
{
    let outline = match &feat.polygons {
        Some(o) => o,
        None => {
            return None;
        },
    };
    let props = match &feat.properties {
        Some(p) => p,
        None => {
            return None;
        },
    };
    let id = match &props.id {
        Some(s) => s.clone(),
        None => {
            return None;
        },
    };
    let is_oceanic = match &props.oceanic {
        Some(s) => crate::text::same_text(s.as_str(), "1"),
        None => {
            return None;
        },
    };
    let region = match &props.region {
        Some(s) => s.clone(),
        None => {
            return None;
        },
    };
    let division = match &props.division {
        Some(s) => s.clone(),
        None => {
            return None;
        },
    };
    let mut points: Vec<Vec<Point>> = Vec::new();
    let mut extent = Extent {
        min: Point { lat: 0, lng: 0 },
        max: Point { lat: 0, lng: 0 },
        seen: false,
    };
    let mut i: usize = 0;
    while i < outline.len()
        invariant
            i <= outline.len(),
            extent == extent_of_outline(Extent::spec_empty(), outline@, i as int),
            points@.len() == i,
            forall|k: int|
                0 <= k < i ==> (#[trigger] points@[k])@ == points_of_polygon(
                    outline@[k]@,
                    outline@[k]@.len() as int,
                ),
        decreases outline.len() - i,
    {
        let polygon = &outline[i];
        let mut ppoly: Vec<Point> = Vec::new();
        let ghost before = extent;
        let mut j: usize = 0;
        while j < polygon.len()
            invariant
                j <= polygon.len(),
                extent == extent_of_polygon(before, polygon@, j as int),
                ppoly@ == points_of_polygon(polygon@, j as int),
            decreases polygon.len() - j,
        {
            let ring = &polygon[j];
            let ghost ring_start = extent;
            let ghost flat = ppoly@;
            let mut k: usize = 0;
            while k < ring.len()
                invariant
                    k <= ring.len(),
                    extent == extent_of_ring(ring_start, ring@, k as int),
                    ppoly@ == flat + ring@.subrange(0, k as int),
                decreases ring.len() - k,
            {
                extent = extent.with(ring[k]);
                ppoly.push(ring[k]);
                k += 1;
                assert(ppoly@ =~= flat + ring@.subrange(0, k as int));
            }
            assert(ring@.subrange(0, k as int) =~= ring@);
            j += 1;
        }
        points.push(ppoly);
        i += 1;
    }
    assert(crate::fixed::types::ring_views(points@) =~= points_of_outline(outline@));
    Some(
        Boundaries {
            id,
            region,
            division,
            is_oceanic,
            min: extent.min,
            max: extent.max,
            center: extent.center(),
            points,
        },
    )
}

/// The outlines that the first `n` features describe, in their order.
pub open spec fn spec_outlines(features: Seq<Feature>, n: int) -> Seq<BoundariesView>
    decreases n,
{
    if n <= 0 || n > features.len() {
        Seq::empty()
    } else if features[n - 1].is_complete() {
        spec_outlines(features, n - 1).push(features[n - 1].spec_boundaries())
    } else {
        spec_outlines(features, n - 1)
    }
}

/// The outlines that the features of a file describe; a feature that is not
/// complete is passed over.
pub fn load_boundaries(features: &Vec<Feature>) -> (r: Vec<Boundaries>)
    ensures
        crate::text::views(r@) == spec_outlines(features@, features@.len() as int),
{
    let mut out: Vec<Boundaries> = Vec::new();
    let mut i: usize = 0;
    assert(crate::text::views(out@) =~= Seq::<BoundariesView>::empty());
    while i < features.len()
        invariant
            i <= features.len(),
            crate::text::views(out@) == spec_outlines(features@, i as int),
        decreases features.len() - i,
    {
        let ghost before = crate::text::views(out@);
        match extract_boundaries(&features[i]) {
            Some(b) => {
                let ghost v = b@;
                out.push(b);
                assert(crate::text::views(out@) =~= before.push(v));
            },
            None => {},
        }
        i += 1;
    }
    out
}

} // verus!

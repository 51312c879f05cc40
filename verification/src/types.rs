//! Geographic primitives.
//!
//! Coordinates are fixed-point numbers: one unit is a millionth of a degree.
//! Latitude lives in `[-90°, 90°]`, longitude in `[-180°, 180°)`.

use vstd::prelude::*;

verus! {

/// Number of coordinate units in one degree.
pub const UNITS_PER_DEGREE: i64 = 1_000_000;

pub const MAX_LAT: i64 = 90_000_000;

pub const MIN_LAT: i64 = -90_000_000;

pub const HALF_TURN: i64 = 180_000_000;

pub const FULL_TURN: i64 = 360_000_000;

/// The easternmost longitude there is: the last one before the antimeridian.
pub const MAX_LNG: i64 = 179_999_999;

/// The westernmost longitude there is: the antimeridian itself.
pub const MIN_LNG: i64 = -180_000_000;

/// Latitude forced into `[MIN_LAT, MAX_LAT]`.
pub open spec fn clamp_lat(lat: int) -> int {
    if lat < MIN_LAT {
        MIN_LAT as int
    } else if lat > MAX_LAT {
        MAX_LAT as int
    } else {
        lat
    }
}

/// Longitude wrapped into `[-HALF_TURN, HALF_TURN)`.
pub open spec fn wrap_lng(lng: int) -> int {
    (lng + HALF_TURN) % (FULL_TURN as int) - HALF_TURN
}

/// Quotient rounded toward zero, for a positive divisor.
pub open spec fn div_toward_zero(a: int, b: int) -> int {
    if a >= 0 {
        a / b
    } else {
        -((-a) / b)
    }
}

pub open spec fn min_int(a: int, b: int) -> int {
    if a <= b {
        a
    } else {
        b
    }
}

pub open spec fn max_int(a: int, b: int) -> int {
    if a >= b {
        a
    } else {
        b
    }
}

fn clamp_lat_wide(lat: i128) -> (r: i64)
    ensures
        r == clamp_lat(lat as int),
{
    if lat < MIN_LAT as i128 {
        MIN_LAT
    } else if lat > MAX_LAT as i128 {
        MAX_LAT
    } else {
        lat as i64
    }
}

fn wrap_lng_wide(lng: i128) -> (r: i64)
    ensures
        r == wrap_lng(lng as int),
{
    let t: i128 = lng % (FULL_TURN as i128);
    let s: i128 = t + HALF_TURN as i128;
    let n: i128 = if s < 0 {
        s + FULL_TURN as i128
    } else if s >= FULL_TURN as i128 {
        s - FULL_TURN as i128
    } else {
        s
    };
    (n - HALF_TURN as i128) as i64
}

fn div_wide(a: i128, b: i128) -> (r: i128)
    requires
        b > 0,
        a > i128::MIN,
    ensures
        r == div_toward_zero(a as int, b as int),
{
    if a >= 0 {
        a / b
    } else {
        let n: i128 = -a;
        -(n / b)
    }
}

/// A position on the globe.
#[derive(Debug, Clone, Copy, PartialEq, Eq, Structural)]
pub struct Point {
    pub lat: i64,
    pub lng: i64,
}

impl Point {
    /// Whether the point lies in the canonical coordinate ranges.
    pub open spec fn in_range(self) -> bool {
        &&& MIN_LAT <= self.lat <= MAX_LAT
        &&& -HALF_TURN <= self.lng < HALF_TURN
    }

    /// The canonical point for these coordinates.
    pub open spec fn clamped(self) -> Point {
        Point { lat: clamp_lat(self.lat as int) as i64, lng: wrap_lng(self.lng as int) as i64 }
    }

    /// Clamps the latitude and wraps the longitude.
    pub fn clamp(&self) -> (r: Point)
        ensures
            r == self.clamped(),
            r.in_range(),
    {
        Point { lat: clamp_lat_wide(self.lat as i128), lng: wrap_lng_wide(self.lng as i128) }
    }

    /// The degenerate envelope that holds exactly this point.
    pub fn envelope(self) -> (e: Envelope)
        ensures
            e == Envelope::spec_from_point(self),
    {
        Envelope::from_point(self)
    }
}

/// Clamping lands in the canonical ranges, and clamping twice changes nothing.
pub proof fn lemma_clamp_canonical(p: Point)
    ensures
        p.clamped().in_range(),
        p.clamped().clamped() == p.clamped(),
        p.in_range() ==> p.clamped() == p,
{
}

/// An axis-aligned box given by its lower and upper corner.
#[derive(Debug, Clone, Copy, PartialEq, Eq, Structural)]
pub struct Envelope {
    pub lower: Point,
    pub upper: Point,
}

impl Envelope {
    pub open spec fn spec_lower(self) -> Point {
        self.lower
    }

    pub open spec fn spec_upper(self) -> Point {
        self.upper
    }

    /// The smallest box that holds both corners, whatever their order.
    pub open spec fn spec_from_corners(a: Point, b: Point) -> Envelope {
        Envelope {
            lower: Point {
                lat: min_int(a.lat as int, b.lat as int) as i64,
                lng: min_int(a.lng as int, b.lng as int) as i64,
            },
            upper: Point {
                lat: max_int(a.lat as int, b.lat as int) as i64,
                lng: max_int(a.lng as int, b.lng as int) as i64,
            },
        }
    }

    pub open spec fn spec_from_point(p: Point) -> Envelope {
        Envelope { lower: p, upper: p }
    }

    /// Both corners inclusive.
    pub open spec fn spec_contains(self, p: Point) -> bool {
        &&& self.spec_lower().lat <= p.lat <= self.spec_upper().lat
        &&& self.spec_lower().lng <= p.lng <= self.spec_upper().lng
    }

    /// Whether `other` lies entirely inside this box.
    pub open spec fn spec_contains_envelope(self, other: Envelope) -> bool {
        self.spec_contains(other.spec_lower()) && self.spec_contains(other.spec_upper())
    }

    /// Whether the two boxes share at least one point.
    pub open spec fn spec_intersects(self, other: Envelope) -> bool {
        &&& self.spec_lower().lat <= other.spec_upper().lat
        &&& other.spec_lower().lat <= self.spec_upper().lat
        &&& self.spec_lower().lng <= other.spec_upper().lng
        &&& other.spec_lower().lng <= self.spec_upper().lng
    }

    pub fn from_corners(a: Point, b: Point) -> (e: Envelope)
        ensures
            e == Envelope::spec_from_corners(a, b),
    {
        let lower = Point {
            lat: if a.lat <= b.lat { a.lat } else { b.lat },
            lng: if a.lng <= b.lng { a.lng } else { b.lng },
        };
        let upper = Point {
            lat: if a.lat >= b.lat { a.lat } else { b.lat },
            lng: if a.lng >= b.lng { a.lng } else { b.lng },
        };
        Envelope { lower, upper }
    }

    pub fn from_point(p: Point) -> (e: Envelope)
        ensures
            e == Envelope::spec_from_point(p),
    {
        Envelope { lower: p, upper: p }
    }

    pub fn lower(&self) -> (p: Point)
        ensures
            p == self.spec_lower(),
    {
        self.lower
    }

    pub fn upper(&self) -> (p: Point)
        ensures
            p == self.spec_upper(),
    {
        self.upper
    }

    pub fn contains(&self, p: Point) -> (b: bool)
        ensures
            b == self.spec_contains(p),
    {
        self.lower.lat <= p.lat && p.lat <= self.upper.lat && self.lower.lng <= p.lng && p.lng
            <= self.upper.lng
    }

    pub fn contains_envelope(&self, other: &Envelope) -> (b: bool)
        ensures
            b == self.spec_contains_envelope(*other),
    {
        self.contains(other.lower) && self.contains(other.upper)
    }

    pub fn intersects(&self, other: &Envelope) -> (b: bool)
        ensures
            b == self.spec_intersects(*other),
    {
        self.lower.lat <= other.upper.lat && other.lower.lat <= self.upper.lat && self.lower.lng
            <= other.upper.lng && other.lower.lng <= self.upper.lng
    }
}

/// A viewport given by its south-west and north-east corner. It may straddle
/// the antimeridian, in which case the west corner has the larger longitude.
#[derive(Debug, Clone, Copy, PartialEq, Eq, Structural)]
pub struct Rect {
    pub south_west: Point,
    pub north_east: Point,
}

impl Rect {
    /// Whether the viewport crosses the antimeridian.
    pub open spec fn wraps(self) -> bool {
        self.south_west.lng > 0 && self.north_east.lng < 0
    }

    /// The southern edge of the viewport.
    pub open spec fn south(self) -> i64 {
        min_int(self.south_west.lat as int, self.north_east.lat as int) as i64
    }

    /// The northern edge of the viewport.
    pub open spec fn north(self) -> i64 {
        max_int(self.south_west.lat as int, self.north_east.lat as int) as i64
    }

    /// The boxes a spatial query has to visit for this viewport. One that
    /// crosses the antimeridian is split there: the first box runs from the
    /// west corner to the last longitude before the antimeridian, the second
    /// from the antimeridian to the east corner. A box whose west edge lies
    /// east of its east edge holds nothing.
    pub open spec fn spec_envelopes(self) -> Seq<Envelope> {
        if self.wraps() {
            seq![
                Envelope {
                    lower: Point { lat: self.south(), lng: self.south_west.lng },
                    upper: Point { lat: self.north(), lng: MAX_LNG },
                },
                Envelope {
                    lower: Point { lat: self.south(), lng: MIN_LNG },
                    upper: Point { lat: self.north(), lng: self.north_east.lng },
                },
            ]
        } else {
            seq![Envelope::spec_from_corners(self.south_west, self.north_east)]
        }
    }

    /// Whether `p` lies in the viewport. Where the viewport crosses the
    /// antimeridian, that is from the west corner up to the antimeridian, or
    /// from the antimeridian to the east corner: longitudes run from
    /// `-HALF_TURN` to just below `HALF_TURN`.
    pub open spec fn spec_covers(self, p: Point) -> bool {
        &&& self.south() <= p.lat <= self.north()
        &&& if self.wraps() {
            self.south_west.lng <= p.lng < HALF_TURN || -HALF_TURN <= p.lng
                <= self.north_east.lng
        } else {
            min_int(self.south_west.lng as int, self.north_east.lng as int) <= p.lng <= max_int(
                self.south_west.lng as int,
                self.north_east.lng as int,
            )
        }
    }

    /// The viewport grown (or shrunk) around its centre by `permille / 1000`,
    /// before its corners are made canonical.
    pub open spec fn spec_scale(self, permille: int) -> Rect {
        let ext = permille - 1000;
        let lng_ext = div_toward_zero((self.north_east.lng - self.south_west.lng) * ext, 2000);
        let lat_ext = div_toward_zero((self.north_east.lat - self.south_west.lat) * ext, 2000);
        Rect {
            south_west: Point {
                lat: clamp_lat(self.south_west.lat - lat_ext) as i64,
                lng: wrap_lng(self.south_west.lng - lng_ext) as i64,
            },
            north_east: Point {
                lat: clamp_lat(self.north_east.lat + lat_ext) as i64,
                lng: wrap_lng(self.north_east.lng + lng_ext) as i64,
            },
        }
    }

    /// The viewport with the given corners; a corner that is missing lies
    /// where the equator meets the prime meridian.
    pub fn from_bounds(sw: Option<Point>, ne: Option<Point>) -> (r: Rect)
        ensures
            r.south_west == match sw {
                Some(p) => p,
                None => Point { lat: 0, lng: 0 },
            },
            r.north_east == match ne {
                Some(p) => p,
                None => Point { lat: 0, lng: 0 },
            },
    {
        Rect {
            south_west: match sw {
                Some(p) => p,
                None => Point { lat: 0, lng: 0 },
            },
            north_east: match ne {
                Some(p) => p,
                None => Point { lat: 0, lng: 0 },
            },
        }
    }

    pub fn new(min_lng: i64, min_lat: i64, max_lng: i64, max_lat: i64) -> (r: Rect)
        ensures
            r.south_west == (Point { lat: min_lat, lng: min_lng }),
            r.north_east == (Point { lat: max_lat, lng: max_lng }),
    {
        Rect {
            south_west: Point { lng: min_lng, lat: min_lat },
            north_east: Point { lng: max_lng, lat: max_lat },
        }
    }

    fn width(&self) -> (w: i128)
        ensures
            w == self.north_east.lng - self.south_west.lng,
    {
        self.north_east.lng as i128 - self.south_west.lng as i128
    }

    fn height(&self) -> (h: i128)
        ensures
            h == self.north_east.lat - self.south_west.lat,
    {
        self.north_east.lat as i128 - self.south_west.lat as i128
    }

    /// Scales the viewport around its centre. `permille` is the factor in
    /// thousandths: 1300 widens each side by 15% of the extent.
    pub fn scale(&self, permille: u32) -> (r: Rect)
        ensures
            r == self.spec_scale(permille as int),
            r.south_west.in_range(),
            r.north_east.in_range(),
    {
        let ext: i128 = permille as i128 - 1000;
        let w: i128 = self.width();
        let h: i128 = self.height();
        assert(-0x1_0000_0000_0000_0000 < w < 0x1_0000_0000_0000_0000);
        assert(-0x1_0000_0000_0000_0000 < h < 0x1_0000_0000_0000_0000);
        assert(-0x1_0000_0000 < ext < 0x1_0000_0000);
        assert(-0x1_0000_0000_0000_0000_0000_0000 < w * ext < 0x1_0000_0000_0000_0000_0000_0000)
            by (nonlinear_arith)
            requires
                -0x1_0000_0000_0000_0000 < w < 0x1_0000_0000_0000_0000,
                -0x1_0000_0000 < ext < 0x1_0000_0000,
        ;
        assert(-0x1_0000_0000_0000_0000_0000_0000 < h * ext < 0x1_0000_0000_0000_0000_0000_0000)
            by (nonlinear_arith)
            requires
                -0x1_0000_0000_0000_0000 < h < 0x1_0000_0000_0000_0000,
                -0x1_0000_0000 < ext < 0x1_0000_0000,
        ;
        let lng_ext: i128 = div_wide(w * ext, 2000);
        let lat_ext: i128 = div_wide(h * ext, 2000);
        Rect {
            south_west: Point {
                lat: clamp_lat_wide(self.south_west.lat as i128 - lat_ext),
                lng: wrap_lng_wide(self.south_west.lng as i128 - lng_ext),
            },
            north_east: Point {
                lat: clamp_lat_wide(self.north_east.lat as i128 + lat_ext),
                lng: wrap_lng_wide(self.north_east.lng as i128 + lng_ext),
            },
        }
    }

    /// One box for an ordinary viewport; two for one that crosses the
    /// antimeridian: `[west corner, MAX_LNG]` and `[MIN_LNG, east corner]`.
    pub fn envelopes(&self) -> (v: Vec<Envelope>)
        ensures
            v@ == self.spec_envelopes(),
            self.wraps() ==> v@.len() == 2,
            !self.wraps() ==> v@.len() == 1,
    {
        if self.south_west.lng > 0 && self.north_east.lng < 0 {
            let (south, north) = if self.south_west.lat <= self.north_east.lat {
                (self.south_west.lat, self.north_east.lat)
            } else {
                (self.north_east.lat, self.south_west.lat)
            };
            let mut v: Vec<Envelope> = Vec::new();
            v.push(
                Envelope {
                    lower: Point { lat: south, lng: self.south_west.lng },
                    upper: Point { lat: north, lng: MAX_LNG },
                },
            );
            v.push(
                Envelope {
                    lower: Point { lat: south, lng: MIN_LNG },
                    upper: Point { lat: north, lng: self.north_east.lng },
                },
            );
            assert(v@ =~= self.spec_envelopes());
            v
        } else {
            let mut v: Vec<Envelope> = Vec::new();
            v.push(Envelope::from_corners(self.south_west, self.north_east));
            assert(v@ =~= self.spec_envelopes());
            v
        }
    }
}

/// A viewport on one side of the antimeridian is queried with one box, which
/// holds exactly the points the viewport covers.
pub proof fn lemma_envelopes_plain(r: Rect, p: Point)
    requires
        !r.wraps(),
    ensures
        r.spec_envelopes().len() == 1,
        r.spec_envelopes()[0].spec_contains(p) <==> r.spec_covers(p),
{
}

/// A viewport that crosses the antimeridian is queried with two boxes: one
/// from its west corner to the last longitude before the antimeridian, one
/// from the antimeridian to its east corner, both from its southern to its
/// northern edge. Between them the two hold exactly the points that the
/// viewport covers.
pub proof fn lemma_envelopes_wrapped(r: Rect, p: Point)
    requires
        r.wraps(),
    ensures
        r.spec_envelopes().len() == 2,
        r.spec_envelopes()[0].lower == (Point { lat: r.south(), lng: r.south_west.lng }),
        r.spec_envelopes()[0].upper == (Point { lat: r.north(), lng: (HALF_TURN - 1) as i64 }),
        r.spec_envelopes()[1].lower == (Point { lat: r.south(), lng: (-HALF_TURN) as i64 }),
        r.spec_envelopes()[1].upper == (Point { lat: r.north(), lng: r.north_east.lng }),
        (r.spec_envelopes()[0].spec_contains(p) || r.spec_envelopes()[1].spec_contains(p))
            <==> r.spec_covers(p),
        r.north_east.lng < p.lng < r.south_west.lng ==> !r.spec_envelopes()[0].spec_contains(p)
            && !r.spec_envelopes()[1].spec_contains(p),
{
}

} // verus!

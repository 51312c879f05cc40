use simwatch::types::{Envelope, Point, Rect, MAX_LNG, MIN_LNG};

fn deg(x: f64) -> i64 {
    (x * 1_000_000.0).round() as i64
}

fn point(lat: f64, lng: f64) -> Point {
    Point { lat: deg(lat), lng: deg(lng) }
}

#[test]
fn test_rect_wrap() {
    let rect = Rect::new(deg(170.0), deg(0.0), deg(-170.0), deg(10.0));
    let envs = rect.envelopes();
    assert_eq!(envs.len(), 2);

    assert_eq!(envs[0].lower(), point(0.0, 170.0));
    assert_eq!(envs[0].upper(), Point { lat: deg(10.0), lng: MAX_LNG });

    assert_eq!(envs[1].lower(), Point { lat: deg(0.0), lng: MIN_LNG });
    assert_eq!(envs[1].upper(), point(10.0, -170.0));
}

#[test]
fn test_nowrap() {
    let rect = Rect::new(deg(0.0), deg(0.0), deg(10.0), deg(10.0));
    let envs = rect.envelopes();
    assert_eq!(envs.len(), 1);
    assert_eq!(envs[0].lower(), point(0.0, 0.0));
    assert_eq!(envs[0].upper(), point(10.0, 10.0));
}

#[test]
fn split_limits_lie_at_the_antimeridian() {
    assert_eq!(MAX_LNG, 179_999_999);
    assert_eq!(MIN_LNG, -180_000_000);
    assert_eq!(MIN_LNG, point(0.0, 180.0).clamp().lng);
}

#[test]
fn wrapped_viewport_reaches_up_to_the_antimeridian() {
    let rect = Rect::new(deg(170.0), deg(0.0), deg(-170.0), deg(10.0));
    let envs = rect.envelopes();
    let inside = |p: Point| envs.iter().any(|e| e.contains(p));
    assert!(inside(point(5.0, 179.99995)));
    assert!(inside(point(5.0, 179.999999)));
    assert!(inside(point(5.0, -180.0)));
    assert!(inside(point(5.0, -179.99995)));
    assert!(inside(point(5.0, 170.0)) && inside(point(5.0, -170.0)));
    assert!(!inside(point(5.0, 169.999999)) && !inside(point(5.0, -169.999999)));
    assert!(!inside(point(5.0, 0.0)) && !inside(point(10.000001, 175.0)));
}

#[test]
fn west_corner_close_to_the_antimeridian_keeps_its_side() {
    let rect = Rect::new(179_999_950, deg(10.0), -179_999_950, deg(0.0));
    let envs = rect.envelopes();
    assert_eq!(envs.len(), 2);
    assert_eq!(envs[0].lower(), Point { lat: 0, lng: 179_999_950 });
    assert_eq!(envs[0].upper(), Point { lat: deg(10.0), lng: 179_999_999 });
    assert_eq!(envs[1].lower(), Point { lat: 0, lng: -180_000_000 });
    assert_eq!(envs[1].upper(), Point { lat: deg(10.0), lng: -179_999_950 });
    assert!(envs[0].contains(Point { lat: 5, lng: 179_999_975 }));
    assert!(!envs[0].contains(Point { lat: 5, lng: 179_999_925 }));
    assert!(envs[1].contains(Point { lat: 5, lng: -179_999_975 }));
    assert!(!envs[1].contains(Point { lat: 5, lng: -179_999_925 }));

    let beyond = Rect::new(deg(180.0), 0, deg(-180.5), deg(1.0)).envelopes();
    assert_eq!(beyond.len(), 2);
    assert_eq!(beyond[0].lower().lng, deg(180.0));
    assert!(!beyond[0].contains(Point { lat: 5, lng: 179_999_999 }));
    assert!(!beyond[1].contains(Point { lat: 5, lng: -180_000_000 }));
}

#[test]
fn clamp_brings_points_into_range() {
    assert_eq!(point(95.0, 190.0).clamp(), point(90.0, -170.0));
    assert_eq!(point(-95.0, -190.0).clamp(), point(-90.0, 170.0));
    assert_eq!(point(45.0, 180.0).clamp(), point(45.0, -180.0));
    assert_eq!(point(45.0, -180.0).clamp(), point(45.0, -180.0));
    assert_eq!(point(45.0, 540.0).clamp(), point(45.0, -180.0));
    assert_eq!(point(12.5, 13.25).clamp(), point(12.5, 13.25));
    let far = Point { lat: i64::MAX, lng: i64::MIN };
    let c = far.clamp();
    assert!(c.lat == deg(90.0) && c.lng >= deg(-180.0) && c.lng < deg(180.0));
}

#[test]
fn clamp_twice_is_clamp_once() {
    for p in [point(95.0, 190.0), point(-100.0, -721.5), point(0.0, 359.999999)] {
        assert_eq!(p.clamp().clamp(), p.clamp());
    }
}

#[test]
fn viewport_at_the_antimeridian_takes_two_envelopes() {
    let rect = Rect::new(deg(179.999999), deg(-10.0), deg(-179.999999), deg(10.0));
    let envs = rect.envelopes();
    assert_eq!(envs.len(), 2);
    assert!(envs[0].contains(point(0.0, 179.999999)));
    assert!(envs[1].contains(point(0.0, -179.999999)));
    assert!(envs[1].contains(point(0.0, -180.0)));
    assert!(!envs[0].contains(point(0.0, 179.9999)));
    assert!(!envs[1].contains(point(0.0, -179.9999)));
    assert!(!envs[0].contains(point(0.0, 0.0)) && !envs[1].contains(point(0.0, 0.0)));
}

#[test]
fn wrapped_viewport_covers_both_sides() {
    let rect = Rect::new(deg(170.0), deg(0.0), deg(-170.0), deg(10.0));
    let envs = rect.envelopes();
    let inside = |p: Point| envs.iter().any(|e| e.contains(p));
    assert!(inside(point(5.0, 175.0)));
    assert!(inside(point(5.0, -175.0)));
    assert!(!inside(point(5.0, 0.0)));
    assert!(!inside(point(11.0, 175.0)));
}

#[test]
fn scale_widens_around_the_centre() {
    let rect = Rect::new(deg(10.0), deg(20.0), deg(30.0), deg(40.0));
    let wide = rect.scale(1300);
    assert_eq!(wide.south_west, point(17.0, 7.0));
    assert_eq!(wide.north_east, point(43.0, 33.0));
    assert_eq!(rect.scale(1000).south_west, rect.south_west);
    let narrow = rect.scale(500);
    assert_eq!(narrow.south_west, point(25.0, 15.0));
    assert_eq!(narrow.north_east, point(35.0, 25.0));
    let world = Rect::new(deg(-179.0), deg(-89.0), deg(179.0), deg(89.0)).scale(1300);
    assert_eq!(world.south_west.lat, deg(-90.0));
    assert_eq!(world.north_east.lat, deg(90.0));
}

#[test]
fn envelopes_order_their_corners() {
    let e = Envelope::from_corners(point(3.0, 1.0), point(1.0, 3.0));
    assert_eq!(e.lower(), point(1.0, 1.0));
    assert_eq!(e.upper(), point(3.0, 3.0));
    let other = Envelope::from_corners(point(0.0, 0.0), point(2.0, 2.0));
    assert!(e.intersects(&other));
    assert!(!other.contains_envelope(&e));
    assert!(Envelope::from_corners(point(0.0, 0.0), point(5.0, 5.0)).contains_envelope(&e));
    assert_eq!(point(1.0, 2.0).envelope(), Envelope::from_point(point(1.0, 2.0)));
}

#[test]
fn missing_corner_lies_at_the_origin() {
    let p = Point { lat: 1, lng: 2 };
    let q = Point { lat: 3, lng: 4 };
    assert_eq!(Rect::from_bounds(Some(p), Some(q)), Rect { south_west: p, north_east: q });
    assert_eq!(
        Rect::from_bounds(None, Some(q)),
        Rect { south_west: Point { lat: 0, lng: 0 }, north_east: q }
    );
    assert_eq!(Rect::from_bounds(Some(p), None).north_east, Point { lat: 0, lng: 0 });
    assert_eq!(Rect::from_bounds(None, None), Rect::new(0, 0, 0, 0));
}

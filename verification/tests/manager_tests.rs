use simwatch::fixed::boundaries::{extract_boundaries, Feature, FeatureProperties};
use simwatch::fixed::geonames::{parse_countries, Geonames, GeonamesShape};
use simwatch::fixed::parser::parse;
use simwatch::manager::metrics::{Metric, MetricType, Metrics, Sample};
use simwatch::manager::spatial::SpatialIndex;
use simwatch::manager::Manager;
use simwatch::moving::controller::{Controller, Facility};
use simwatch::moving::data::{Data, General};
use simwatch::moving::pilot::{FlightPlan, Pilot};
use simwatch::service::subscribe::{QuerySession, QueryUpdateType, SubscriptionRequest};
use simwatch::service::{
    check_query, list_pilots, MapBounds, Request, Session, Update, UpdateType,
};
use simwatch::types::{Envelope, Point, Rect};

fn deg(x: f64) -> i64 {
    (x * 1_000_000.0).round() as i64
}

fn point(lat: f64, lng: f64) -> Point {
    Point { lat: deg(lat), lng: deg(lng) }
}

#[test]
fn test_intersection() {
    let mut tree = SpatialIndex::new();
    tree.insert("1", Envelope::from_corners(point(1.0, 1.0), point(3.0, 3.0)));

    let env = Envelope::from_corners(point(0.0, 0.0), point(2.0, 2.0));

    let objs = tree.locate_in_envelope_intersecting(env);
    assert_eq!(objs.len(), 1);
    let objs = tree.locate_in_envelope(env);
    assert_eq!(objs.len(), 0);
}

#[test]
fn index_finds_moves_and_forgets() {
    let mut tree = SpatialIndex::new();
    tree.insert("a", Envelope::from_point(point(1.0, 1.0)));
    tree.insert("b", Envelope::from_point(point(2.0, 2.0)));
    tree.insert("c", Envelope::from_point(point(9.0, 9.0)));
    let all = Envelope::from_corners(point(0.0, 0.0), point(5.0, 5.0));
    let mut found = tree.locate_in_envelope(all);
    found.sort();
    assert_eq!(found, vec!["a", "b"]);
    tree.insert("a", Envelope::from_point(point(8.0, 8.0)));
    assert_eq!(tree.locate_in_envelope(all), vec!["b"]);
    assert!(tree.remove("b"));
    assert!(!tree.remove("b"));
    assert!(!tree.remove("never"));
    assert!(tree.locate_in_envelope(all).is_empty());
    let huge = Envelope::from_corners(
        Point { lat: i64::MIN, lng: i64::MIN },
        Point { lat: i64::MAX, lng: i64::MAX },
    );
    let mut found = tree.locate_in_envelope(huge);
    found.sort();
    assert_eq!(found, vec!["a", "c"]);
    let far = Envelope::from_corners(
        Point { lat: 500_000_000, lng: 500_000_000 },
        Point { lat: 600_000_000, lng: 600_000_000 },
    );
    assert!(tree.locate_in_envelope_intersecting(far).is_empty());
    for i in 0..50 {
        tree.insert(&format!("p{}", i), Envelope::from_point(point(i as f64, -(i as f64))));
    }
    let band = Envelope::from_corners(point(10.0, -20.0), point(20.0, -10.0));
    assert_eq!(tree.locate_in_envelope(band).len(), 11);
}

fn pilot(callsign: &str, lat: f64, lng: f64) -> Pilot {
    Pilot {
        cid: 1,
        name: "Name".into(),
        callsign: callsign.into(),
        server: "S".into(),
        pilot_rating: 1,
        position: point(lat, lng),
        altitude: 30000,
        groundspeed: 450,
        transponder: "2200".into(),
        heading: 90,
        qnh_i_hg: 2992,
        qnh_mb: 1013,
        flight_plan: None,
        logon_time: 0,
        last_updated: 0,
        aircraft_type: None,
    }
}

fn plan(rules: &str, aircraft: &str) -> FlightPlan {
    FlightPlan {
        flight_rules: rules.into(),
        aircraft: aircraft.into(),
        departure: "EGLL".into(),
        arrival: "KLAX".into(),
        alternate: "".into(),
        cruise_tas: 450,
        altitude: 35000,
        deptime: "".into(),
        enroute_time: "".into(),
        fuel_time: "".into(),
        remarks: "".into(),
        route: "".into(),
    }
}

fn controller(callsign: &str, facility: Facility) -> Controller {
    Controller {
        cid: 1,
        name: "C".into(),
        callsign: callsign.into(),
        freq: 118_500,
        facility,
        rating: 3,
        server: "S".into(),
        visual_range: 50,
        atis_code: "".into(),
        text_atis: "".into(),
        human_readable: None,
        last_updated: 1,
        logon_time: 0,
    }
}

fn snapshot(at: i64, pilots: Vec<Pilot>, controllers: Vec<Controller>) -> Data {
    Data {
        general: General {
            version: 3,
            reload: 1,
            connected_clients: 0,
            unique_users: 0,
            updated_at: at,
        },
        pilots,
        controllers,
    }
}

fn square(lat: f64, lng: f64, size: f64) -> Vec<Point> {
    vec![
        point(lat, lng),
        point(lat, lng + size),
        point(lat + size, lng + size),
        point(lat + size, lng),
        point(lat, lng),
    ]
}

const REFERENCE: &str = "[Countries]\nUnited Kingdom|EG|Control\n[Airports]\nEGLL|London Heathrow|51.4775|-0.461389|LHR|EGTT|0\nKLAX|Los Angeles|33.9425|-118.408056|LAX|KZLA|0\nNFFN|Nadi|-17.755|177.443|NAN|NFFF|0\n[FIRs]\nEGTT|London|EGTT|EGTT\n";

const COUNTRIES: &str = "GB\tGBR\t826\tUK\tUnited Kingdom\tLondon\t244820\t66488991\tEU\t.uk\tGBP\tPound\t44\t@\t^x$\ten-GB\t2635167\tIE\tx\n";

fn manager() -> Manager {
    let geonames = Geonames::load(
        parse_countries(COUNTRIES),
        vec![GeonamesShape::from_vec("2635167".into(), vec![square(50.0, -5.0, 8.0)])],
    );
    let outline = extract_boundaries(&Feature {
        properties: Some(FeatureProperties {
            id: Some("EGTT".into()),
            oceanic: Some("0".into()),
            region: Some("EMEA".into()),
            division: Some("VATUK".into()),
        }),
        polygons: Some(vec![vec![square(50.0, -2.0, 4.0)]]),
    })
    .unwrap();
    let fixed = parse(REFERENCE, vec![outline], vec![], geonames).unwrap();
    let mut m = Manager::new(1_000);
    m.setup_fixed_data(fixed);
    m
}

fn callsigns(pilots: &[Pilot]) -> Vec<String> {
    let mut v: Vec<String> = pilots.iter().map(|p| p.callsign.clone()).collect();
    v.sort();
    v
}

#[test]
fn wrapped_viewport_finds_pilots_on_both_sides() {
    let mut m = manager();
    m.run(&snapshot(
        5,
        vec![pilot("EAST", 5.0, 175.0), pilot("WEST", 5.0, -175.0), pilot("ZERO", 5.0, 0.0)],
        vec![],
    ));
    let rect = Rect::new(deg(170.0), deg(0.0), deg(-170.0), deg(10.0));
    assert_eq!(callsigns(&m.get_pilots(&rect, &vec![])), vec!["EAST", "WEST"]);
    assert_eq!(
        callsigns(&m.get_pilots(&rect, &vec!["ZERO".to_string(), "NOBODY".to_string()])),
        vec!["EAST", "WEST", "ZERO"]
    );
    let plain = Rect::new(deg(-10.0), deg(0.0), deg(10.0), deg(10.0));
    assert_eq!(callsigns(&m.get_pilots(&plain, &vec![])), vec!["ZERO"]);
    assert_eq!(m.get_all_pilots().len(), 3);
    assert_eq!(m.get_pilot_by_callsign("WEST").unwrap().position, point(5.0, -175.0));
    assert!(m.get_pilot_by_callsign("NORTH").is_none());
}

#[test]
fn older_snapshot_changes_nothing() {
    let mut m = manager();
    assert!(m.run(&snapshot(10, vec![pilot("A", 1.0, 1.0)], vec![])).is_some());
    let before = m.render_metrics(20_000);
    assert!(m.run(&snapshot(10, vec![], vec![controller("EGLL_TWR", Facility::Tower)])).is_none());
    assert!(m.run(&snapshot(9, vec![pilot("B", 1.0, 1.0)], vec![])).is_none());
    assert_eq!(callsigns(&m.get_all_pilots()), vec!["A"]);
    assert!(m.get_all_airports(false).is_empty());
    assert_eq!(m.render_metrics(20_000), before);
    assert!(m.run(&snapshot(11, vec![pilot("B", 1.0, 1.0)], vec![])).is_some());
    assert_eq!(callsigns(&m.get_all_pilots()), vec!["B"]);
}

#[test]
fn empty_snapshot_empties_everything() {
    let mut m = manager();
    m.run(&snapshot(
        1,
        vec![pilot("A", 1.0, 1.0), pilot("B", 2.0, 2.0)],
        vec![controller("EGLL_TWR", Facility::Tower), controller("EGTT_CTR", Facility::Radar)],
    ));
    assert_eq!(m.get_all_airports(false).len(), 1);
    assert_eq!(m.get_all_firs().len(), 1);
    let staffed = m.run(&snapshot(2, vec![], vec![])).unwrap();
    assert_eq!(staffed.count, 0);
    assert!(staffed.controlled.is_empty());
    assert!(m.get_all_pilots().is_empty());
    assert!(m.get_all_airports(false).is_empty());
    assert!(m.get_all_firs().is_empty());
    let world = Rect::new(deg(-179.0), deg(-89.0), deg(179.0), deg(89.0));
    assert!(m.get_pilots(&world, &vec![]).is_empty());
    assert!(m.get_airports(&world, true).is_empty());
    assert!(m.get_firs(&world).is_empty());
    let mut session = Session::new(0);
    session.handle(Request::Bounds(MapBounds { rect: world, zoom: deg(5.0) }), 0);
    assert!(session.tick(&m, 0).updates().is_empty());
}

#[test]
fn controllers_come_and_go_with_the_snapshots() {
    let mut m = manager();
    let staffed = m
        .run(&snapshot(
            1,
            vec![pilot("OVERUK", 52.0, -1.0), pilot("SEA", 0.0, 0.0)],
            vec![
                controller("EGLL_TWR", Facility::Tower),
                controller("EGLL_GND", Facility::Ground),
                controller("KLAX_TWR", Facility::Tower),
                controller("EGTT_CTR", Facility::Radar),
                controller("NOPE_OBS", Facility::Reject),
                controller("ZZZZ_TWR", Facility::Tower),
            ],
        ))
        .unwrap();
    assert_eq!(staffed.count, 5);
    assert_eq!(staffed.controlled, vec!["EGLL", "KLAX"]);
    assert_eq!(staffed.groups.get("2635167:tower"), Some(1));
    assert_eq!(staffed.groups.get("2635167:ground"), Some(1));
    assert_eq!(staffed.groups.get("2635167:radar"), Some(1));
    assert_eq!(staffed.groups.len(), 3);
    let heathrow = m.find_airport("EGLL").unwrap();
    assert!(heathrow.controllers.tower.is_some() && heathrow.controllers.ground.is_some());
    let text = m.render_metrics(2_500);
    assert!(text.contains(
        "vatsim_objects_online{continent_code=\"EU\",country_code=\"GB\",object_type=\"pilot\"} 1\n"
    ));
    assert!(text.contains(
        "vatsim_objects_online{continent_code=\"EU\",controller_type=\"tower\",country_code=\"GB\",object_type=\"controller\"} 1\n"
    ));
    assert!(text.contains("vatsim_data_age_sec 2\n"));
    assert!(text.contains("# TYPE uptime counter\nuptime 2\n"));

    m.run(&snapshot(2_000, vec![], vec![controller("EGLL_GND", Facility::Ground)]));
    let heathrow = m.find_airport("EGLL").unwrap();
    assert!(heathrow.controllers.tower.is_none() && heathrow.controllers.ground.is_some());
    assert!(m.find_airport("KLAX").unwrap().controllers.is_empty());
    assert!(m.get_all_firs().is_empty());
    assert_eq!(m.get_all_airports(false).len(), 1);
    let uk = Rect::new(deg(-5.0), deg(50.0), deg(3.0), deg(58.0));
    assert_eq!(m.get_airports(&uk, false).len(), 1);
    assert!(m.get_airports(&Rect::new(0, 0, deg(1.0), deg(1.0)), true).is_empty());
}

#[test]
fn regions_in_view_are_those_that_the_viewport_touches() {
    let mut m = manager();
    m.run(&snapshot(1, vec![], vec![controller("EGTT_CTR", Facility::Radar)]));
    let touching = Rect::new(deg(1.0), deg(53.0), deg(20.0), deg(60.0));
    assert_eq!(m.get_firs(&touching).len(), 1);
    let apart = Rect::new(deg(10.0), deg(53.0), deg(20.0), deg(60.0));
    assert!(m.get_firs(&apart).is_empty());
}

#[test]
fn cleanup_is_due_every_fifth_time() {
    let mut m = manager();
    let due: Vec<bool> = (0..11).map(|_| m.cleanup_due()).collect();
    assert_eq!(
        due,
        vec![false, false, false, false, true, false, false, false, false, true, false]
    );
}

#[test]
fn session_is_told_what_is_new_and_what_is_gone() {
    let mut m = manager();
    m.run(&snapshot(1, vec![pilot("A", 1.0, 1.0), pilot("B", 2.0, 2.0)], vec![]));
    let world = Rect::new(deg(-179.0), deg(-89.0), deg(179.0), deg(89.0));
    let mut session = Session::new(100);
    assert!(session.tick(&m, 100).updates().is_empty());
    session.handle(Request::Bounds(MapBounds { rect: world, zoom: deg(5.0) }), 100);

    let first = session.tick(&m, 100);
    assert_eq!(callsigns(&first.pilots_set), vec!["A", "B"]);
    assert!(first.pilots_delete.is_empty());
    match &first.updates()[..] {
        [Update::PilotUpdate(UpdateType::Put, pilots)] => assert_eq!(pilots.len(), 2),
        _ => panic!(),
    }

    assert!(session.tick(&m, 5_099).updates().is_empty());
    let second = session.tick(&m, 5_100);
    assert!(second.pilots_set.is_empty() && second.pilots_delete.is_empty());
    assert!(second.updates().is_empty());

    m.run(&snapshot(2, vec![pilot("A", 1.0, 1.0)], vec![]));
    let third = session.tick(&m, 10_100);
    assert!(third.pilots_set.is_empty());
    assert_eq!(callsigns(&third.pilots_delete), vec!["B"]);
    match &third.updates()[..] {
        [Update::PilotUpdate(UpdateType::Delete, pilots)] => assert_eq!(pilots[0].callsign, "B"),
        _ => panic!(),
    }

    m.run(&snapshot(3, vec![pilot("A", 1.5, 1.0)], vec![controller("EGLL_TWR", Facility::Tower)]));
    let fourth = session.tick(&m, 15_100);
    assert_eq!(callsigns(&fourth.pilots_set), vec!["A"]);
    assert_eq!(fourth.airports_set.len(), 1);
    assert!(fourth.firs_set.is_empty());
    assert_eq!(fourth.updates().len(), 2);
}

#[test]
fn session_filters_but_keeps_what_is_followed() {
    let mut m = manager();
    let mut ifr = pilot("AER384", 1.0, 1.0);
    ifr.flight_plan = Some(plan("I", "A320"));
    let mut vfr = pilot("GABCD", 1.0, 1.0);
    vfr.flight_plan = Some(plan("V", "C172"));
    m.run(&snapshot(1, vec![ifr, vfr, pilot("NOPLAN", 1.0, 1.0)], vec![]));
    let near = Rect::new(deg(0.0), deg(0.0), deg(2.0), deg(2.0));

    let mut session = Session::new(0);
    session.handle(Request::Bounds(MapBounds { rect: near, zoom: deg(2.0) }), 0);
    session.handle(Request::Filter("rules == \"ifr\"".into()), 0);
    assert_eq!(callsigns(&session.tick(&m, 0).pilots_set), vec!["AER384"]);

    session.handle(Request::SubscribeId("NOPLAN".into()), 1);
    assert_eq!(callsigns(&session.tick(&m, 1).pilots_set), vec!["NOPLAN"]);

    session.handle(Request::UnsubscribeId("NOPLAN".into()), 2);
    assert_eq!(callsigns(&session.tick(&m, 2).pilots_delete), vec!["NOPLAN"]);

    session.handle(Request::Filter("".into()), 3);
    assert_eq!(callsigns(&session.tick(&m, 3).pilots_set), vec!["GABCD", "NOPLAN"]);

    session.handle(Request::Filter("nonsense ==".into()), 4);
    assert!(session.tick(&m, 4).updates().is_empty());

    session.handle(Request::Filter("callsign =~ \"^G\" or alt > 40000".into()), 5);
    let delta = session.tick(&m, 5);
    assert_eq!(callsigns(&delta.pilots_delete), vec!["AER384", "NOPLAN"]);

    session.handle(Request::ShowWx(true), 6);
    session.handle(Request::Bounds(MapBounds { rect: near, zoom: deg(5.0) }), 6);
    assert!(session.tick(&m, 6).updates().is_empty());
    let away = Rect::new(deg(50.0), deg(50.0), deg(52.0), deg(52.0));
    session.handle(Request::Bounds(MapBounds { rect: away, zoom: deg(5.0) }), 7);
    assert_eq!(callsigns(&session.tick(&m, 7).pilots_delete), vec!["GABCD"]);
}

#[test]
fn queries_are_checked_and_answered() {
    let ok = check_query("alt > 100 and (rules == \"v\" or callsign =~ \"^AER\")");
    assert!(ok.valid && ok.error_message.is_none());
    let unknown = check_query("speed > 100");
    assert!(!unknown.valid);
    assert_eq!(
        unknown.error_message.unwrap(),
        "compilation error: speed is not a valid field to query, valid fields are: [callsign, name, alt, gs, lat, lng, aircraft, arrival, departure, rules]"
    );
    assert_eq!(
        check_query("rules == 5").error_message.unwrap(),
        "compilation error: invalid rules value type integer"
    );
    assert_eq!(
        check_query("rules == \"x\"").error_message.unwrap(),
        "compilation error: invalid rules value, valid ones are ['v', 'i', 'vfr', 'ifr']"
    );
    assert_eq!(
        check_query("alt >").error_message.unwrap(),
        "unexpected end of stream while waiting for one of [Integer, Float, String]"
    );
    assert_eq!(
        check_query("alt =~ 5").error_message.unwrap(),
        "invalid value type at line=1 pos=5, expected one of [string]"
    );

    let mut m = manager();
    let mut high = pilot("HIGH", 51.5, 0.0);
    high.altitude = 41000;
    m.run(&snapshot(1, vec![high, pilot("LOW", 10.25, 0.0)], vec![]));
    assert_eq!(callsigns(&list_pilots(&m, "").unwrap()), vec!["HIGH", "LOW"]);
    assert_eq!(callsigns(&list_pilots(&m, "alt > 40000").unwrap()), vec!["HIGH"]);
    assert_eq!(callsigns(&list_pilots(&m, "lat < 10.3").unwrap()), vec!["LOW"]);
    assert_eq!(callsigns(&list_pilots(&m, "lat >= 51.5 and lat <= 51.5").unwrap()), vec!["HIGH"]);
    assert_eq!(callsigns(&list_pilots(&m, "alt == 30000.0").unwrap()), vec!["LOW"]);
    assert!(list_pilots(&m, "arrival == \"KLAX\"").unwrap().is_empty());
    assert!(list_pilots(&m, "callsign =~ \"(\"").unwrap().is_empty());
    assert_eq!(callsigns(&list_pilots(&m, "callsign !~ \"(\"").unwrap()), vec!["HIGH", "LOW"]);
    assert_eq!(
        list_pilots(&m, "speed > 1").unwrap_err(),
        "query compile error: compilation error: speed is not a valid field to query, valid fields are: [callsign, name, alt, gs, lat, lng, aircraft, arrival, departure, rules]"
    );
    assert_eq!(
        list_pilots(&m, "alt > 1 )").unwrap_err(),
        "query parse error: unexpected token type RightBrace()) at line=1 pos=9, expected one of [EOF]"
    );
}

#[test]
fn running_queries_tell_of_pilots_that_come_and_go() {
    let mut m = manager();
    let mut session = QuerySession::new(0);
    session.handle(SubscriptionRequest::Add("high".into(), "alt > 20000".into()), 0);
    session.handle(SubscriptionRequest::Add("all".into(), "alt >= 0".into()), 0);
    session.handle(SubscriptionRequest::Add("all".into(), "alt < 0".into()), 0);
    session.handle(SubscriptionRequest::Add("bad".into(), "speed > 1".into()), 0);
    session.handle(SubscriptionRequest::Add("empty".into(), "".into()), 0);

    let mut low = pilot("LOW", 1.0, 1.0);
    low.altitude = 1000;
    m.run(&snapshot(1, vec![pilot("HIGH", 1.0, 1.0), low.clone()], vec![]));
    let told: Vec<(String, QueryUpdateType, String)> = session
        .tick(&m, 0)
        .into_iter()
        .map(|u| (u.subscription_id, u.update_type, u.pilot.callsign))
        .collect();
    assert_eq!(
        told,
        vec![
            ("high".to_string(), QueryUpdateType::Online, "HIGH".to_string()),
            ("all".to_string(), QueryUpdateType::Online, "HIGH".to_string()),
            ("all".to_string(), QueryUpdateType::Online, "LOW".to_string()),
        ]
    );
    assert!(session.tick(&m, 4_999).is_empty());
    assert!(session.tick(&m, 5_000).is_empty());

    low.flight_plan = Some(plan("I", "B738"));
    m.run(&snapshot(2, vec![low], vec![]));
    let told: Vec<(String, QueryUpdateType, String)> = session
        .tick(&m, 10_000)
        .into_iter()
        .map(|u| (u.subscription_id, u.update_type, u.pilot.callsign))
        .collect();
    assert_eq!(
        told,
        vec![
            ("all".to_string(), QueryUpdateType::Flightplan, "LOW".to_string()),
            ("high".to_string(), QueryUpdateType::Offline, "HIGH".to_string()),
            ("all".to_string(), QueryUpdateType::Offline, "HIGH".to_string()),
        ]
    );
    session.handle(SubscriptionRequest::Delete("all".into()), 10_001);
    session.handle(SubscriptionRequest::Delete("never".into()), 10_001);
    m.run(&snapshot(3, vec![], vec![]));
    assert!(session.tick(&m, 10_001).is_empty());
}

#[test]
fn metrics_render_in_the_usual_format() {
    let mut single = Metric::new("uptime", "Process uptime in sec", MetricType::Counter);
    assert_eq!(single.render(), "");
    single.set_single(Sample::Whole(42));
    assert_eq!(
        single.render(),
        "# HELP uptime Process uptime in sec\n# TYPE uptime counter\nuptime 42\n"
    );
    let mut labelled = Metric::new("t", "Time", MetricType::Gauge);
    labelled.set(
        &vec![("b".to_string(), "2".to_string()), ("a".to_string(), "1".to_string())],
        Sample::Fixed(1_500_000),
    );
    labelled.set(&vec![("x".to_string(), "y".to_string())], Sample::Fixed(-250_000));
    labelled.set(
        &vec![("a".to_string(), "1".to_string()), ("b".to_string(), "2".to_string())],
        Sample::Fixed(2_000_000),
    );
    assert_eq!(
        labelled.render(),
        "# HELP t Time\n# TYPE t gauge\nt{a=\"1\",b=\"2\"} 2\nt{x=\"y\"} -0.25\n"
    );
    labelled.reset();
    assert_eq!(labelled.render(), "");
    assert_eq!(MetricType::Summary.to_string(), "summary");
    assert_eq!(MetricType::Histogram.to_string(), "histogram");

    let mut all = Metrics::new(1_000);
    all.vatsim_data_timestamp = 10;
    assert_eq!(
        all.render(61_001),
        "# HELP vatsim_data_age_sec Latest Vatsim data age in seconds\n# TYPE vatsim_data_age_sec gauge\nvatsim_data_age_sec 51\n# HELP uptime Process uptime in sec\n# TYPE uptime counter\nuptime 61\n"
    );

    let mut m = manager();
    m.record_load_time(1_234_567);
    m.record_processing_time("pilot", 20_000);
    m.record_track_counters(3, 250, 5_000);
    let text = m.render_metrics(1_000);
    assert!(text.contains("database_objects_count{object_type=\"track\"} 3\n"));
    assert!(text.contains("database_objects_count{object_type=\"trackpoint\"} 250\n"));
    assert!(text.contains("database_objects_count_fetch_time_sec 0.005\n"));
    assert!(text.contains("vatsim_data_load_time_sec 1.234567\n"));
    assert!(!text.contains("processing_time_sec"));
    assert_eq!(m.get_metrics_clone().render(1_000), text);
    assert_eq!(m.metrics().processing_time_sec.render(), "# HELP processing_time_sec Processing time for various vatsim objects\n# TYPE processing_time_sec gauge\nprocessing_time_sec{object_type=\"pilot\"} 0.02\n");
}

#[test]
fn snapshot_is_taken_in_step_by_step() {
    let mut m = manager();
    assert!(!m.accept(0));
    assert!(!m.accept(-5));
    assert!(m.accept(7_999));
    assert!(!m.accept(7_999));
    assert!(m.render_metrics(10_000).contains("\nvatsim_data_age_sec 3\n"));
    assert!(m.accept(i64::MAX));
    assert!(!m.accept(i64::MAX));

    let groups = m.process_pilots(&vec![
        pilot("A", 52.0, -1.0),
        pilot("B", 53.0, 0.0),
        pilot("C", 0.0, 0.0),
        pilot("A", 1.0, 1.0),
    ]);
    assert_eq!(groups.get("2635167"), Some(2));
    assert_eq!(groups.len(), 1);
    assert_eq!(callsigns(&m.get_all_pilots()), vec!["A", "B", "C"]);
    assert_eq!(m.get_pilot_by_callsign("A").unwrap().position, point(1.0, 1.0));
    m.record_pilots_online(&groups);

    let staffed = m.process_controllers(&vec![
        controller("EGLL_TWR", Facility::Tower),
        controller("EGLL_N_APP", Facility::Approach),
        controller("KLAX_GND", Facility::Ground),
    ]);
    assert_eq!(staffed.controlled, vec!["EGLL", "KLAX"]);
    assert_eq!(staffed.count, 3);
    m.record_controllers_online(&staffed.groups);

    let wx = simwatch::weather::ext_types::WeatherInfo {
        temperature: Some(deg(11.5)),
        dew_point: None,
        wind_speed: Some(7),
        wind_gust: None,
        wind_direction: None,
        raw: "EGLL 121650Z".into(),
        ts: 5,
    };
    m.set_airport_weather("EGLL", wx.clone());
    m.set_airport_weather("NFFN", wx.clone());
    m.set_airport_weather("ZZZZ", wx);
    assert_eq!(m.find_airport("EGLL").unwrap().wx.unwrap().raw, "EGLL 121650Z");
    assert!(m.find_airport("KLAX").unwrap().wx.is_none());
    assert_eq!(m.get_all_airports(false).len(), 2);
    assert_eq!(m.get_all_airports(true).len(), 3);
    assert!(m.fixed().find_airport("NFFN").unwrap().wx.is_some());

    let text = m.render_metrics(10_000);
    assert!(text.contains(
        "vatsim_objects_online{continent_code=\"EU\",country_code=\"GB\",object_type=\"pilot\"} 2\n"
    ));
    assert!(m.metrics().vatsim_data_timestamp == i64::MAX / 1000);
}

#[test]
fn batches_come_in_their_order() {
    let mut m = manager();
    m.run(&snapshot(
        1,
        vec![pilot("A", 52.0, -1.0)],
        vec![controller("EGLL_TWR", Facility::Tower), controller("EGTT_CTR", Facility::Radar)],
    ));
    let world = Rect::new(deg(-179.0), deg(-89.0), deg(179.0), deg(89.0));
    let mut session = Session::new(0);
    session.handle(Request::Bounds(MapBounds { rect: world, zoom: deg(5.0) }), 0);
    let kinds = |updates: Vec<Update>| -> Vec<(u8, UpdateType, usize)> {
        updates
            .into_iter()
            .map(|u| match u {
                Update::PilotUpdate(t, v) => (0, t, v.len()),
                Update::AirportUpdate(t, v) => (1, t, v.len()),
                Update::FirUpdate(t, v) => (2, t, v.len()),
            })
            .collect()
    };
    assert_eq!(
        kinds(session.tick(&m, 0).updates()),
        vec![(0, UpdateType::Put, 1), (1, UpdateType::Put, 1), (2, UpdateType::Put, 1)]
    );
    m.run(&snapshot(2, vec![pilot("B", 52.0, -1.0)], vec![]));
    assert!(session.tick(&m, 4_999).updates().is_empty());
    assert_eq!(
        kinds(session.tick(&m, 5_000).updates()),
        vec![
            (0, UpdateType::Put, 1),
            (0, UpdateType::Delete, 1),
            (1, UpdateType::Delete, 1),
            (2, UpdateType::Delete, 1)
        ]
    );
}

#[test]
fn pilot_next_to_the_antimeridian_is_in_view() {
    let mut m = manager();
    m.run(&snapshot(
        5,
        vec![
            pilot("EDGE", 5.0, 179.99995),
            pilot("LINE", 5.0, -180.0),
            pilot("OUT", 5.0, 179.9),
        ],
        vec![],
    ));
    let rect = Rect::new(179_999_950, deg(0.0), -179_999_950, deg(10.0));
    assert_eq!(callsigns(&m.get_pilots(&rect, &vec![])), vec!["EDGE", "LINE"]);
    let wide = Rect::new(deg(170.0), deg(0.0), deg(-170.0), deg(10.0));
    assert_eq!(callsigns(&m.get_pilots(&wide, &vec![])), vec!["EDGE", "LINE", "OUT"]);
    let beyond = Rect::new(deg(180.0), deg(0.0), deg(-180.5), deg(10.0));
    assert!(m.get_pilots(&beyond, &vec![]).is_empty());
}

#[test]
fn index_gives_the_places_of_those_gone_to_those_who_come() {
    let mut tree = SpatialIndex::new();
    for round in 0..20 {
        for i in 0..10 {
            let name = format!("r{}p{}", round, i);
            tree.insert(&name, Envelope::from_point(point(i as f64, round as f64)));
        }
        let all = Envelope::from_corners(point(-1.0, -1.0), point(50.0, 50.0));
        let mut found = tree.locate_in_envelope(all);
        found.sort();
        let mut expected: Vec<String> = (0..10).map(|i| format!("r{}p{}", round, i)).collect();
        expected.sort();
        assert_eq!(found, expected);
        let row = Envelope::from_corners(point(3.0, round as f64), point(4.0, round as f64));
        assert_eq!(tree.locate_in_envelope(row).len(), 2);
        for i in 0..10 {
            assert!(tree.remove(&format!("r{}p{}", round, i)));
            assert!(!tree.remove(&format!("r{}p{}", round, i)));
        }
        assert!(tree.locate_in_envelope(all).is_empty());
        if round > 0 {
            assert!(!tree.remove(&format!("r{}p0", round - 1)));
        }
    }
    tree.insert("back", Envelope::from_point(point(1.0, 1.0)));
    tree.insert("r0p0", Envelope::from_point(point(2.0, 2.0)));
    let mut found = tree.locate_in_envelope(Envelope::from_corners(point(0.0, 0.0), point(3.0, 3.0)));
    found.sort();
    assert_eq!(found, vec!["back", "r0p0"]);
}

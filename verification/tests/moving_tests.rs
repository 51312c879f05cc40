use simwatch::moving::aircraft::{
    guess_aircraft_types, Aircraft, AircraftDb, AircraftType, EngineType,
};
use simwatch::moving::controller::{frequency_khz, Controller, ControllerSet, Facility};
use simwatch::moving::data::Data;
use simwatch::moving::exttypes;
use simwatch::moving::pilot::{FlightPlan, Pilot};
use simwatch::timefmt::parse_instant_or;
use simwatch::types::Point;

fn model(designator: &str, name: &str) -> Aircraft {
    Aircraft {
        name: name.into(),
        description: "LandPlane".into(),
        wtc: "M".into(),
        wtg: "".into(),
        designator: designator.into(),
        manufacturer_code: "X".into(),
        aircraft_type: AircraftType::LandPlane,
        engine_count: 2,
        engine_type: EngineType::Jet,
    }
}

fn db() -> AircraftDb {
    AircraftDb::new(vec![
        model("A320", "A-320"),
        model("B738", "737-800"),
        model("A320", "A-320 Prestige"),
        model("C", "Odd"),
        model("B7", "Short"),
    ])
}

#[test]
fn aircraft_is_guessed_from_the_longest_beginning() {
    let db = db();
    assert_eq!(guess_aircraft_types(&db, "A320").unwrap().name, "A-320");
    assert_eq!(guess_aircraft_types(&db, "A320/L").unwrap().name, "A-320");
    assert_eq!(guess_aircraft_types(&db, "B738/M-SDE").unwrap().name, "737-800");
    assert_eq!(guess_aircraft_types(&db, "B77W").unwrap().name, "Short");
    assert_eq!(guess_aircraft_types(&db, "C172").unwrap().name, "Odd");
    assert!(guess_aircraft_types(&db, "H/B738").is_none());
    assert!(guess_aircraft_types(&db, "").is_none());
    assert!(guess_aircraft_types(&db, "ÄÖÜ").is_none());
}

#[test]
fn times_are_read_or_stood_in_for() {
    assert_eq!(parse_instant_or("2023-11-14T22:13:20Z", 5), 1_700_000_000_000);
    assert_eq!(parse_instant_or("2023-11-14T22:13:20.123456789+00:00", 5), 1_700_000_000_123);
    assert_eq!(parse_instant_or("2023-11-15T00:13:20+02:00", 5), 1_700_000_000_000);
    assert_eq!(parse_instant_or("yesterday", 5), 5);
    assert_eq!(parse_instant_or("", -7), -7);
}

fn ext_pilot(callsign: &str, plan: Option<exttypes::FlightPlan>) -> exttypes::Pilot {
    exttypes::Pilot {
        cid: 1234,
        name: "Name".into(),
        callsign: callsign.into(),
        server: "UK".into(),
        pilot_rating: 1,
        latitude: 51_477_500,
        longitude: -461_389,
        altitude: 35000,
        groundspeed: 450,
        transponder: "2200".into(),
        heading: -10,
        qnh_i_hg: 29_924_999,
        qnh_mb: -1,
        flight_plan: plan,
        logon_time: "2023-11-14T22:13:20Z".into(),
        last_updated: "garbled".into(),
    }
}

fn ext_plan(aircraft: &str, tas: &str, altitude: &str) -> exttypes::FlightPlan {
    exttypes::FlightPlan {
        flight_rules: "I".into(),
        aircraft: aircraft.into(),
        departure: "EGLL".into(),
        arrival: "KLAX".into(),
        alternate: "KSFO".into(),
        cruise_tas: tas.into(),
        altitude: altitude.into(),
        deptime: "1200".into(),
        enroute_time: "1100".into(),
        fuel_time: "1300".into(),
        remarks: "none".into(),
        route: "DCT".into(),
    }
}

#[test]
fn pilots_are_read_from_the_feed() {
    let p = Pilot::from_ext(ext_pilot("BAW1", Some(ext_plan("A320/L", "450", "FL350"))), 99, &db());
    assert_eq!(p.position, Point { lat: 51_477_500, lng: -461_389 });
    assert_eq!(p.qnh_i_hg, 2992);
    assert_eq!(p.qnh_mb, 65535);
    assert_eq!(p.logon_time, 1_700_000_000_000);
    assert_eq!(p.last_updated, 99);
    let plan = p.flight_plan.as_ref().unwrap();
    assert_eq!((plan.cruise_tas, plan.altitude), (450, 0));
    assert_eq!(plan.route, "DCT");
    assert_eq!(p.aircraft_type.as_ref().unwrap().name, "A-320");
    assert!(p.same(&p.clone()));

    let bare = Pilot::from_ext(ext_pilot("BAW2", None), 99, &db());
    assert!(bare.flight_plan.is_none() && bare.aircraft_type.is_none());
    assert!(!bare.same(&p));
    let plan = FlightPlan::from_ext(ext_plan("X", "70000", "-1"));
    assert_eq!((plan.cruise_tas, plan.altitude), (0, 0));
    assert_eq!(FlightPlan::from_ext(ext_plan("X", "65535", "+12")).altitude, 12);
}

fn ext_controller(callsign: &str, facility: i8, frequency: &str) -> exttypes::Controller {
    exttypes::Controller {
        cid: 7,
        callsign: callsign.into(),
        name: "C".into(),
        frequency: frequency.into(),
        facility,
        rating: 5,
        server: "UK".into(),
        visual_range: 100,
        atis_code: None,
        text_atis: Some(vec!["LINE ONE".into(), "LINE TWO".into()]),
        logon_time: "2023-11-14T22:13:20Z".into(),
        last_updated: "2023-11-14T22:13:21Z".into(),
    }
}

#[test]
fn controllers_are_read_from_the_feed() {
    let c = Controller::from_ext(ext_controller("EGLL_TWR", 4, "118.500"), 0);
    assert_eq!(c.facility, Facility::Tower);
    assert_eq!(c.freq, 118_500);
    assert_eq!(c.text_atis, "LINE ONE\nLINE TWO");
    assert_eq!(c.atis_code, "");
    assert_eq!(c.human_readable, None);
    assert_eq!(c.last_updated, 1_700_000_001_000);
    let mut later = c.clone();
    later.last_updated += 1;
    assert!(c.same(&later));
    later.rating = 1;
    assert!(!c.same(&later));

    assert_eq!(frequency_khz("122.8"), 122_800);
    assert_eq!(frequency_khz("199.998"), 199_998);
    assert_eq!(frequency_khz("bad"), 0);
    assert_eq!(frequency_khz("-1.5"), 0);
    assert_eq!(frequency_khz("99999999999"), u32::MAX);

    let kinds: Vec<Facility> = (-1..=7).map(Facility::from_code).collect();
    assert_eq!(
        kinds,
        vec![
            Facility::Reject,
            Facility::Reject,
            Facility::ATIS,
            Facility::Delivery,
            Facility::Ground,
            Facility::Tower,
            Facility::Approach,
            Facility::Radar,
            Facility::Reject,
        ]
    );
    assert_eq!(Facility::Approach.to_string(), "approach");
    assert_eq!(Facility::ATIS.title(), "ATIS");
    let mut set = ControllerSet::empty();
    assert!(set.is_empty());
    set.ground = Some(c);
    assert!(!set.is_empty());
    assert!(set.same(&set.clone()));
}

#[test]
fn snapshot_puts_broadcasts_behind_controllers() {
    let src = exttypes::Data {
        general: exttypes::General {
            version: 3,
            reload: 1,
            update: "20231114221320".into(),
            update_timestamp: "2023-11-14T22:13:20.5Z".into(),
            connected_clients: 2,
            unique_users: 2,
        },
        pilots: vec![ext_pilot("A", None), ext_pilot("B", None)],
        controllers: vec![ext_controller("EGLL_TWR", 4, "118.5")],
        atis: vec![ext_controller("EGLL_ATIS", 4, "128.075")],
    };
    let data = Data::from_ext(src, 0, &db());
    assert_eq!(data.general.updated_at, 1_700_000_000_500);
    assert_eq!(data.general.connected_clients, 2);
    assert_eq!(data.pilots.len(), 2);
    assert_eq!(data.pilots[1].callsign, "B");
    assert_eq!(data.controllers.len(), 2);
    assert_eq!(data.controllers[0].facility, Facility::Tower);
    assert_eq!(data.controllers[1].facility, Facility::ATIS);
    assert_eq!(data.controllers[1].freq, 128_075);
}

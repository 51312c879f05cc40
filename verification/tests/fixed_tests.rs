use simwatch::fixed::boundaries::{
    extract_boundaries, lng_center, lng_less, load_boundaries, Feature, FeatureProperties,
};
use simwatch::fixed::data::{callsign_code, FixedData};
use simwatch::fixed::errors::GeonamesParseError;
use simwatch::fixed::geonames::{
    parse_countries, Geometry, Geonames, GeonamesShape, GeonamesShapeSet, Property, ShapeFeature,
};
use simwatch::fixed::ourairports::{
    parse as parse_runways, parse_f64, parse_i32, parse_runway, parse_u32,
    ParseError as RunwayError,
};
use simwatch::fixed::parser::{parse, ParseError};
use simwatch::fixed::types::{Boundaries, Runway};
use simwatch::moving::controller::{Controller, Facility};
use simwatch::types::Point;
use simwatch::weather::ext_types::WeatherInfo;

fn deg(x: f64) -> i64 {
    (x * 1_000_000.0).round() as i64
}

#[test]
fn test_lng_less() {
    assert!(lng_less(deg(0.0), deg(10.0)));
    assert!(lng_less(deg(-10.0), deg(10.0)));
    assert!(lng_less(deg(170.0), deg(-150.0)))
}

#[test]
fn longitudes_are_ordered_on_the_circle() {
    assert!(!lng_less(deg(10.0), deg(0.0)));
    assert!(!lng_less(deg(-150.0), deg(170.0)));
    assert!(!lng_less(deg(5.0), deg(5.0)));
    assert_eq!(lng_center(deg(10.0), deg(20.0)), deg(15.0));
    assert_eq!(lng_center(deg(170.0), deg(-170.0)), deg(-180.0));
    assert_eq!(lng_center(deg(160.0), deg(-170.0)), deg(-185.0));
}

const TEST_RUNWAY: &str = "239398,2434,EGLL,12001,148,ASP,1,0,09R,51.464900970458984,-0.48677200078964233,75,90,1013,27L,51.46500015258789,-0.4340749979019165,77,270,";

#[test]
fn test_parser() {
    let tokens: Vec<String> = TEST_RUNWAY.split(",").map(|t| t.to_string()).collect();
    let runways = parse_runway(&tokens);
    assert!(runways.is_ok());
    let runways = runways.unwrap();
    assert!(runways.0.same(&Runway {
        icao: "EGLL".into(),
        length_ft: 12001,
        width_ft: 148,
        surface: "ASP".into(),
        lighted: true,
        closed: false,
        ident: "09R".into(),
        latitude: 51_464_900,
        longitude: -486_772,
        elevation_ft: 75,
        heading: 90,
        active_to: false,
        active_lnd: false
    }));
    assert!(runways.1.same(&Runway {
        icao: "EGLL".into(),
        length_ft: 12001,
        width_ft: 148,
        surface: "ASP".into(),
        lighted: true,
        closed: false,
        ident: "27L".into(),
        latitude: 51_465_000,
        longitude: -434_074,
        elevation_ft: 77,
        heading: 270,
        active_to: false,
        active_lnd: false
    }));
}

#[test]
fn runway_numbers_are_read_or_refused() {
    assert_eq!(parse_u32("12001").unwrap(), 12001);
    assert_eq!(parse_u32("+7").unwrap(), 7);
    assert_eq!(parse_i32("-75").unwrap(), -75);
    assert_eq!(parse_f64("51.464900970458984").unwrap(), 51_464_900);
    assert_eq!(parse_f64("-0.5").unwrap(), -500_000);
    assert_eq!(parse_f64("7.").unwrap(), 7_000_000);
    assert_eq!(parse_f64(".25").unwrap(), 250_000);
    match parse_u32("-1") {
        Err(RunwayError::ParseIntError(s)) => assert_eq!(s, "-1"),
        _ => panic!(),
    }
    assert!(parse_u32("4294967296").is_err());
    assert!(parse_i32("2147483648").is_err());
    assert!(parse_i32("").is_err());
    match parse_f64("1e5") {
        Err(e) => assert_eq!(e.to_string(), "no number @ 1e5"),
        _ => panic!(),
    }
    assert!(parse_f64(".").is_err());
    assert_eq!(
        RunwayError::ParseStringError("x".into()).to_string(),
        "error parsing quoted string 'x'"
    );
    assert_eq!(parse_i32("x1").unwrap_err().to_string(), "no whole number @ x1");
}

#[test]
fn runway_table_is_read_without_its_head() {
    let head = "a,b,c,d,e,f,g,h,i,j,k,l,m,n,o,p,q,r,s,t";
    let text = format!("{}\n{}\n{}\n", head, TEST_RUNWAY, TEST_RUNWAY);
    let runways = parse_runways(&text).unwrap();
    assert_eq!(runways.len(), 4);
    assert_eq!(runways[0].ident, "09R");
    assert_eq!(runways[3].ident, "27L");
    assert_eq!(runways[3].heading, 270);
    let uneven = format!("{}\n{}\nshort,row\n", head, TEST_RUNWAY);
    assert!(parse_runways(&uneven).is_none());
    assert!(parse_runways(head).unwrap().is_empty());
    assert!(parse_runways("a,b\n1,2\n3,4\n").unwrap().is_empty());
}

fn square(lat: f64, lng: f64, size: f64) -> Vec<Point> {
    vec![
        Point { lat: deg(lat), lng: deg(lng) },
        Point { lat: deg(lat), lng: deg(lng + size) },
        Point { lat: deg(lat + size), lng: deg(lng + size) },
        Point { lat: deg(lat + size), lng: deg(lng) },
        Point { lat: deg(lat), lng: deg(lng) },
    ]
}

fn feature(id: &str, polygons: Vec<Vec<Vec<Point>>>) -> Feature {
    Feature {
        properties: Some(FeatureProperties {
            id: Some(id.into()),
            oceanic: Some("0".into()),
            region: Some("EMEA".into()),
            division: Some("VATUK".into()),
        }),
        polygons: Some(polygons),
    }
}

#[test]
fn outline_has_extent_and_middle() {
    let f = feature("EGTT", vec![vec![square(50.0, -2.0, 4.0)], vec![square(56.0, 1.0, 1.0)]]);
    let b = extract_boundaries(&f).unwrap();
    assert_eq!(b.id, "EGTT");
    assert!(!b.is_oceanic);
    assert_eq!(b.min, Point { lat: deg(50.0), lng: deg(-2.0) });
    assert_eq!(b.max, Point { lat: deg(57.0), lng: deg(2.0) });
    assert_eq!(b.center, Point { lat: deg(53.5), lng: deg(0.0) });
    assert_eq!(b.points.len(), 2);
    assert_eq!(b.points[0].len(), 5);

    let across = feature("NZZO", vec![vec![square(-10.0, 178.0, 4.0)]]);
    let b = extract_boundaries(&across).unwrap();
    assert_eq!(b.min.lng, deg(178.0));
    assert_eq!(b.max.lng, deg(182.0));

    let mut incomplete = feature("X", vec![]);
    incomplete.properties.as_mut().unwrap().region = None;
    assert!(extract_boundaries(&incomplete).is_none());
    assert!(extract_boundaries(&Feature { properties: None, polygons: Some(vec![]) }).is_none());
    let no_geometry = Feature { polygons: None, ..feature("Y", vec![]) };
    assert!(extract_boundaries(&no_geometry).is_none());
    assert_eq!(load_boundaries(&vec![f, incomplete, no_geometry]).len(), 1);
}

const COUNTRIES: &str = "# comment\nGB\tGBR\t826\tUK\tUnited Kingdom\tLondon\t244820\t66488991\tEU\t.uk\tGBP\tPound\t44\t@# #@@\t^x$\ten-GB\t2635167\tIE\tx\nXX\tbroken\nFR\tFRA\t250\tFR\tFrance\tParis\t547030.5\t64979548\tEU\t.fr\tEUR\tEuro\t33\t#####\t^(\\d{5})$\tfr-FR\t3017382\tCH,DE\t\n";

fn geonames() -> Geonames {
    let countries = parse_countries(COUNTRIES);
    let uk = GeonamesShape::from_vec("2635167".into(), vec![square(50.0, -5.0, 8.0)]);
    let fr = GeonamesShape::from_vec(
        "3017382".into(),
        vec![square(42.0, -4.0, 8.0), square(45.0, 0.0, 1.0)],
    );
    let nowhere = GeonamesShape::from_vec("1".into(), vec![square(0.0, 0.0, 1.0)]);
    Geonames::load(countries, vec![fr, uk, nowhere])
}

#[test]
fn countries_are_read_from_the_table() {
    let countries = parse_countries(COUNTRIES);
    assert_eq!(countries.len(), 2);
    assert_eq!(countries[0].iso, "GB");
    assert_eq!(countries[0].population, 66488991);
    assert_eq!(countries[1].area, 547_030_500_000);
    assert_eq!(countries[1].geoname_id, "3017382");
    assert_eq!(countries[1].equivalent_fips_code, "");
}

#[test]
fn country_is_found_by_position() {
    let g = geonames();
    let at = |lat: f64, lng: f64| {
        g.get_country_by_position(Point { lat: deg(lat), lng: deg(lng) }).map(|c| c.iso)
    };
    assert_eq!(at(52.0, -1.0), Some("GB".to_string()));
    assert_eq!(at(44.0, 2.0), Some("FR".to_string()));
    assert_eq!(at(45.5, 0.5), None);
    assert_eq!(at(49.5, 0.0), Some("FR".to_string()));
    assert_eq!(at(0.5, 0.5), None);
    assert_eq!(at(80.0, 80.0), None);
    assert_eq!(g.get_country_by_id("2635167").unwrap().name, "United Kingdom");
    assert!(g.get_country_by_id("7").is_none());
    assert!(Geonames::empty().get_country_by_id("2635167").is_none());
}

#[test]
fn shapes_come_from_features() {
    let single = GeonamesShapeSet::try_from(ShapeFeature {
        geoname_id: Some(Property::Text("5".into())),
        geometry: Some(Geometry::Polygon(vec![square(0.0, 0.0, 1.0)])),
    });
    match single {
        Ok(GeonamesShapeSet::Single(s)) => {
            assert_eq!(s.ref_id, "5");
            assert!(s.holds(Point { lat: deg(0.5), lng: deg(0.5) }));
            assert!(!s.holds(Point { lat: deg(1.5), lng: deg(0.5) }));
        }
        _ => panic!(),
    }
    let multi = GeonamesShapeSet::try_from(ShapeFeature {
        geoname_id: Some(Property::Text("5".into())),
        geometry: Some(Geometry::MultiPolygon(vec![
            vec![square(0.0, 0.0, 1.0)],
            vec![square(5.0, 5.0, 1.0)],
        ])),
    });
    match multi {
        Ok(GeonamesShapeSet::Multi(v)) => {
            assert_eq!(v.len(), 2);
            assert!(v[1].holds(Point { lat: deg(5.5), lng: deg(5.5) }));
        }
        _ => panic!(),
    }
    let fault = |id: Option<Property>, geometry: Option<Geometry>| -> String {
        match GeonamesShapeSet::try_from(ShapeFeature { geoname_id: id, geometry }) {
            Err(e) => e.to_string(),
            Ok(_) => panic!(),
        }
    };
    assert_eq!(
        fault(None, None),
        "error converting geojson feature: no geojson properties defined for feature"
    );
    assert_eq!(
        fault(Some(Property::Absent), None),
        "error converting geojson feature: geoNameId is absent in feature properties"
    );
    assert_eq!(
        fault(Some(Property::Other), None),
        "error converting geojson feature: geoNameId is of incorrect type"
    );
    assert_eq!(
        fault(Some(Property::Text("1".into())), None),
        "error converting geojson feature: feature geometry is absent"
    );
    assert_eq!(
        GeonamesParseError { msg: "x".into() }.to_string(),
        "error converting geojson feature: x"
    );
    let empty = GeonamesShape::from_vec("0".into(), vec![]);
    assert!(!empty.holds(Point { lat: 0, lng: 0 }));
}

const REFERENCE: &str = "; a comment\nstray|line\n[Countries]\nUnited Kingdom|EG|Control\nFrance|LF|\nbroken\n[Airports]\nEGLL|London Heathrow|51.4775|-0.461389|LHR|EGTT|0\nEGKK|London Gatwick|51.148056|-0.190278|LGW|EGTT|0\nEGLL|Heathrow Twin|51.0|-0.4|LTN|EGTT|1\nLFPG|Paris|x|2.5|CDG|LFFF|0\nKLAX|Los Angeles|33.9425|-118.408056|LAX|KZLA|0\n\n[FIRs]\nEGTT|London|EGTT|EGTT\nEGPX|Scottish|SCO|\nLFFF|Paris|LFFF|NONE\n[UIRs]\nEURN|Europe North|EGTT,EGPX,XXXX\n[Unknown]\n[IDL]\nEGXX|never|read\n";

fn outline(id: &str, lat: f64, lng: f64) -> Boundaries {
    extract_boundaries(&feature(id, vec![vec![square(lat, lng, 4.0)]])).unwrap()
}

fn runway(icao: &str, ident: &str, length: u32) -> Runway {
    Runway {
        icao: icao.into(),
        length_ft: length,
        width_ft: 150,
        surface: "ASP".into(),
        lighted: true,
        closed: false,
        ident: ident.into(),
        latitude: 0,
        longitude: 0,
        elevation_ft: 0,
        heading: 0,
        active_to: false,
        active_lnd: false,
    }
}

fn fixed() -> FixedData {
    let runways = vec![
        runway("EGLL", "09R", 1),
        runway("EGLL", "27L", 2),
        runway("EGKK", "08R", 3),
        runway("EGLL", "09R", 4),
        runway("EGLL", "26L", 5),
        runway("EGLL", "27R", 6),
        runway("EGLL", "26R", 7),
    ];
    let bdrs = vec![outline("EGTT", 50.0, -2.0), outline("EGPX", 55.0, -5.0)];
    parse(REFERENCE, bdrs, runways, geonames()).unwrap()
}

#[test]
fn reference_file_is_read_by_sections() {
    let data = fixed();
    let airports = data.airports();
    assert_eq!(airports.len(), 4);
    assert_eq!(airports[0].compound_id(), "EGLL:LHR");
    assert_eq!(airports[0].position, Point { lat: 51_477_500, lng: -461_389 });
    assert_eq!(airports[0].name, "London Heathrow");
    assert!(!airports[0].is_pseudo && airports[2].is_pseudo);
    assert_eq!(airports[0].country.as_ref().unwrap().iso, "GB");
    assert!(airports[3].country.is_none());
    let idents: Vec<&str> = airports[0].runways.iter().map(|r| r.ident.as_str()).collect();
    assert_eq!(idents, vec!["09R", "27L", "26L", "27R", "26R"]);
    assert_eq!(airports[0].runways[0].length_ft, 4);
    assert!(airports[2].runways.is_empty());
    assert_eq!(airports[1].runways.len(), 1);

    let firs = data.firs();
    assert_eq!(firs.len(), 2);
    assert_eq!(firs[1].icao, "EGPX");
    assert_eq!(firs[1].boundaries.id, "EGPX");
    assert_eq!(firs[0].country.as_ref().unwrap().iso, "GB");
    assert!(firs[0].is_empty());

    assert_eq!(data.find_country("EG").unwrap().control_name, Some("Control".to_string()));
    assert_eq!(data.find_country("LF").unwrap().control_name, None);
    assert!(data.find_country("XX").is_none());
    assert_eq!(ParseError { msg: "x".into() }.to_string(), "parse error: x");
    assert!(parse("[", vec![], vec![], Geonames::empty()).unwrap().airports().is_empty());
}

#[test]
fn airports_and_regions_are_looked_up_in_order() {
    let data = fixed();
    assert_eq!(data.find_airport_idx("LHR"), Some(0));
    assert_eq!(data.find_airport_idx("EGLL"), Some(0));
    assert_eq!(data.find_airport_idx("EGLLX"), Some(0));
    assert_eq!(data.find_airport_idx("LTN"), Some(2));
    assert_eq!(data.find_airport_idx("KLAX_TWR"), Some(3));
    assert_eq!(data.find_airport_idx(""), None);
    assert_eq!(data.find_airport_idx("ZZZZ"), None);
    assert_eq!(data.find_airport("LGW").unwrap().icao, "EGKK");
    assert_eq!(data.find_airport_compound("EGLL:LTN").unwrap().name, "Heathrow Twin");
    assert!(data.find_airport_compound("EGLL").is_none());

    assert_eq!(data.find_fir_indices("EGTT"), vec![0]);
    assert_eq!(data.find_fir_indices("SCO"), vec![1]);
    assert_eq!(data.find_fir_indices("LGW"), vec![0]);
    assert_eq!(data.find_fir_indices("EURN"), vec![0, 1]);
    assert!(data.find_fir_indices("KLAX").is_empty());
    assert!(data.find_fir_indices("NOPE").is_empty());
    let names: Vec<String> = data.find_firs("EURN").into_iter().map(|f| f.name).collect();
    assert_eq!(names, vec!["London", "Scottish"]);
    assert_eq!(callsign_code("EGLL_S_TWR"), "EGLL");
    assert_eq!(callsign_code("EGLL"), "EGLL");
    assert_eq!(callsign_code("_X"), "");
}

fn controller(callsign: &str, facility: Facility, text_atis: &str) -> Controller {
    Controller {
        cid: 1,
        name: "C".into(),
        callsign: callsign.into(),
        freq: 118_500,
        facility,
        rating: 3,
        server: "S".into(),
        visual_range: 50,
        atis_code: "A".into(),
        text_atis: text_atis.into(),
        human_readable: None,
        last_updated: 1,
        logon_time: 0,
    }
}

#[test]
fn tower_of_los_angeles_is_found_by_its_callsign() {
    let mut data = fixed();
    let arpt = data.set_airport_controller(controller("KLAX_TWR", Facility::Tower, "")).unwrap();
    assert_eq!(arpt.icao, "KLAX");
    let tower = arpt.controllers.tower.unwrap();
    assert_eq!(tower.callsign, "KLAX_TWR");
    assert_eq!(tower.human_readable, Some("Los Angeles Tower".to_string()));
    assert!(arpt.controllers.ground.is_none());
    assert!(data.set_airport_controller(controller("ZZZZ_TWR", Facility::Tower, "")).is_none());
    data.reset_airport_controller(&controller("KLAX_TWR", Facility::Tower, ""));
    assert!(data.find_airport("KLAX").unwrap().controllers.is_empty());
}

#[test]
fn broadcast_marks_runways_and_its_end_unmarks_them() {
    let mut data = fixed();
    let atis = controller(
        "EGLL_ATIS",
        Facility::ATIS,
        "LANDING RUNWAY 27 LEFT AND 27 RIGHT, TAKEOFF RUNWAY 26 RIGHT AND 26 LEFT",
    );
    let arpt = data.set_airport_controller(atis.clone()).unwrap();
    let marks: Vec<(String, bool, bool)> = arpt
        .runways
        .iter()
        .map(|r| (r.ident.clone(), r.active_lnd, r.active_to))
        .collect();
    assert_eq!(
        marks,
        vec![
            ("09R".to_string(), false, false),
            ("27L".to_string(), true, false),
            ("26L".to_string(), false, true),
            ("27R".to_string(), true, false),
            ("26R".to_string(), false, true),
        ]
    );
    assert_eq!(
        arpt.controllers.atis.unwrap().human_readable,
        Some("London Heathrow ATIS".to_string())
    );
    data.reset_airport_controller(&atis);
    let arpt = data.find_airport("EGLL").unwrap();
    assert!(arpt.runways.iter().all(|r| !r.active_lnd && !r.active_to));
    assert!(arpt.controllers.atis.is_none());
}

#[test]
fn radar_looks_after_regions() {
    let mut data = fixed();
    let fir = data.set_fir_controller(controller("EGTT_CTR", Facility::Radar, "")).unwrap();
    assert_eq!(fir.icao, "EGTT");
    assert_eq!(fir.controllers.len(), 1);
    assert_eq!(fir.controllers[0].human_readable, Some("London Control".to_string()));
    let fir = data.set_fir_controller(controller("EURN_FSS", Facility::Radar, "")).unwrap();
    assert_eq!(fir.icao, "EGPX");
    assert_eq!(fir.controllers[0].human_readable, None);
    assert_eq!(data.firs()[0].controllers.len(), 2);
    data.set_fir_controller(controller("EGTT_CTR", Facility::Radar, "x"));
    assert_eq!(data.firs()[0].controllers.len(), 2);
    assert_eq!(data.firs()[0].controllers[0].text_atis, "x");
    assert!(data.set_fir_controller(controller("NOPE_CTR", Facility::Radar, "")).is_none());
    data.reset_fir_controller(&controller("EURN_FSS", Facility::Radar, ""));
    assert_eq!(data.firs()[0].controllers.len(), 1);
    assert!(data.firs()[1].is_empty());
}

#[test]
fn weather_is_noted_at_the_airport() {
    let mut data = fixed();
    let wx = WeatherInfo {
        temperature: Some(12_500_000),
        dew_point: None,
        wind_speed: Some(5),
        wind_gust: None,
        wind_direction: None,
        raw: "EGLL 12".into(),
        ts: 5,
    };
    data.set_airport_weather("EGLL", wx.clone());
    assert!(data.find_airport("EGLL").unwrap().wx.unwrap().same(&wx));
    data.set_airport_weather("NOPE", wx);
    assert!(data.find_airport("EGKK").unwrap().wx.is_none());
    let mut other = FixedData::empty();
    assert!(other.airports().is_empty() && other.firs().is_empty());
    other.fill(data);
    assert_eq!(other.airports().len(), 4);
    assert_eq!(
        other
            .get_geonames_country_by_position(Point { lat: deg(52.0), lng: deg(-1.0) })
            .unwrap()
            .iso,
        "GB"
    );
    assert_eq!(other.get_geonames_country_by_id("3017382").unwrap().iso, "FR");
}

#[test]
fn first_shape_in_the_list_wins_where_shapes_overlap() {
    let mut shapes = vec![
        GeonamesShape::from_vec("0".into(), vec![]),
        GeonamesShape::from_vec("0".into(), vec![vec![Point { lat: 0, lng: 500_000_000 }]]),
    ];
    for i in 0..200 {
        let size = 2.0 + (i % 7) as f64;
        let id = if i % 2 == 0 { "3017382" } else { "2635167" };
        shapes.push(GeonamesShape::from_vec(id.into(), vec![square(10.0 + i as f64 * 0.1, 10.0, size)]));
    }
    assert!(!shapes[0].usable && !shapes[1].usable && shapes[2].usable);
    let g = Geonames::load(parse_countries(COUNTRIES), shapes);
    let at = |lat: f64, lng: f64| {
        g.get_country_by_position(Point { lat: deg(lat), lng: deg(lng) }).map(|c| c.iso)
    };
    assert_eq!(at(11.0, 11.0).as_deref(), Some("FR"));
    assert_eq!(at(10.05, 11.0).as_deref(), Some("FR"));
    assert_eq!(at(31.0, 11.0).as_deref(), Some("FR"));
    assert_eq!(at(30.45, 11.0).as_deref(), Some("GB"));
    assert_eq!(at(30.85, 14.5).as_deref(), Some("FR"));
    assert_eq!(at(9.0, 11.0), None);
    assert_eq!(at(11.0, 30.0), None);
    assert_eq!(g.get_country_by_position(Point { lat: 0, lng: 500_000_000 }).map(|c| c.iso), None);
    assert_eq!(g.get_country_by_position(Point { lat: i64::MAX, lng: i64::MIN }).map(|c| c.iso), None);
}

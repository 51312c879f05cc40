use simwatch::weather::ext_types::{Metar, WeatherInfo, WindDirection};
use simwatch::weather::{BlackListItem, Fetched, GetPlan, WeatherManager, BLACKLIST_MS};

fn metar(station: &str, received: i64) -> Metar {
    Metar {
        metar_id: 1,
        icao_id: station.into(),
        receipt_time: received,
        report_time: received - 60_000,
        temp: Some(12_000_000),
        dewp: Some(-1_500_000),
        wdir: Some(WindDirection::Degree(270)),
        wspd: Some(12),
        wgst: None,
        raw_ob: format!("{} 121650Z", station),
    }
}

fn names(list: &[&str]) -> Vec<String> {
    list.iter().map(|s| s.to_string()).collect()
}

#[test]
fn failures_double_the_time_a_station_is_left_alone() {
    let mut w = WeatherManager::new(1_800_000);
    let mut now: i64 = 0;
    for k in 1..=6u32 {
        match w.plan("ZZZZ", now) {
            GetPlan::Fetch(path) => assert_eq!(
                path,
                "https://aviationweather.gov/cgi-bin/data/metar.php?ids=ZZZZ&format=json"
            ),
            _ => panic!("failure {}", k),
        }
        let fetched = if k % 2 == 0 { Fetched::Failed } else { Fetched::Empty };
        assert!(w.get("ZZZZ", fetched, now).is_none());
        let duration: i64 = 3_600_000 * (1i64 << (k - 1));
        assert!(w.is_blacklisted("ZZZZ", now + duration));
        assert!(!w.is_blacklisted("ZZZZ", now + duration + 1));
        assert!(matches!(w.plan("ZZZZ", now + duration), GetPlan::Blacklisted));
        now += duration + 1;
    }
    assert_eq!(w.request_num(), 6);
    assert!(!w.is_blacklisted("EGLL", 0));
}

#[test]
fn blacklist_items_double_and_expire() {
    let first = BlackListItem::new(10);
    assert_eq!((first.set_at, first.duration), (10, BLACKLIST_MS));
    let second = first.double(20);
    assert_eq!((second.set_at, second.duration), (20, 7_200_000));
    assert!(!second.expired(20 + 7_200_000));
    assert!(second.expired(20 + 7_200_001));
    let huge = BlackListItem { set_at: 0, duration: i64::MAX - 1 };
    assert_eq!(huge.double(0).duration, i64::MAX);
}

#[test]
fn second_preload_asks_for_nothing() {
    let mut w = WeatherManager::new(1_800_000);
    let stations = names(&["EGLL", "KLAX", "EGLL"]);
    let path = w.preload(&stations, 1_000).unwrap();
    assert_eq!(
        path,
        "https://aviationweather.gov/cgi-bin/data/metar.php?ids=EGLL,KLAX,EGLL&format=json"
    );
    w.store(vec![metar("EGLL", 900), metar("KLAX", 950)]);
    assert!(w.preload(&stations, 1_000).is_none());
    assert_eq!(w.request_num(), 1);
    assert!(w.has_valid_cache_for("EGLL", 1_000));
    assert!(w.preload(&stations, 900 + 1_799_999).is_none());
    let again = w.preload(&stations, 900 + 1_800_000).unwrap();
    assert!(again.contains("ids=EGLL,EGLL&"));
    assert_eq!(w.request_num(), 2);
    assert!(w.preload(&Vec::new(), 0).is_none());
}

#[test]
fn cache_hands_out_what_is_young_enough() {
    let mut w = WeatherManager::new(1_000);
    assert!(matches!(w.plan("EGLL", 0), GetPlan::Fetch(_)));
    let wx = w.get("EGLL", Fetched::Found(metar("EGLL", 100)), 100).unwrap();
    assert_eq!(wx.raw, "EGLL 121650Z");
    assert_eq!(wx.ts, 100);
    assert_eq!(wx.temperature, Some(12_000_000));
    assert!(wx.same(&WeatherInfo::from_metar(metar("EGLL", 100))));
    match w.plan("EGLL", 1_100) {
        GetPlan::Cached(c) => assert!(c.same(&wx)),
        _ => panic!(),
    }
    assert!(w.get_cache("EGLL", 1_100).is_some());
    assert!(w.get_cache("EGLL", 1_101).is_none());
    assert!(!w.has_valid_cache_for("EGLL", 1_100));
    assert!(w.has_valid_cache_for("EGLL", 1_099));
    assert!(matches!(w.plan("EGLL", 1_101), GetPlan::Fetch(_)));
    assert!(w.get_cache("KLAX", 0).is_none());
    assert_eq!(w.request_num(), 2);
}

#[test]
fn sweep_names_what_has_grown_old() {
    let mut w = WeatherManager::new(1_000);
    w.store(vec![metar("A", 0), metar("B", 500), metar("C", 900), metar("B", 600)]);
    assert!(w.run(999).is_empty());
    assert_eq!(w.run(1_000), vec!["A"]);
    assert_eq!(w.run(1_599), vec!["A"]);
    assert_eq!(w.run(1_600), vec!["A", "B"]);
    assert_eq!(w.stations_to_load(&names(&["C", "A", "D"]), 1_000), vec!["A", "D"]);
    let variable = WindDirection::Variable("VRB".into());
    assert!(variable.same(&variable.clone()));
    assert!(!variable.same(&WindDirection::Degree(0)));
}

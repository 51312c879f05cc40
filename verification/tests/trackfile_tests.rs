use simwatch::moving::pilot::Pilot;
use simwatch::tmf::types::{
    Header as FlightHeader, TouchDown, TrackEntry, TrackPoint as FlightPoint, DEFAULT_UUID,
};
use simwatch::tmf::{Request, Session, TrackService};
use simwatch::track::header::Header;
use simwatch::track::trackpoint::TrackPoint;
use simwatch::track::Store;
use simwatch::trackfile::{Record, TrackFile, TrackFileError, TrackFileHeader, Written};
use simwatch::types::Point;

fn vec_compare(v1: &[u8], v2: &[u8]) -> bool {
    v1.len() == v2.len() && v1.iter().zip(v2).all(|(i1, i2)| *i1 == *i2)
}

#[test]
fn test_track_file() {
    let path = "track.bin";
    let mut tf: TrackFile<u64, Header> = TrackFile::new(path, None, 1000).unwrap();
    tf.append(&1, 1001);
    tf.append(&2, 1002);
    tf.append(&2, 1003);
    tf.append(&2, 1004);

    let raw = tf.bytes();
    let expected_len = 3 * 8 * <u64 as Record>::words() + 8 * <Header as Record>::words();
    assert_eq!(expected_len, raw.len());
    assert_eq!(expected_len, 16 + 24 + 16);

    let expected_raw = &[
        0xc8, 0x42, 0x6a, 0x00, 0x5f, 0x3e, 0x9f, 0x11, // magic
        0x01, 0, 0, 0, 0, 0, 0, 0, // version
    ];
    assert!(vec_compare(&raw[..16], expected_raw));

    let expected_count = 3;
    assert_eq!(raw[24], expected_count);
    assert_eq!(tf.name(), path);
}

fn tp(ts: i64) -> TrackPoint {
    TrackPoint { lat: 1_000_000, lng: 1_000_000, alt: 0, hdg: 0, gs: 0, ts }
}

#[test]
fn three_equal_points_are_kept_as_two() {
    let mut tf: TrackFile<TrackPoint, Header> = TrackFile::new("t", None, 0).unwrap();
    assert_eq!(tf.append(&tp(1), 1), Written::Appended);
    assert_eq!(tf.append(&tp(2), 2), Written::Appended);
    assert_eq!(tf.append(&tp(3), 3), Written::ReplacedLast);
    assert_eq!(tf.count(), 2);
    assert_eq!(tf.read_at(1).unwrap().ts, 3);
    assert_eq!(tf.read_at(0).unwrap().ts, 1);
    assert_eq!(tf.mtime(), 2);
    let moved = TrackPoint { lat: 2_000_000, ..tp(4) };
    assert_eq!(tf.append(&moved, 4), Written::Appended);
    assert_eq!(tf.count(), 3);
    assert_eq!(tf.mtime(), 4);
}

#[test]
fn image_reads_back_what_was_written() {
    let mut tf: TrackFile<TrackPoint, Header> = TrackFile::new("t", None, 7).unwrap();
    let points = vec![
        TrackPoint { lat: -51_464_900, lng: 486_772, alt: -75, hdg: -90, gs: 250, ts: -5 },
        TrackPoint { lat: 51_465_000, lng: -434_074, alt: 35000, hdg: 270, gs: 480, ts: 99 },
        tp(100),
    ];
    for (i, p) in points.iter().enumerate() {
        tf.append(p, 10 + i as u64);
    }
    let image = tf.bytes();
    assert_eq!(image.len(), 32 + 3 * 48);
    let back: TrackFile<TrackPoint, Header> = TrackFile::new("t", Some(&image), 0).unwrap();
    assert_eq!(back.read_all(), points);
    assert_eq!(back.count(), 3);
    assert_eq!(back.mtime(), 12);
    assert_eq!(back.bytes(), image);
    assert_eq!(back.destroy(), image);
}

#[test]
fn reading_is_clipped_to_what_is_there() {
    let mut tf: TrackFile<u64, Header> = TrackFile::new("t", None, 0).unwrap();
    for v in [5, 6, 7] {
        tf.append(&v, 1);
    }
    assert_eq!(tf.read_multiple_at(1, 2), vec![6, 7]);
    assert_eq!(tf.read_multiple_at(1, 10), vec![6, 7]);
    assert_eq!(tf.read_multiple_at(3, 1), Vec::<u64>::new());
    assert_eq!(tf.read_multiple_at(9, 1), Vec::<u64>::new());
    assert_eq!(tf.read_multiple_at(0, 0), Vec::<u64>::new());
    assert_eq!(tf.read_all(), vec![5, 6, 7]);
    match tf.read_at(3) {
        Err(TrackFileError::IndexError(3)) => {}
        other => panic!("{:?}", other),
    }
}

#[test]
fn damaged_images_are_refused() {
    let mut tf: TrackFile<u64, Header> = TrackFile::new("t", None, 0).unwrap();
    tf.append(&1, 1);
    let image = tf.bytes();

    let mut bad_magic = image.clone();
    bad_magic[0] ^= 0xff;
    match TrackFile::<u64, Header>::new("t", Some(&bad_magic), 0) {
        Err(TrackFileError::InvalidMagicNumber) => {}
        _ => panic!("magic"),
    }

    let mut short = image.clone();
    short.pop();
    match TrackFile::<u64, Header>::new("t", Some(&short), 0) {
        Err(TrackFileError::InvalidFileLength(40, 39)) => {}
        _ => panic!("length"),
    }

    match TrackFile::<u64, Header>::new("t", Some(&Vec::new()), 0) {
        Err(TrackFileError::InvalidMagicNumber) => {}
        _ => panic!("empty"),
    }
}

#[test]
fn track_file_errors_read_well() {
    assert_eq!(
        TrackFileError::InvalidMagicNumber.to_string(),
        "Track file corrupted, invalid magic number"
    );
    assert_eq!(
        TrackFileError::InvalidFileLength(40, 39).to_string(),
        "Invalid track file length: expected 40, got 39"
    );
    assert_eq!(
        TrackFileError::IndexError(7).to_string(),
        "Invalid index 7 while reading track file data"
    );
    assert_eq!(
        TrackFileError::InsufficientDataLength(3).to_string(),
        "Insufficient data length while parsing track file entry: 3"
    );
    assert_eq!(TrackFileError::IOError("gone".into()).to_string(), "TrackFileError: gone");
}

#[test]
fn pilot_header_counts_and_remembers_the_time() {
    let mut h = Header::default_at(5);
    assert!(h.check_magic());
    assert_eq!((h.version(), h.timestamp(), h.count()), (1, 5, 0));
    h.inc(9);
    assert_eq!((h.timestamp(), h.count()), (9, 1));
    assert_eq!(Header::decode(&h.encode()), h);
}

#[test]
fn flight_header_carries_an_identifier() {
    let mut h = FlightHeader::default_at(5);
    assert!(h.check_magic());
    assert_eq!(h.uuid(), DEFAULT_UUID);
    assert_eq!(h.uuid().len(), 36);
    h.set_uuid("abc");
    assert_eq!(h.uuid(), "abcb897f-ada4-4a94-b9c3-ad8e4dd1f73f");
    h.inc(6);
    assert_eq!((h.timestamp(), h.count(), h.version()), (6, 1, 1));
    let words = h.encode();
    assert_eq!(words.len(), 40);
    assert_eq!(words[1], 0xAA99AA881011889C);
    assert_eq!(FlightHeader::decode(&words).uuid(), h.uuid());
}

fn flight_point(ts: u64, lat: i64) -> TrackEntry {
    TrackEntry::TrackPoint(FlightPoint {
        ts,
        lat,
        lng: 2,
        hdg_true: 3,
        alt_amsl: -4,
        alt_agl: 5,
        gnd_height: 6,
        crs: 7,
        ias: 8,
        tas: 9,
        gs: 10,
        ap_master: true,
        gear_pct: 100,
        flaps: 2,
        on_gnd: false,
        on_rwy: true,
        wind_vel: 11,
        wind_dir: 12,
        distance: 13,
    })
}

#[test]
fn flight_session_writes_and_answers() {
    let service = TrackService::new("/var/tmf");
    assert_eq!(service.flight_filename("f1"), "/var/tmf/f1.bin");
    assert_eq!(TrackService::new("/var/tmf/").flight_filename("f1"), "/var/tmf/f1.bin");
    assert_eq!(service.folder(), "/var/tmf");

    let file: TrackFile<TrackEntry, FlightHeader> = TrackFile::new("f1", None, 1).unwrap();
    let mut session = Session::new(file);
    let ack = session.handle(Request::Track(flight_point(1, 1)), 10, 10_000);
    assert_eq!((ack.seq_number, ack.echo_response), (1, None));
    session.handle(Request::Track(flight_point(2, 1)), 11, 11_000);
    let ack = session.handle(Request::Track(flight_point(3, 1)), 12, 12_000);
    assert_eq!(ack.seq_number, 3);
    let ack = session.handle(Request::Echo(77), 13, 13_000);
    assert_eq!(ack.seq_number, 4);
    let echo = ack.echo_response.unwrap();
    assert_eq!((echo.client_timestamp_us, echo.server_timestamp_us), (77, 13_000));
    let td = TrackEntry::TouchDown(TouchDown {
        ts: 4,
        bank: 1,
        hdg_mag: 2,
        hdg_true: 3,
        vel_nrm: -4,
        pitch: 5,
        lat: 6,
        lng: 7,
    });
    session.handle(Request::Track(td), 14, 14_000);
    session.handle(Request::Track(td), 15, 15_000);
    session.handle(Request::Track(td), 16, 16_000);

    let image = session.bytes();
    let back: TrackFile<TrackEntry, FlightHeader> = TrackFile::new("f1", Some(&image), 0).unwrap();
    let all = back.read_all();
    assert_eq!(all.len(), 5);
    assert_eq!(all[0], flight_point(1, 1));
    assert_eq!(all[1], flight_point(3, 1));
    assert_eq!(all[2], td);
    assert_eq!(all[4], td);
}

fn pilot(cid: u32, callsign: &str, logon_ms: i64) -> Pilot {
    Pilot {
        cid,
        name: "N".into(),
        callsign: callsign.into(),
        server: "S".into(),
        pilot_rating: 1,
        position: Point { lat: 1, lng: 2 },
        altitude: 3,
        groundspeed: 4,
        transponder: "7000".into(),
        heading: 5,
        qnh_i_hg: 2992,
        qnh_mb: 1013,
        flight_plan: None,
        logon_time: logon_ms,
        last_updated: 6,
        aircraft_type: None,
    }
}

#[test]
fn tracks_are_kept_in_folders_by_pilot() {
    let store = Store::new("/data");
    let p = pilot(1234567, "AFL123", 1_700_000_000_999);
    assert_eq!(store.pilot_track_folder(&p), "/data/123/1234567");
    assert_eq!(
        store.pilot_track_filename(&p),
        "/data/123/1234567/1234567.AFL123.1700000000.bin"
    );
    let early = pilot(7, "X", -1);
    assert_eq!(Store::new("").pilot_track_filename(&early), "0/7/7.X.-1.bin");
}

#[test]
fn store_writes_counts_and_cleans() {
    let store = Store::new("/data");
    let p = pilot(1, "A", 0);
    let first = store.store_track(None, &p, 100).unwrap();
    let second = store.store_track(Some(&first), &p, 200).unwrap();
    let third = store.store_track(Some(&second), &p, 300).unwrap();
    assert_eq!(third.len(), second.len());
    let points = store.get_track_points(Some(&third)).unwrap();
    assert_eq!(points.len(), 2);
    assert_eq!(points[0], TrackPoint::of(&p));
    assert!(store.get_track_points(None).unwrap().is_empty());
    assert!(store.get_track_points(Some(&vec![1, 2, 3])).is_err());
    assert!(store.store_track(Some(&vec![1, 2, 3]), &p, 1).is_err());

    let images = vec![first.clone(), vec![0u8; 5], third.clone()];
    assert_eq!(store.counters(&images), (2, 3));

    let two_days: u64 = 2 * 24 * 3600 * 1000;
    let files = vec![
        ("old".to_string(), first),
        ("broken".to_string(), vec![9u8; 40]),
        ("young".to_string(), third),
    ];
    assert_eq!(store.cleanup(&files, 100 + two_days + 1), vec!["old"]);
    assert!(store.cleanup(&files, 100 + two_days).is_empty());
    assert_eq!(store.cleanup(&files, 200 + two_days + 1), vec!["old", "young"]);
}

fn header(name: &str, value: Option<&str>) -> (String, Option<String>) {
    (name.to_string(), value.map(|v| v.to_string()))
}

#[test]
fn flight_describes_itself_by_its_headers() {
    let headers = vec![
        header("content-type", Some("application/grpc")),
        header("x-atc-id", Some("BAW123")),
        header("x-flight-id", Some("f-1")),
        header("x-flight-id", Some("f-2")),
        header("x-title", None),
        header("x-atc-flight-number", Some("123")),
    ];
    let meta = simwatch::tmf::FlightMeta::try_from(&headers).unwrap();
    assert_eq!(meta.flight_id, "f-1");
    assert_eq!(meta.atc_id, "BAW123");
    assert_eq!(meta.atc_type, None);
    assert_eq!(meta.atc_flight_number.as_deref(), Some("123"));
    assert_eq!(meta.aircraft_title, None);
    assert_eq!(simwatch::tmf::extract_key(&headers, "x-atc-id").unwrap(), "BAW123");
    assert_eq!(
        simwatch::tmf::extract_key(&headers, "x-title").unwrap_err().msg,
        "invalid x-title header"
    );
    assert_eq!(
        simwatch::tmf::extract_key(&headers, "X-Atc-Id").unwrap_err().msg,
        "X-Atc-Id header is missing"
    );
    let err = simwatch::tmf::FlightMeta::try_from(&headers[..2].to_vec()).unwrap_err();
    assert_eq!(err.msg, "x-flight-id header is missing");
    let err = simwatch::tmf::FlightMeta::try_from(&vec![
        header("x-flight-id", Some("f")),
        header("x-atc-id", None),
    ])
    .unwrap_err();
    assert_eq!(err.msg, "invalid x-atc-id header");
    let err = simwatch::tmf::FlightMeta::try_from(&Vec::new()).unwrap_err();
    assert_eq!(err.msg, "x-flight-id header is missing");
}

#[test]
fn flight_identifier_reads_back_as_it_was_set() {
    let mut h = <FlightHeader as TrackFileHeader>::default_at(5);
    assert_eq!(h.uuid(), DEFAULT_UUID);
    let id = "0f8fad5b-d9cb-469f-a165-70867728950e";
    h.set_uuid(id);
    assert_eq!(h.uuid(), id);
    assert_eq!(h.uuid().len(), 36);
    assert!(h.check_magic());
    assert_eq!((h.version(), h.timestamp(), h.count()), (1, 5, 0));
    h.set_uuid("short");
    assert_eq!(h.uuid(), "shortd5b-d9cb-469f-a165-70867728950e");
    h.set_uuid("");
    assert_eq!(h.uuid().len(), 36);
}

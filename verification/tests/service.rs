use owntrack_rs::config;
use owntrack_rs::db::{
    deserialize_dict_to_string, non_empty_tracks, serialize_raw_json, sort_by_latest_end, GpsPoint,
    TrackData, TrackId, TrackInfo,
};
use owntrack_rs::error::Error;
use owntrack_rs::geo::Degrees;
use owntrack_rs::http;
use owntrack_rs::json::{parse, Json};
use owntrack_rs::owntracks::decode;
use owntrack_rs::position::Position;

fn info(device: &str, ts_end: &str) -> TrackInfo {
    TrackInfo {
        user: "u".to_string(),
        device: device.to_string(),
        date: "2025-02-19".to_string(),
        ts_start: "2025-02-19 00:00:00+00".to_string(),
        ts_end: ts_end.to_string(),
        speed_min: None,
        speed_max: None,
        elevation_min: None,
        elevation_max: None,
    }
}

fn point(ts: &str) -> GpsPoint {
    GpsPoint {
        y: Degrees { e7: 470000000 },
        x: Degrees { e7: 94000000 },
        ts: ts.to_string(),
        speed: None,
        elevation: None,
        accuracy: None,
        v_accuracy: None,
        cog: None,
        annotations: "{}".to_string(),
    }
}

fn a_track(device: &str, points: Vec<GpsPoint>) -> TrackData {
    TrackData { user: "u".to_string(), device: device.to_string(), date: "2025-02-19".to_string(), points }
}

#[test]
fn summaries_are_ordered_latest_end_first() {
    let sorted = sort_by_latest_end(vec![
        info("a", "2025-02-19 08:00:00+00"),
        info("b", "2025-02-19 10:00:00+00"),
        info("c", "2025-02-19 08:00:00+00"),
        info("d", "2025-02-19 09:30:00+00"),
        info("e", "2025-02-19 10:00:00+00"),
    ]);
    let devices: Vec<&str> = sorted.iter().map(|i| i.device.as_str()).collect();
    assert_eq!(devices, vec!["b", "e", "d", "a", "c"]);
    assert!(sort_by_latest_end(vec![]).is_empty());
}

#[test]
fn empty_tracks_are_left_out() {
    let kept = non_empty_tracks(vec![
        a_track("a", vec![]),
        a_track("b", vec![point("2025-02-19 06:46:54+00")]),
        a_track("c", vec![]),
        a_track("d", vec![point("2025-02-19 06:46:54+00")]),
    ]);
    let devices: Vec<&str> = kept.iter().map(|t| t.device.as_str()).collect();
    assert_eq!(devices, vec!["b", "d"]);
}

#[test]
fn track_knows_whether_its_points_are_in_order() {
    let ordered = a_track("a", vec![point("2025-02-19 06:46:54+00"), point("2025-02-19 06:46:54+00"), point("2025-02-19 06:47:00+00")]);
    assert!(ordered.is_ordered());
    let mixed = a_track("a", vec![point("2025-02-19 06:46:54+00"), point("2025-02-19 06:46:53+00")]);
    assert!(!mixed.is_ordered());
    assert!(a_track("a", vec![]).is_ordered());
}

#[test]
fn track_of_an_id_takes_its_date() {
    let id = TrackId { user: "alice".to_string(), device: "phone1".to_string(), ts_start: "2025-02-19 06:46:54+00".to_string() };
    let track = TrackData::new(&id, vec![point("2025-02-19 06:46:54+00")]);
    assert_eq!(track.user, "alice");
    assert_eq!(track.device, "phone1");
    assert_eq!(track.date, "2025-02-19");
    assert_eq!(track.points.len(), 1);
}

#[test]
fn annotations_are_the_text_of_an_object() {
    let doc = parse(br#"{"b":1,"a":[true]}"#).unwrap();
    assert_eq!(deserialize_dict_to_string(&doc).unwrap(), r#"{"a":[true],"b":1}"#);
    assert_eq!(deserialize_dict_to_string(&Json::Array(vec![])).unwrap_err(), Error::SchemaMismatch);
    assert_eq!(deserialize_dict_to_string(&Json::Null).unwrap_err(), Error::SchemaMismatch);
    assert!(matches!(serialize_raw_json(r#"{"a":1}"#).unwrap(), Json::Object(m) if m.len() == 1));
    assert_eq!(serialize_raw_json("{").unwrap_err(), Error::MalformedRecord);
}

#[test]
fn position_row_widens_the_numbers() {
    let p = Position {
        tid: "al".to_string(),
        ts: 1739947614,
        velocity: Some(65535),
        lat: Degrees { e7: 470401765 },
        lon: Degrees { e7: 94370853 },
        alt: Some(-12),
        accuracy: Some(4294967295),
        v_accuracy: Some(3),
        cog: None,
        annotations: "{}".to_string(),
    };
    assert!(p.is_wf());
    let row = p.row();
    assert_eq!(row.velocity, Some(65535));
    assert_eq!(row.alt, Some(-12));
    assert_eq!(row.accuracy, Some(4294967295));
    assert_eq!(row.v_accuracy, Some(3));
    assert_eq!(row.cog, None);
    assert_eq!(row.ts, 1739947614);
    assert_eq!(row.lat, Degrees { e7: 470401765 });
    let off = Position { lat: Degrees { e7: 900_000_001 }, ..p };
    assert!(!off.is_wf());
}

#[test]
fn settings_have_their_defaults() {
    assert_eq!(config::db_connection(None), "sqlite://tracking.sqlite");
    assert_eq!(config::db_connection(Some("postgres://x".to_string())), "postgres://x");
    assert_eq!(config::http_listen(None), "0.0.0.0:8083");
    assert_eq!(config::http_listen(Some("127.0.0.1:80".to_string())), "127.0.0.1:80");
    assert!(config::is_sqlite("sqlite://tracking.sqlite"));
    assert!(config::is_sqlite("sqlite:"));
    assert!(!config::is_sqlite("sqlit"));
    assert!(!config::is_sqlite("postgres://sqlite:"));
    assert!(config::is_postgres("PostgreSQL"));
    assert!(!config::is_postgres("SQLite"));
    assert_eq!(config::mqtt_url(None), None);
    assert_eq!(config::mqtt_url(Some(String::new())), None);
    assert_eq!(config::mqtt_url(Some("mqtt://broker:1883".to_string())), Some("mqtt://broker:1883".to_string()));
    assert_eq!(config::mqtt_client_id("host", 4711), "host-4711");
    assert_eq!(config::mqtt_connect_url("mqtt://broker:1883", "host-4711"), "mqtt://broker:1883?client_id=host-4711");
    assert_eq!(config::mqtt_topic_filter(), "owntracks/#");
    assert_eq!(config::MQTT_KEEP_ALIVE_SECS, 5);
    assert_eq!(config::MQTT_CAPACITY, 10);
    assert_eq!(config::JSON_LIMIT, 4096);
}

#[test]
fn download_names() {
    assert_eq!(http::file_name("phone1", "2025-02-19 06:46:54+00", "gpx"), "track_phone1_2025-02-19_06:46:54+00.gpx");
    assert_eq!(http::file_name("", "a  b", "csv"), "track__a__b.csv");
    assert_eq!(http::content_disposition("t.csv"), "attachment; filename=\"t.csv\"");
    assert_eq!(http::asset_path(""), "index.html");
    assert_eq!(http::asset_path("setup"), "setup.html");
    assert_eq!(http::asset_path("css/main.css"), "css/main.css");
    assert_eq!(http::origin("https", "example.org:8083"), "https://example.org:8083");
}

#[test]
fn posted_location_is_stored_under_the_parameters() {
    let msg = decode(br#"{"_type":"location","tst":5,"lat":47.5,"lon":9.5}"#).unwrap();
    let h = http::owntracks(Some("alice".to_string()), None, msg).unwrap().unwrap();
    assert_eq!(h.user, "alice");
    assert_eq!(h.device, "");
    assert_eq!(h.position.ts, 5);
    let other = decode(br#"{"_type":"waypoint"}"#).unwrap();
    assert!(http::owntracks(None, None, other).unwrap().is_none());
    let off = decode(br#"{"_type":"location","tst":5,"lat":147.5,"lon":9.5}"#).unwrap();
    assert_eq!(http::owntracks(None, None, off).unwrap_err(), Error::MalformedCoordinate);
}

#[test]
fn track_export_chooses_the_rendering() {
    let tracks = vec![a_track("a", vec![point("2025-02-19 06:46:54+00"), point("2025-02-19 06:46:55+00"), point("2025-02-19 06:46:56+00")])];
    let lines = http::track_export(&tracks, None).unwrap();
    assert_eq!(lines, owntrack_rs::geojson::track(&tracks).unwrap());
    assert_eq!(http::track_export(&tracks, Some(false)).unwrap(), lines);
    let segmented = http::track_export(&tracks, Some(true)).unwrap();
    assert_eq!(segmented, owntrack_rs::geojson::track_with_segments(&tracks).unwrap());
    assert!(segmented.contains("\"trackno\":0"));
    assert!(!lines.contains("trackno"));
}

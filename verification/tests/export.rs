use owntrack_rs::csv;
use owntrack_rs::db::{DevicePosition, GpsPoint, TrackData};
use owntrack_rs::error::Error;
use owntrack_rs::geo::Degrees;
use owntrack_rs::geojson::{point_properties, positions, track, track_points, track_with_segments};
use owntrack_rs::gpx;
use owntrack_rs::json::{parse, render, Json};

fn point(n: i64, accuracy: Option<i32>, annotations: &str) -> GpsPoint {
    GpsPoint {
        y: Degrees { e7: 470000000 + n * 1000 },
        x: Degrees { e7: 94000000 + n * 1000 },
        ts: format!("2025-02-19 06:46:{:02}+00", n),
        speed: Some(n as i16),
        elevation: if n % 2 == 0 { Some(500 + n as i16) } else { None },
        accuracy,
        v_accuracy: None,
        cog: None,
        annotations: annotations.to_string(),
    }
}

fn a_track(points: Vec<GpsPoint>) -> TrackData {
    TrackData { user: "alice".to_string(), device: "phone<1>".to_string(), date: "2025-02-19".to_string(), points }
}

fn get<'a>(doc: &'a Json, key: &str) -> &'a Json {
    match doc {
        Json::Object(members) => &members.iter().find(|(k, _)| k == key).unwrap_or_else(|| panic!("no member {}", key)).1,
        other => panic!("no object: {:?}", other),
    }
}

fn items(doc: &Json) -> &Vec<Json> {
    match doc {
        Json::Array(items) => items,
        other => panic!("no array: {:?}", other),
    }
}

#[test]
fn properties_skip_the_listed_annotations() {
    let p = point(2, Some(5), r#"{"_id":7,"m":1,"BSSID":"x","SSID":"y","created_at":3,"batt":83,"conn":"w"}"#);
    let members = point_properties(&p).unwrap();
    let keys: Vec<&str> = members.iter().map(|(k, _)| k.as_str()).collect();
    assert_eq!(keys, vec!["time", "speed", "elevation", "accuracy", "v_accuracy", "cog", "batt", "conn"]);
    assert_eq!(
        render(&Json::Object(members)),
        r#"{"accuracy":5,"batt":83,"cog":null,"conn":"w","elevation":502,"speed":2,"time":"2025-02-19 06:46:02+00","v_accuracy":null}"#
    );
    assert!(point_properties(&point(1, None, "[]")).is_none());
    assert!(point_properties(&point(1, None, "")).is_none());
}

#[test]
fn line_document_of_a_track() {
    let tracks = vec![a_track(vec![point(1, None, "{}"), point(2, Some(250), "{}"), point(3, Some(10), r#"{"batt":5}"#)])];
    let text = track(&tracks).unwrap();
    let expected = [
        r#"{"features":[{"bbox":[9.4001,47.0001,9.4003,47.0003],"#,
        r#""geometry":{"coordinates":[[9.4001,47.0001],[9.4003,47.0003]],"type":"LineString"},"#,
        r#""properties":{"accuracy":10,"batt":5,"cog":null,"elevation":null,"speed":3,"time":"2025-02-19 06:46:03+00","v_accuracy":null},"#,
        r#""type":"Feature"}],"type":"FeatureCollection"}"#,
    ]
    .join("");
    assert_eq!(text, expected);
}

#[test]
fn line_document_of_an_empty_track() {
    let text = track(&vec![a_track(vec![point(1, Some(250), "{}")])]).unwrap();
    assert_eq!(
        text,
        r#"{"features":[{"geometry":{"coordinates":[],"type":"LineString"},"properties":null,"type":"Feature"}],"type":"FeatureCollection"}"#
    );
    assert_eq!(track(&vec![]).unwrap(), r#"{"features":[],"type":"FeatureCollection"}"#);
}

#[test]
fn segmented_document_tags_the_track() {
    let tracks = vec![
        a_track(vec![point(1, None, "{}"), point(2, None, "{}"), point(3, None, "{}")]),
        a_track(vec![point(4, None, "{}"), point(5, Some(200), "{}"), point(6, None, "{}")]),
    ];
    let doc = parse(track_with_segments(&tracks).unwrap().as_bytes()).unwrap();
    let features = items(get(&doc, "features"));
    assert_eq!(features.len(), 3);
    let numbers: Vec<String> = features.iter().map(|f| render(get(get(f, "properties"), "trackno"))).collect();
    assert_eq!(numbers, vec!["0", "0", "1"]);
    let times: Vec<String> = features.iter().map(|f| render(get(get(f, "properties"), "time"))).collect();
    assert_eq!(times, vec![r#""2025-02-19 06:46:01+00""#, r#""2025-02-19 06:46:02+00""#, r#""2025-02-19 06:46:04+00""#]);
    assert_eq!(
        render(get(get(&features[2], "geometry"), "coordinates")),
        "[[9.4004,47.0004],[9.4006,47.0006]]"
    );
}

#[test]
fn points_document_has_bbox_and_stats() {
    let tracks = vec![a_track(vec![point(1, None, "{}"), point(2, Some(300), "{}"), point(4, None, "{}"), point(6, None, "{}")])];
    let doc = parse(track_points(&tracks, Some(1234)).unwrap().as_bytes()).unwrap();
    let features = items(get(&doc, "features"));
    assert_eq!(features.len(), 3);
    let ids: Vec<String> = features.iter().map(|f| render(get(f, "id"))).collect();
    assert_eq!(ids, vec!["0", "1", "2"]);
    assert_eq!(render(get(&features[1], "geometry")), r#"{"coordinates":[9.4004,47.0004],"type":"Point"}"#);
    assert_eq!(render(get(&doc, "bbox")), "[9.4001,47.0001,9.4006,47.0006]");
    assert_eq!(
        render(get(&doc, "stats")),
        r#"{"distance":1234,"elevation_gain":2,"elevation_max":506,"elevation_min":504,"speed_max":6,"speed_min":1}"#
    );
    let empty = track_points(&vec![], None).unwrap();
    assert_eq!(
        empty,
        r#"{"features":[],"stats":{"elevation_gain":0,"elevation_max":null,"elevation_min":null,"speed_max":null,"speed_min":null},"type":"FeatureCollection"}"#
    );
}

#[test]
fn malformed_annotations_fail_the_export() {
    let tracks = vec![a_track(vec![point(1, None, "{}"), point(2, None, "oops")])];
    assert_eq!(track(&tracks).unwrap_err(), Error::MalformedRecord);
    assert_eq!(track_with_segments(&tracks).unwrap(), track_with_segments(&tracks).unwrap());
    assert_eq!(track_points(&tracks, None).unwrap_err(), Error::MalformedRecord);
    let tracks = vec![a_track(vec![point(1, None, "oops"), point(2, None, "{}")])];
    assert_eq!(track_with_segments(&tracks).unwrap_err(), Error::MalformedRecord);
    assert!(track(&tracks).is_ok());
}

#[test]
fn positions_document_is_not_filtered() {
    let devices = vec![
        DevicePosition {
            device_id: 7,
            y: Degrees { e7: 470500000 },
            x: Degrees { e7: 94400000 },
            ts: "2025-02-19 06:46:54+00".to_string(),
            tid: "al".to_string(),
            speed: None,
            elevation: Some(491),
            accuracy: Some(900),
            v_accuracy: None,
            cog: None,
        },
        DevicePosition {
            device_id: 9,
            y: Degrees { e7: -10000000 },
            x: Degrees { e7: -1795000000 },
            ts: "2025-02-19 07:00:00+00".to_string(),
            tid: "".to_string(),
            speed: Some(3),
            elevation: None,
            accuracy: None,
            v_accuracy: None,
            cog: Some(90),
        },
    ];
    let doc = parse(positions(&devices).unwrap().as_bytes()).unwrap();
    let features = items(get(&doc, "features"));
    assert_eq!(features.len(), 2);
    assert_eq!(render(get(&features[0], "id")), "7");
    assert_eq!(
        render(get(&features[0], "properties")),
        r#"{"accuracy":900,"cog":null,"device_id":7,"elevation":491,"speed":null,"tid":"al","time":"2025-02-19 06:46:54+00","v_accuracy":null}"#
    );
    assert_eq!(render(get(&doc, "bbox")), "[-179.5,-1.0,9.44,47.05]");
    assert_eq!(positions(&vec![]).unwrap(), r#"{"features":[],"type":"FeatureCollection"}"#);
}

#[test]
fn gpx_document_of_a_track() {
    let tracks = vec![a_track(vec![point(1, None, "{}"), point(2, Some(250), "{}"), point(4, None, "{}")])];
    assert_eq!(
        gpx::tracks(&tracks),
        "<?xml version=\"1.0\" encoding=\"UTF-8\"?>\n\
         <gpx version=\"1.1\" creator=\"owntrack-rs\" xmlns=\"http://www.topografix.com/GPX/1/1\">\n\
         <trk><name>phone&lt;1&gt; 2025-02-19</name><trkseg>\n\
         <trkpt lat=\"47.0001000\" lon=\"9.4001000\"><time>2025-02-19T06:46:01Z</time></trkpt>\n\
         <trkpt lat=\"47.0004000\" lon=\"9.4004000\"><ele>504</ele><time>2025-02-19T06:46:04Z</time></trkpt>\n\
         </trkseg></trk>\n\
         </gpx>\n"
    );
    let mut odd = point(1, None, "{}");
    odd.ts = "a&b \"c\" 'd'".to_string();
    let text = gpx::tracks(&vec![a_track(vec![odd])]);
    assert!(text.contains("<time>a&amp;b &quot;c&quot; &apos;d&apos;</time>"));
    assert_eq!(
        gpx::tracks(&vec![]),
        "<?xml version=\"1.0\" encoding=\"UTF-8\"?>\n<gpx version=\"1.1\" creator=\"owntrack-rs\" xmlns=\"http://www.topografix.com/GPX/1/1\">\n</gpx>\n"
    );
}

#[test]
fn csv_of_a_track_leaves_inaccurate_points_out() {
    let t = a_track(vec![point(1, None, "{}"), point(2, Some(250), "{}")]);
    assert_eq!(
        csv::track(&t),
        "timestamp,latitude,longitude,speed,elevation,accuracy,v_accuracy,cog\n2025-02-19 06:46:01+00,47.0001000,9.4001000,1,,,,\n"
    );
}

use owntrack_rs::error::Error;
use owntrack_rs::geo::Degrees;
use owntrack_rs::ingest::{classify, normalize, normalize_checked, on_event, on_stored, Action, Decoded, Event, BACKOFF_MILLIS};
use owntrack_rs::json::{parse, render, Json};
use owntrack_rs::meshtastic::{decode_json, Message as MeshMessage};
use owntrack_rs::owntracks::{decode, Message};
use prost::encoding::{encode_key, encode_varint, WireType};

const LOCATION: &str = r#"{"_type":"location","tid":"al","tst":1739947614,"lat":47.0401765,"lon":9.4370853,"vel":12,"alt":491,"acc":15,"vac":3,"cog":270,"batt":83,"conn":"w","BSSID":"aa:bb"}"#;

const MESH_POSITION: &str = r#"{"channel":0,"from":3185021733,"hop_start":3,"hops_away":0,"id":3863449354,"payload":{"PDOP":324,"altitude":469,"ground_speed":1,"latitude_i":470450176,"longitude_i":94404608,"precision_bits":16,"sats_in_view":8,"time":1747080713},"rssi":-118,"sender":"!da657310","snr":-9.5,"timestamp":1747080712,"to":4294967295,"type":"position"}"#;

fn protobuf_envelope(want_response: bool) -> Vec<u8> {
    let mut position = Vec::new();
    encode_key(1, WireType::ThirtyTwoBit, &mut position);
    position.extend_from_slice(&470401765_i32.to_le_bytes());
    encode_key(2, WireType::ThirtyTwoBit, &mut position);
    position.extend_from_slice(&94370853_i32.to_le_bytes());
    encode_key(4, WireType::ThirtyTwoBit, &mut position);
    position.extend_from_slice(&1748123191_u32.to_le_bytes());
    let mut data = Vec::new();
    encode_key(1, WireType::Varint, &mut data);
    encode_varint(3, &mut data);
    encode_key(2, WireType::LengthDelimited, &mut data);
    encode_varint(position.len() as u64, &mut data);
    data.extend_from_slice(&position);
    if want_response {
        encode_key(3, WireType::Varint, &mut data);
        encode_varint(1, &mut data);
    }
    let mut packet = Vec::new();
    encode_key(1, WireType::ThirtyTwoBit, &mut packet);
    packet.extend_from_slice(&0x849ace3c_u32.to_le_bytes());
    encode_key(4, WireType::LengthDelimited, &mut packet);
    encode_varint(data.len() as u64, &mut packet);
    packet.extend_from_slice(&data);
    let mut env = Vec::new();
    encode_key(1, WireType::LengthDelimited, &mut env);
    encode_varint(packet.len() as u64, &mut env);
    env.extend_from_slice(&packet);
    encode_key(2, WireType::LengthDelimited, &mut env);
    encode_varint(8, &mut env);
    env.extend_from_slice(b"Tracking");
    env
}

#[test]
fn json_is_read_and_written_by_serde_json() {
    let doc = parse(br#"{"b":[1,2.5,"x",null,true],"a":{"c":-3}}"#).unwrap();
    assert_eq!(render(&doc), r#"{"a":{"c":-3},"b":[1,2.5,"x",null,true]}"#);
    match &doc {
        Json::Object(members) => {
            assert_eq!(members.len(), 2);
            assert_eq!(members[0].0, "a");
            match &members[1].1 {
                Json::Array(items) => {
                    assert!(matches!(&items[0], Json::Number(n) if n == "1"));
                    assert!(matches!(&items[1], Json::Number(n) if n == "2.5"));
                    assert!(matches!(&items[2], Json::Text(s) if s == "x"));
                    assert!(matches!(&items[3], Json::Null));
                    assert!(matches!(&items[4], Json::Bool(true)));
                }
                other => panic!("unexpected {:?}", other),
            }
        }
        other => panic!("unexpected {:?}", other),
    }
    assert!(parse(b"{").is_none());
    assert!(parse(b"").is_none());
    let built = Json::Object(vec![
        ("n".to_string(), Json::Number("47.0500000".to_string())),
        ("s".to_string(), Json::Text("a\"b".to_string())),
        ("bad".to_string(), Json::Number("x".to_string())),
        ("n".to_string(), Json::Number("-7".to_string())),
    ]);
    assert_eq!(render(&built), r#"{"bad":null,"n":-7,"s":"a\"b"}"#);
}

#[test]
fn owntracks_location_is_decoded() {
    match decode(LOCATION.as_bytes()).unwrap() {
        Message::Location(p) => {
            assert_eq!(p.tid, "al");
            assert_eq!(p.ts, 1739947614);
            assert_eq!(p.lat, Degrees { e7: 470401765 });
            assert_eq!(p.lon, Degrees { e7: 94370853 });
            assert_eq!(p.velocity, Some(12));
            assert_eq!(p.alt, Some(491));
            assert_eq!(p.accuracy, Some(15));
            assert_eq!(p.v_accuracy, Some(3));
            assert_eq!(p.cog, Some(270));
            assert_eq!(p.annotations, r#"{"BSSID":"aa:bb","batt":83,"conn":"w"}"#);
        }
        other => panic!("unexpected {:?}", other),
    }
}

#[test]
fn owntracks_location_with_few_members() {
    match decode(br#"{"_type":"location","tst":1,"lat":-47,"lon":9.5,"vel":null}"#).unwrap() {
        Message::Location(p) => {
            assert_eq!(p.tid, "");
            assert_eq!(p.lat, Degrees { e7: -470000000 });
            assert_eq!(p.lon, Degrees { e7: 95000000 });
            assert_eq!(p.velocity, None);
            assert_eq!(p.alt, None);
            assert_eq!(p.annotations, "{}");
        }
        other => panic!("unexpected {:?}", other),
    }
}

#[test]
fn owntracks_location_without_required_member_is_a_mismatch() {
    for payload in [
        r#"{"_type":"location","lat":47.0,"lon":9.0}"#,
        r#"{"_type":"location","tst":1,"lon":9.0}"#,
        r#"{"_type":"location","tst":1,"lat":47.0}"#,
        r#"{"_type":"location","tst":1.5,"lat":47.0,"lon":9.0}"#,
        r#"{"_type":"location","tst":1,"lat":"47.0","lon":9.0}"#,
        r#"{"_type":"location","tst":1,"lat":47.0,"lon":9.0,"vel":70000}"#,
        r#"{"_type":"location","tst":1,"lat":47.0,"lon":9.0,"alt":"high"}"#,
        r#"{"_type":"location","tst":1,"lat":47.0,"lon":9.0,"tid":5}"#,
        r#"{"tst":1,"lat":47.0,"lon":9.0}"#,
        r#"{"_type":7}"#,
        r#"[1,2]"#,
        "not json",
    ] {
        assert_eq!(decode(payload.as_bytes()).unwrap_err(), Error::SchemaMismatch, "{}", payload);
    }
}

#[test]
fn other_owntracks_kinds_are_recognised() {
    match decode(br#"{"_type":"transition","event":"enter"}"#).unwrap() {
        Message::Other(kind) => assert_eq!(kind, "transition"),
        other => panic!("unexpected {:?}", other),
    }
    assert_eq!(normalize_checked("owntracks/alice/phone1", br#"{"_type":"lwt","tst":1}"#).unwrap().map(|h| h.user), None);
}

#[test]
fn owntracks_location_is_normalised() {
    let (user, device, position) = normalize("owntracks/alice/phone1", LOCATION.as_bytes()).unwrap();
    assert_eq!(user, "alice");
    assert_eq!(device, "phone1");
    assert_eq!(position.lat, Degrees { e7: 470401765 });
    assert_eq!(position.lon, Degrees { e7: 94370853 });
    assert_eq!(position.ts, 1739947614);
    assert_eq!(position.lat.to_text().parse::<f32>().unwrap(), 47.0401765_f32);
}

#[test]
fn unresolved_topic_drops_the_location() {
    assert_eq!(normalize_checked("owntracks/alice", LOCATION.as_bytes()).unwrap_err(), Error::UnresolvedTopic);
    assert!(normalize("owntracks/alice", LOCATION.as_bytes()).is_none());
}

#[test]
fn coordinates_off_the_earth_drop_the_location() {
    let r = normalize_checked("owntracks/alice/phone1", br#"{"_type":"location","tst":1,"lat":95.0,"lon":9.0}"#);
    assert_eq!(r.unwrap_err(), Error::MalformedCoordinate);
    let r = normalize_checked("owntracks/alice/phone1", br#"{"_type":"location","tst":1,"lat":45.0,"lon":-180.5}"#);
    assert_eq!(r.unwrap_err(), Error::MalformedCoordinate);
    let r = normalize_checked("owntracks/alice/phone1", br#"{"_type":"location","tst":1,"lat":-90,"lon":180}"#);
    assert!(r.unwrap().is_some());
}

#[test]
fn unknown_payload_is_a_schema_mismatch() {
    assert_eq!(normalize_checked("owntracks/alice/phone1", b"hello").unwrap_err(), Error::SchemaMismatch);
    assert!(classify(b"hello").is_none());
    assert!(classify(br#"{"x":1}"#).is_none());
}

#[test]
fn decoders_are_tried_in_order() {
    assert!(matches!(classify(LOCATION.as_bytes()), Some(Decoded::OwnTracks(_))));
    assert!(matches!(classify(&protobuf_envelope(false)), Some(Decoded::Protobuf(_))));
    assert!(matches!(classify(MESH_POSITION.as_bytes()), Some(Decoded::Json(_))));
    assert!(matches!(classify(b""), Some(Decoded::Protobuf(_))));
}

#[test]
fn meshtastic_json_position_is_decoded() {
    match decode_json(MESH_POSITION.as_bytes()).unwrap() {
        MeshMessage::Position(p) => {
            assert_eq!(p.hops_away, 0);
            assert_eq!(p.payload.time, 1747080713);
            assert_eq!(p.payload.latitude_i, Some(470450176));
            assert_eq!(p.payload.longitude_i, Some(94404608));
            assert_eq!(p.payload.precision_bits, 16);
            assert_eq!(p.payload.altitude, Some(469));
            assert_eq!(p.payload.ground_speed, Some(1));
            assert_eq!(p.payload.annotations, r#"{"PDOP":324,"sats_in_view":8}"#);
        }
        other => panic!("unexpected {:?}", other),
    }
    assert!(matches!(decode_json(br#"{"type":"nodeinfo","payload":{}}"#).unwrap(), MeshMessage::Nodeinfo));
    assert!(matches!(decode_json(br#"{"type":"telemetry"}"#).unwrap(), MeshMessage::Telemetry));
    assert_eq!(decode_json(br#"{"type":"text"}"#).unwrap_err(), Error::SchemaMismatch);
    assert_eq!(decode_json(br#"{"type":"position","hops_away":0}"#).unwrap_err(), Error::SchemaMismatch);
    assert_eq!(decode_json(br#"{"type":"position","hops_away":0,"payload":{"time":1}}"#).unwrap_err(), Error::SchemaMismatch);
}

#[test]
fn meshtastic_json_position_is_normalised() {
    let topic = "owntracks/bob/msh/tracker1/2/json/LongFast/!da657310";
    let h = normalize_checked(topic, MESH_POSITION.as_bytes()).unwrap().unwrap();
    assert_eq!(h.user, "bob");
    assert_eq!(h.device, "tracker1");
    assert_eq!(h.position.tid, "ker1");
    assert_eq!(h.position.lat, Degrees { e7: 470450176 });
    assert_eq!(h.position.lon, Degrees { e7: 94404608 });
    assert_eq!(h.position.ts, 1747080713);
    assert_eq!(h.position.alt, Some(469));
    assert_eq!(h.position.velocity, Some(1));
    assert_eq!(h.position.annotations, r#"{"PDOP":324,"sats_in_view":8}"#);
    let short = normalize_checked("owntracks/bob/msh/LongFast/!da657310", MESH_POSITION.as_bytes()).unwrap().unwrap();
    assert_eq!(short.device, "!da657310");
    assert_eq!(short.position.tid, "7310");
    assert_eq!(normalize_checked("owntracks/bob/x", MESH_POSITION.as_bytes()).unwrap_err(), Error::UnresolvedTopic);
}

#[test]
fn relayed_or_incomplete_json_position_gives_nothing() {
    let topic = "owntracks/bob/msh/LongFast/!da657310";
    let relayed = MESH_POSITION.replace("\"hops_away\":0", "\"hops_away\":2");
    assert!(normalize_checked(topic, relayed.as_bytes()).unwrap().is_none());
    let no_lat = MESH_POSITION.replace("\"latitude_i\":470450176,", "");
    assert!(normalize_checked(topic, no_lat.as_bytes()).unwrap().is_none());
    let no_lon = MESH_POSITION.replace("\"longitude_i\":94404608,", "");
    assert!(normalize_checked(topic, no_lon.as_bytes()).unwrap().is_none());
    let short = MESH_POSITION.replace("470450176", "4704");
    assert_eq!(normalize_checked(topic, short.as_bytes()).unwrap_err(), Error::MalformedCoordinate);
    let nodeinfo = br#"{"type":"nodeinfo","payload":{"id":"!849ace3c"}}"#;
    assert!(normalize_checked(topic, nodeinfo).unwrap().is_none());
}

#[test]
fn protobuf_position_is_stored_once() {
    let h = normalize_checked("owntracks/bob", &protobuf_envelope(false)).unwrap().unwrap();
    assert_eq!(h.user, "Tracking");
    assert_eq!(h.device, "!849ace3c");
    assert_eq!(h.position.tid, "ce3c");
    assert_eq!(h.position.lat, Degrees { e7: 470401765 });
    let named = normalize_checked("owntracks/bob/msh/tracker1/2/e/Tracking/!849ace3c", &protobuf_envelope(false)).unwrap().unwrap();
    assert_eq!(named.user, "bob");
    assert_eq!(named.device, "tracker1");
    assert_eq!(named.position.tid, "ce3c");
    assert!(normalize_checked("owntracks/bob", &protobuf_envelope(true)).unwrap().is_none());
    assert!(normalize("owntracks/bob", &protobuf_envelope(true)).is_none());
}

#[test]
fn events_decide_the_next_action() {
    let publish = Event::Publish { topic: "owntracks/alice/phone1".to_string(), payload: LOCATION.as_bytes().to_vec() };
    match on_event(&publish) {
        Action::Store(h) => {
            assert_eq!(h.user, "alice");
            assert_eq!(h.position.ts, 1739947614);
        }
        other => panic!("unexpected {:?}", other),
    }
    let noise = Event::Publish { topic: "owntracks/alice/phone1".to_string(), payload: b"noise".to_vec() };
    assert!(matches!(on_event(&noise), Action::Continue));
    let lost = Event::Publish { topic: "x".to_string(), payload: LOCATION.as_bytes().to_vec() };
    assert!(matches!(on_event(&lost), Action::Report(Error::UnresolvedTopic)));
    assert!(matches!(on_event(&Event::Other), Action::Continue));
    assert!(matches!(
        on_event(&Event::Failure),
        Action::Backoff { reason: Error::TransportFailure, millis: 500 }
    ));
    assert_eq!(Error::TransportFailure.describe(), "transport failed");
    assert_eq!(Error::MalformedCoordinate.describe(), "malformed coordinate");
    assert_eq!(BACKOFF_MILLIS, 500);
    assert!(matches!(on_stored(true), Action::Continue));
    assert!(matches!(on_stored(false), Action::Report(Error::StorageFailure)));
    assert!(!Error::SchemaMismatch.is_logged());
    assert!(Error::MalformedCoordinate.is_logged());
}

#[test]
fn tiny_coordinates_are_read_from_scientific_notation() {
    let payload = br#"{"_type":"location","tst":1,"lat":0.000001234,"lon":-0.0000001}"#;
    match decode(payload).unwrap() {
        Message::Location(p) => {
            assert_eq!(p.lat, Degrees { e7: 12 });
            assert_eq!(p.lon, Degrees { e7: -1 });
        }
        other => panic!("unexpected {:?}", other),
    }
    let payload = br#"{"_type":"location","tst":1,"lat":4.70401765e1,"lon":12e-1}"#;
    match decode(payload).unwrap() {
        Message::Location(p) => {
            assert_eq!(p.lat, Degrees { e7: 470401765 });
            assert_eq!(p.lon, Degrees { e7: 12000000 });
        }
        other => panic!("unexpected {:?}", other),
    }
    let huge = br#"{"_type":"location","tst":1,"lat":1e300,"lon":9.0}"#;
    assert_eq!(decode(huge).unwrap_err(), Error::SchemaMismatch);
    let small = br#"{"_type":"location","tst":1,"lat":1e-300,"lon":9.0}"#;
    assert!(matches!(decode(small).unwrap(), Message::Location(p) if p.lat == Degrees { e7: 0 }));
}

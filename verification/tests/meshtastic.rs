use owntrack_rs::error::Error;
use owntrack_rs::geo::Degrees;
use owntrack_rs::meshtastic::protobufs::{
    decode_envelope, decode_position, PayloadVariant, PortNum, Position,
};
use owntrack_rs::meshtastic::wire::{read_field, read_fields, WireKind};
use owntrack_rs::meshtastic::{convert_mesh_position, decode_packet, node_id, short_id};
use prost::encoding::{encode_key, encode_varint, WireType};

fn varint(buf: &mut Vec<u8>, tag: u32, value: u64) {
    encode_key(tag, WireType::Varint, buf);
    encode_varint(value, buf);
}

fn fixed32(buf: &mut Vec<u8>, tag: u32, value: u32) {
    encode_key(tag, WireType::ThirtyTwoBit, buf);
    buf.extend_from_slice(&value.to_le_bytes());
}

fn bytes(buf: &mut Vec<u8>, tag: u32, value: &[u8]) {
    encode_key(tag, WireType::LengthDelimited, buf);
    encode_varint(value.len() as u64, buf);
    buf.extend_from_slice(value);
}

fn position_payload(lat: Option<i32>, lon: Option<i32>) -> Vec<u8> {
    let mut p = Vec::new();
    if let Some(lat) = lat {
        fixed32(&mut p, 1, lat as u32);
    }
    if let Some(lon) = lon {
        fixed32(&mut p, 2, lon as u32);
    }
    varint(&mut p, 3, 491);
    fixed32(&mut p, 4, 1748123191);
    varint(&mut p, 11, 149);
    varint(&mut p, 15, 7);
    varint(&mut p, 16, 18928000);
    varint(&mut p, 23, 32);
    p
}

fn envelope(portnum: u64, payload: &[u8], want_response: bool) -> Vec<u8> {
    let mut data = Vec::new();
    varint(&mut data, 1, portnum);
    bytes(&mut data, 2, payload);
    if want_response {
        varint(&mut data, 3, 1);
    }
    let mut packet = Vec::new();
    fixed32(&mut packet, 1, 0x849ace3c);
    fixed32(&mut packet, 2, 0xffffffff);
    varint(&mut packet, 3, 0);
    bytes(&mut packet, 4, &data);
    fixed32(&mut packet, 6, 786780598);
    fixed32(&mut packet, 7, 1748123191);
    varint(&mut packet, 9, 3);
    let mut env = Vec::new();
    bytes(&mut env, 1, &packet);
    bytes(&mut env, 2, b"Tracking");
    bytes(&mut env, 3, b"!12341234");
    env
}

#[test]
fn fields_are_read_as_prost_writes_them() {
    let mut buf = Vec::new();
    varint(&mut buf, 1, 300);
    fixed32(&mut buf, 2, 0x01020304);
    bytes(&mut buf, 3, b"abc");
    encode_key(4, WireType::SixtyFourBit, &mut buf);
    buf.extend_from_slice(&[1, 2, 3, 4, 5, 6, 7, 8]);
    varint(&mut buf, 536870911, u64::MAX);
    let fields = read_fields(&buf).unwrap();
    assert_eq!(fields.len(), 5);
    assert_eq!((fields[0].tag, fields[0].kind, fields[0].number), (1, WireKind::Varint, 300));
    assert_eq!(fields[0].bytes, Vec::<u8>::new());
    assert_eq!((fields[1].tag, fields[1].kind), (2, WireKind::ThirtyTwoBit));
    assert_eq!(fields[1].bytes, vec![4, 3, 2, 1]);
    assert_eq!((fields[2].tag, fields[2].kind), (3, WireKind::LengthDelimited));
    assert_eq!(fields[2].bytes, b"abc".to_vec());
    assert_eq!((fields[3].tag, fields[3].kind), (4, WireKind::SixtyFourBit));
    assert_eq!(fields[3].bytes, vec![1, 2, 3, 4, 5, 6, 7, 8]);
    assert_eq!((fields[4].tag, fields[4].number), (536870911, u64::MAX));
    let (first, len) = read_field(&buf).unwrap();
    assert_eq!((first.tag, len), (1, 3));
}

#[test]
fn groups_are_passed_over() {
    let mut buf = Vec::new();
    encode_key(5, WireType::StartGroup, &mut buf);
    varint(&mut buf, 1, 7);
    encode_key(5, WireType::EndGroup, &mut buf);
    varint(&mut buf, 2, 9);
    let fields = read_fields(&buf).unwrap();
    assert_eq!(fields.len(), 2);
    assert_eq!((fields[0].tag, fields[0].kind), (5, WireKind::StartGroup));
    assert_eq!((fields[1].tag, fields[1].number), (2, 9));
}

#[test]
fn malformed_fields_are_refused() {
    assert!(read_fields(&[]).unwrap().is_empty());
    assert!(read_fields(&[0x08]).is_none());
    assert!(read_fields(&[0x08, 0x80]).is_none());
    assert!(read_fields(&[0x00, 0x01]).is_none());
    assert!(read_fields(&[0x0f, 0x01]).is_none());
    assert!(read_fields(&[0x0d, 1, 2, 3]).is_none());
    assert!(read_fields(&[0x0a, 0x05, 1, 2]).is_none());
    assert!(read_fields(&[0x0c]).is_none());
    assert!(read_fields(&[0x08, 0xff, 0xff, 0xff, 0xff, 0xff, 0xff, 0xff, 0xff, 0xff, 0x02]).is_none());
    assert!(read_fields(&[0x08, 0xff, 0xff, 0xff, 0xff, 0xff, 0xff, 0xff, 0xff, 0xff, 0x01]).is_some());
}

#[test]
fn position_report_is_decoded() {
    let pos = decode_position(&position_payload(Some(470401765), Some(-94370853))).unwrap();
    assert_eq!(
        pos,
        Position {
            latitude_i: Some(470401765),
            longitude_i: Some(-94370853),
            altitude: Some(491),
            time: 1748123191,
            ground_speed: Some(7),
        }
    );
    let mut negative = Vec::new();
    varint(&mut negative, 3, (-12_i32) as i64 as u64);
    assert_eq!(decode_position(&negative).unwrap().altitude, Some(-12));
    let mut wrong = Vec::new();
    varint(&mut wrong, 1, 470401765);
    assert_eq!(decode_position(&wrong), None);
}

#[test]
fn envelope_is_decoded() {
    let payload = position_payload(Some(470401765), Some(94370853));
    let env = decode_envelope(&envelope(3, &payload, false)).unwrap();
    assert_eq!(env.channel_id, "Tracking");
    assert_eq!(env.gateway_id, "!12341234");
    let packet = env.packet.unwrap();
    assert_eq!(packet.from, 0x849ace3c);
    assert_eq!(packet.to, 0xffffffff);
    match packet.payload_variant {
        Some(PayloadVariant::Decoded(data)) => {
            assert_eq!(data.portnum, 3);
            assert_eq!(data.portnum(), PortNum::PositionApp);
            assert_eq!(data.payload, payload);
            assert!(!data.want_response);
        }
        other => panic!("unexpected payload {:?}", other),
    }
    assert!(decode_envelope(b"{\"_type\":\"location\"}").is_none());
    let mut bad = Vec::new();
    bytes(&mut bad, 2, &[0xff, 0xfe]);
    assert!(decode_envelope(&bad).is_none());
}

#[test]
fn node_names() {
    assert_eq!(node_id(0x849ace3c), "!849ace3c");
    assert_eq!(short_id(0x849ace3c), "ce3c");
    assert_eq!(node_id(0x1f), "!0000001f");
    assert_eq!(node_id(0xc227_1afa), format!("!{:08x}", 0xc227_1afa_u32));
}

#[test]
fn position_packet_is_handed_to_storage_once() {
    let payload = position_payload(Some(470401765), Some(94370853));
    let env = decode_envelope(&envelope(3, &payload, false)).unwrap();
    let handoff = decode_packet(&env).unwrap().unwrap();
    assert_eq!(handoff.user, "Tracking");
    assert_eq!(handoff.device, "!849ace3c");
    assert_eq!(handoff.position.tid, "ce3c");
    assert_eq!(handoff.position.ts, 1748123191);
    assert_eq!(handoff.position.lat, Degrees { e7: 470401765 });
    assert_eq!(handoff.position.lon, Degrees { e7: 94370853 });
    assert_eq!(handoff.position.alt, Some(491));
    assert_eq!(handoff.position.velocity, Some(7));
    assert_eq!(handoff.position.accuracy, None);
    assert_eq!(handoff.position.annotations, "{}");
}

#[test]
fn response_request_is_not_handed_to_storage() {
    let payload = position_payload(Some(470401765), Some(94370853));
    let env = decode_envelope(&envelope(3, &payload, true)).unwrap();
    assert!(decode_packet(&env).unwrap().is_none());
}

#[test]
fn report_without_a_coordinate_gives_no_position() {
    for payload in [
        position_payload(None, Some(94370853)),
        position_payload(Some(470401765), None),
        position_payload(None, None),
    ] {
        let env = decode_envelope(&envelope(3, &payload, false)).unwrap();
        assert!(decode_packet(&env).unwrap().is_none());
    }
}

#[test]
fn other_ports_give_no_position() {
    for port in [0, 1, 4, 67, 71] {
        let env = decode_envelope(&envelope(port, &[0xff], false)).unwrap();
        assert!(decode_packet(&env).unwrap().is_none());
    }
    let env = decode_envelope(&envelope(3, &[0xff], false)).unwrap();
    assert_eq!(decode_packet(&env).unwrap_err(), Error::SchemaMismatch);
    let mut encrypted = Vec::new();
    let mut packet = Vec::new();
    bytes(&mut packet, 5, &[1, 2, 3]);
    bytes(&mut encrypted, 1, &packet);
    let env = decode_envelope(&encrypted).unwrap();
    assert!(decode_packet(&env).unwrap().is_none());
    assert!(decode_packet(&decode_envelope(&[]).unwrap()).unwrap().is_none());
}

#[test]
fn malformed_coordinates_are_refused() {
    let short = Position { latitude_i: Some(999_999), longitude_i: Some(94370853), altitude: None, time: 1, ground_speed: None };
    assert_eq!(convert_mesh_position("t", short).unwrap_err(), Error::MalformedCoordinate);
    let far = Position { latitude_i: Some(910_000_000), longitude_i: Some(94370853), altitude: None, time: 1, ground_speed: None };
    assert_eq!(convert_mesh_position("t", far).unwrap_err(), Error::MalformedCoordinate);
    let wide = Position { latitude_i: Some(470401765), longitude_i: Some(94370853), altitude: Some(70_000), time: 1, ground_speed: Some(65_537) };
    let p = convert_mesh_position("t", wide).unwrap().unwrap();
    assert_eq!(p.alt, Some(70_000_i32 as i16));
    assert_eq!(p.velocity, Some(65_537_u32 as u16));
    let low = Position { latitude_i: Some(-470401765), longitude_i: Some(-94370853), altitude: Some(-40_000), time: 1, ground_speed: None };
    let p = convert_mesh_position("t", low).unwrap().unwrap();
    assert_eq!(p.alt, Some(-40_000_i32 as i16));
    assert_eq!(p.lat, Degrees { e7: -470401765 });
}

//! Meshtastic messages: the Protobuf transport and the JSON transport.
//!
//! A position report gives a position where it holds both coordinates. On
//! the Protobuf transport it also has to be no request for a response; the
//! position is then stored under the channel of the envelope as user and the
//! sending node as device. Node information and telemetry give no position.

pub mod protobufs;
pub mod wire;

use crate::error::Error;
use crate::geo::decode_fixed_point_degrees;
use crate::meshtastic::protobufs::{
    decode_position, port_of, position_of, DataView, EnvelopeView, PayloadVariant, PortNum,
    ServiceEnvelope, VariantView,
};
use crate::json::{
    find_member, get_integer, get_optional, json_document, json_text, lemma_view_of_parts,
    lookup, member_views, members_without, optional_integer, parse, render, required_integer,
    without_keys, Json, JsonView,
};
use crate::mqtt::{get_user_device_from_meshtastic_topic, meshtastic_identity};
use crate::position::{
    coordinates_in_range, in_range, outcome_view, Handoff, HandoffView, PositionView,
};
use crate::text::{chars_of, same_text, slice_chars, string_of, views};
use vstd::prelude::*;

verus! {

/// The character that writes the hexadecimal digit `d`, in lower case.
pub open spec fn hex_char(d: int) -> char {
    if d == 0 {
        '0'
    } else if d == 1 {
        '1'
    } else if d == 2 {
        '2'
    } else if d == 3 {
        '3'
    } else if d == 4 {
        '4'
    } else if d == 5 {
        '5'
    } else if d == 6 {
        '6'
    } else if d == 7 {
        '7'
    } else if d == 8 {
        '8'
    } else if d == 9 {
        '9'
    } else if d == 10 {
        'a'
    } else if d == 11 {
        'b'
    } else if d == 12 {
        'c'
    } else if d == 13 {
        'd'
    } else if d == 14 {
        'e'
    } else {
        'f'
    }
}

/// The name of a node: an exclamation mark and the eight hexadecimal digits
/// of its address.
pub open spec fn node_text(from: u32) -> Seq<char> {
    seq![
        '!',
        hex_char(from as int / 0x1000_0000 % 16),
        hex_char(from as int / 0x100_0000 % 16),
        hex_char(from as int / 0x10_0000 % 16),
        hex_char(from as int / 0x1_0000 % 16),
        hex_char(from as int / 0x1000 % 16),
        hex_char(from as int / 0x100 % 16),
        hex_char(from as int / 0x10 % 16),
        hex_char(from as int % 16),
    ]
}

/// The tracker ID of a node: the last four hexadecimal digits of its
/// address.
pub open spec fn short_text(from: u32) -> Seq<char> {
    node_text(from).subrange(5, 9)
}

/// The character that writes the hexadecimal digit `d`.
pub fn hex_digit(d: u32) -> (c: char)
    requires
        d < 16,
    ensures
        c == hex_char(d as int),
{
    if d == 0 {
        '0'
    } else if d == 1 {
        '1'
    } else if d == 2 {
        '2'
    } else if d == 3 {
        '3'
    } else if d == 4 {
        '4'
    } else if d == 5 {
        '5'
    } else if d == 6 {
        '6'
    } else if d == 7 {
        '7'
    } else if d == 8 {
        '8'
    } else if d == 9 {
        '9'
    } else if d == 10 {
        'a'
    } else if d == 11 {
        'b'
    } else if d == 12 {
        'c'
    } else if d == 13 {
        'd'
    } else if d == 14 {
        'e'
    } else {
        'f'
    }
}

/// The characters of the name of the node with address `from`.
pub fn node_chars(from: u32) -> (r: Vec<char>)
    ensures
        r@ == node_text(from),
{
    let mut r: Vec<char> = Vec::new();
    r.push('!');
    r.push(hex_digit(from / 0x1000_0000 % 16));
    r.push(hex_digit(from / 0x100_0000 % 16));
    r.push(hex_digit(from / 0x10_0000 % 16));
    r.push(hex_digit(from / 0x1_0000 % 16));
    r.push(hex_digit(from / 0x1000 % 16));
    r.push(hex_digit(from / 0x100 % 16));
    r.push(hex_digit(from / 0x10 % 16));
    r.push(hex_digit(from % 16));
    proof {
        assert(r@ =~= node_text(from));
    }
    r
}

/// The name of the node with address `from`: `!849ace3c` for `0x849ace3c`.
pub fn node_id(from: u32) -> (r: String)
    ensures
        r@ == node_text(from),
{
    string_of(&node_chars(from))
}

/// The tracker ID of the node with address `from`: `ce3c` for `0x849ace3c`.
pub fn short_id(from: u32) -> (r: String)
    ensures
        r@ == short_text(from),
{
    let chars = node_chars(from);
    string_of(&slice_chars(&chars, 5, 9))
}

/// The lowest 16 bits of a number.
pub open spec fn wrap_u16(v: int) -> int {
    v % 65536
}

/// The lowest 16 bits of a number, read as a signed number.
pub open spec fn wrap_i16(v: int) -> int {
    if v % 65536 >= 32768 {
        v % 65536 - 65536
    } else {
        v % 65536
    }
}

/// The lowest 16 bits of a number.
pub fn to_u16(v: u32) -> (r: u16)
    ensures
        r == wrap_u16(v as int),
{
    (v % 65536) as u16
}

/// The lowest 16 bits of a number, read as a signed number.
pub fn to_i16(v: i32) -> (r: i16)
    ensures
        r == wrap_i16(v as int),
{
    let shifted: u64 = (v as i64 + 0x8000_0000) as u64;
    let low: u64 = shifted % 65536;
    proof {
        assert((v as int + 0x8000_0000) % 65536 == v as int % 65536) by {
            vstd::arithmetic::div_mod::lemma_mod_multiples_vanish(32768, v as int, 65536);
        }
    }
    if low >= 32768 {
        (low as i64 - 65536) as i16
    } else {
        low as i16
    }
}

/// The position that a report gives under the tracker ID `tid`.
///
/// A report without latitude or without longitude gives none. The
/// coordinates are decoded from fixed point and have to be those of a place
/// on Earth. Ground speed and altitude keep their lowest 16 bits.
pub open spec fn converted(tid: Seq<char>, pos: protobufs::Position) -> Result<
    Option<PositionView>,
    Error,
> {
    match (pos.latitude_i, pos.longitude_i) {
        (Some(lat), Some(lon)) => if (lat <= -1_000_000 || lat >= 1_000_000) && (lon <= -1_000_000
            || lon >= 1_000_000) && in_range(lat as int, lon as int) {
            Ok(
                Some(
                    PositionView {
                        tid,
                        ts: pos.time as int,
                        velocity: match pos.ground_speed {
                            Some(v) => Some(wrap_u16(v as int)),
                            None => None,
                        },
                        lat: lat as int,
                        lon: lon as int,
                        alt: match pos.altitude {
                            Some(v) => Some(wrap_i16(v as int)),
                            None => None,
                        },
                        accuracy: None,
                        v_accuracy: None,
                        cog: None,
                        annotations: "{}"@,
                    },
                ),
            )
        } else {
            Err(Error::MalformedCoordinate)
        },
        _ => Ok(None),
    }
}

/// The view of an optional position or an error.
pub open spec fn conversion_view(r: Result<Option<crate::position::Position>, Error>) -> Result<
    Option<PositionView>,
    Error,
> {
    match r {
        Ok(Some(p)) => Ok(Some(p@)),
        Ok(None) => Ok(None),
        Err(e) => Err(e),
    }
}

/// Converts a position report into a position with the tracker ID `tid`.
///
/// Gives `Ok(None)` for a report that lacks a coordinate and
/// `MalformedCoordinate` for one whose coordinates cannot be decoded or are
/// no place on Earth.
pub fn convert_mesh_position(tid: &str, pos: protobufs::Position) -> (r: Result<
    Option<crate::position::Position>,
    Error,
>)
    ensures
        conversion_view(r) == converted(tid@, pos),
        r matches Ok(Some(p)) ==> p.wf(),
{
    let (lat_i, lon_i) = match (pos.latitude_i, pos.longitude_i) {
        (Some(lat), Some(lon)) => (lat, lon),
        _ => {
            return Ok(None);
        },
    };
    let lat = match decode_fixed_point_degrees(lat_i as i64) {
        Ok(d) => d,
        Err(e) => {
            return Err(e);
        },
    };
    let lon = match decode_fixed_point_degrees(lon_i as i64) {
        Ok(d) => d,
        Err(e) => {
            return Err(e);
        },
    };
    if !coordinates_in_range(lat, lon) {
        return Err(Error::MalformedCoordinate);
    }
    let annotations = "{}".to_owned();
    Ok(
        Some(
            crate::position::Position {
                tid: tid.to_owned(),
                ts: pos.time as i64,
                velocity: match pos.ground_speed {
                    Some(v) => Some(to_u16(v)),
                    None => None,
                },
                lat,
                lon,
                alt: match pos.altitude {
                    Some(v) => Some(to_i16(v)),
                    None => None,
                },
                accuracy: None,
                v_accuracy: None,
                cog: None,
                annotations,
            },
        ),
    )
}

/// What an envelope hands to storage.
///
/// Nothing where the envelope holds no packet, where the packet is
/// encrypted, where it is addressed to another application than the position
/// reports, where it asks for a response, and where the report lacks a
/// coordinate. `SchemaMismatch` where the payload of a position report does
/// not decode.
pub open spec fn packet_handoff(e: EnvelopeView) -> Result<Option<HandoffView>, Error> {
    match e.packet {
        Some(packet) => match packet.payload_variant {
            Some(VariantView::Decoded(data)) => if port_of(data.portnum) == PortNum::PositionApp {
                match position_of(data.payload) {
                    Some(pos) => if data.want_response {
                        Ok(None)
                    } else {
                        match converted(short_text(packet.from), pos) {
                            Ok(Some(position)) => Ok(
                                Some(
                                    HandoffView {
                                        user: e.channel_id,
                                        device: node_text(packet.from),
                                        position,
                                    },
                                ),
                            ),
                            Ok(None) => Ok(None),
                            Err(err) => Err(err),
                        }
                    },
                    None => Err(Error::SchemaMismatch),
                }
            } else {
                Ok(None)
            },
            _ => Ok(None),
        },
        None => Ok(None),
    }
}

/// Decides what the packet of an envelope hands to storage.
pub fn decode_packet(envelope: &ServiceEnvelope) -> (r: Result<Option<Handoff>, Error>)
    ensures
        outcome_view(r) == packet_handoff(envelope@),
        r matches Ok(Some(h)) ==> h.position.wf(),
{
    let packet = match &envelope.packet {
        Some(p) => p,
        None => {
            return Ok(None);
        },
    };
    let data = match &packet.payload_variant {
        Some(PayloadVariant::Decoded(d)) => d,
        _ => {
            return Ok(None);
        },
    };
    match data.portnum() {
        PortNum::PositionApp => {
            let pos = match decode_position(data.payload.as_slice()) {
                Some(p) => p,
                None => {
                    return Err(Error::SchemaMismatch);
                },
            };
            if data.want_response {
                return Ok(None);
            }
            let tid = short_id(packet.from);
            match convert_mesh_position(tid.as_str(), pos) {
                Ok(Some(position)) => Ok(
                    Some(
                        Handoff {
                            user: envelope.channel_id.clone(),
                            device: node_id(packet.from),
                            position,
                        },
                    ),
                ),
                Ok(None) => Ok(None),
                Err(e) => Err(e),
            }
        },
        _ => Ok(None),
    }
}

/// A report that lacks its latitude or its longitude gives no position and
/// no error.
pub proof fn lemma_missing_coordinate_gives_nothing(tid: Seq<char>, pos: protobufs::Position)
    requires
        pos.latitude_i is None || pos.longitude_i is None,
    ensures
        converted(tid, pos) == Ok::<Option<PositionView>, Error>(None),
{
}

/// A packet that asks for a response hands nothing to storage.
pub proof fn lemma_response_request_gives_nothing(e: EnvelopeView)
    requires
        e.packet matches Some(p) && p.payload_variant matches Some(VariantView::Decoded(d))
            && d.want_response,
    ensures
        !(packet_handoff(e) matches Ok(Some(_))),
{
}

/// A position report that asks for no response and holds two coordinates of
/// a place on Earth, each of at least seven digits, hands exactly one
/// position to storage, with the same coordinates and time.
pub proof fn lemma_position_report_gives_one(e: EnvelopeView, data: DataView, pos: protobufs::Position)
    requires
        e.packet matches Some(p) && p.payload_variant == Some(VariantView::Decoded(data)),
        port_of(data.portnum) == PortNum::PositionApp,
        !data.want_response,
        position_of(data.payload) == Some(pos),
        pos.latitude_i matches Some(lat) && (lat <= -1_000_000 || lat >= 1_000_000),
        pos.longitude_i matches Some(lon) && (lon <= -1_000_000 || lon >= 1_000_000),
        in_range(pos.latitude_i.unwrap() as int, pos.longitude_i.unwrap() as int),
    ensures
        packet_handoff(e) matches Ok(Some(h)) && h.position.lat == pos.latitude_i.unwrap()
            && h.position.lon == pos.longitude_i.unwrap() && h.position.ts == pos.time
            && h.user == e.channel_id && h.device == node_text(e.packet.unwrap().from),
{
}

/// A message of the JSON transport.
#[derive(Debug)]
pub enum Message {
    Nodeinfo,
    Position(Position),
    Telemetry,
}

/// A position report of the JSON transport.
#[derive(Debug)]
pub struct Position {
    /// The number of relays that the report went through.
    pub hops_away: u8,
    pub payload: PositionPayload,
}

/// The payload of a position report of the JSON transport.
#[derive(Debug)]
pub struct PositionPayload {
    /// Seconds since the epoch.
    pub time: i64,
    /// Latitude in units of 1e-7 degree.
    pub latitude_i: Option<i64>,
    /// Longitude in units of 1e-7 degree.
    pub longitude_i: Option<i64>,
    pub precision_bits: u8,
    /// Altitude in meters above sea level.
    pub altitude: Option<i16>,
    pub ground_speed: Option<u16>,
    /// The other members of the payload, as the text of a JSON object.
    pub annotations: String,
}

/// What a payload holds, as mathematical values.
pub struct PayloadView {
    pub time: int,
    pub latitude_i: Option<int>,
    pub longitude_i: Option<int>,
    pub precision_bits: int,
    pub altitude: Option<int>,
    pub ground_speed: Option<int>,
    pub annotations: Seq<char>,
}

/// What a message of the JSON transport holds, as mathematical values.
pub enum JsonMessageView {
    Nodeinfo,
    Position { hops_away: int, payload: PayloadView },
    Telemetry,
}

/// An optional 64-bit number as an optional integer.
pub open spec fn opt_i64(v: Option<i64>) -> Option<int> {
    match v {
        Some(x) => Some(x as int),
        None => None,
    }
}

impl View for PositionPayload {
    type V = PayloadView;

    open spec fn view(&self) -> PayloadView {
        PayloadView {
            time: self.time as int,
            latitude_i: opt_i64(self.latitude_i),
            longitude_i: opt_i64(self.longitude_i),
            precision_bits: self.precision_bits as int,
            altitude: crate::db::opt_i16(self.altitude),
            ground_speed: crate::position::opt_u16(self.ground_speed),
            annotations: self.annotations@,
        }
    }
}

impl View for Message {
    type V = JsonMessageView;

    open spec fn view(&self) -> JsonMessageView {
        match self {
            Message::Nodeinfo => JsonMessageView::Nodeinfo,
            Message::Position(p) => JsonMessageView::Position {
                hops_away: p.hops_away as int,
                payload: p.payload@,
            },
            Message::Telemetry => JsonMessageView::Telemetry,
        }
    }
}

/// The view of an optional message.
pub open spec fn optional_message(m: Option<Message>) -> Option<JsonMessageView> {
    match m {
        Some(x) => Some(x@),
        None => None,
    }
}

/// The view of an optional payload.
pub open spec fn optional_payload(p: Option<PositionPayload>) -> Option<PayloadView> {
    match p {
        Some(x) => Some(x@),
        None => None,
    }
}

/// The keys of the members of a payload that are no annotations.
pub open spec fn payload_keys() -> Seq<Seq<char>> {
    seq!["time"@, "latitude_i"@, "longitude_i"@, "precision_bits"@, "altitude"@, "ground_speed"@]
}

/// An integer member that has to be present and to lie between `lo` and
/// `hi`.
pub open spec fn bounded_integer(
    members: Seq<(Seq<char>, JsonView)>,
    key: Seq<char>,
    lo: int,
    hi: int,
) -> Option<int> {
    match required_integer(members, key) {
        Some(v) => if lo <= v <= hi {
            Some(v as int)
        } else {
            None
        },
        None => None,
    }
}

/// The payload that the members write. `time` and `precision_bits` have to
/// be present; the coordinates, altitude and ground speed may be absent.
pub open spec fn payload_of(members: Seq<(Seq<char>, JsonView)>) -> Option<PayloadView> {
    match (
        required_integer(members, "time"@),
        optional_integer(members, "latitude_i"@, i64::MIN as int, i64::MAX as int),
        optional_integer(members, "longitude_i"@, i64::MIN as int, i64::MAX as int),
        bounded_integer(members, "precision_bits"@, 0, 255),
        optional_integer(members, "altitude"@, -32768, 32767),
        optional_integer(members, "ground_speed"@, 0, 65535),
    ) {
        (
            Some(time),
            Some(latitude_i),
            Some(longitude_i),
            Some(precision_bits),
            Some(altitude),
            Some(ground_speed),
        ) => Some(
            PayloadView {
                time: time as int,
                latitude_i,
                longitude_i,
                precision_bits,
                altitude,
                ground_speed,
                annotations: json_text(JsonView::Object(members_without(members, payload_keys()))),
            },
        ),
        _ => None,
    }
}

/// The message that a JSON document writes: an object whose member `type`
/// is `nodeinfo`, `telemetry` or `position`; a position holds `hops_away`
/// and the object `payload`.
pub open spec fn json_message_of(doc: JsonView) -> Option<JsonMessageView> {
    match doc {
        JsonView::Object(members) => match lookup(members, "type"@) {
            Some(JsonView::Text(kind)) => if kind == "nodeinfo"@ {
                Some(JsonMessageView::Nodeinfo)
            } else if kind == "telemetry"@ {
                Some(JsonMessageView::Telemetry)
            } else if kind == "position"@ {
                match (bounded_integer(members, "hops_away"@, 0, 255), lookup(members, "payload"@)) {
                    (Some(hops_away), Some(JsonView::Object(inner))) => match payload_of(inner) {
                        Some(payload) => Some(JsonMessageView::Position { hops_away, payload }),
                        None => None,
                    },
                    _ => None,
                }
            } else {
                None
            },
            _ => None,
        },
        _ => None,
    }
}

/// The message that a payload writes, or `None` where it writes none.
pub open spec fn json_decoded(payload: Seq<u8>) -> Option<JsonMessageView> {
    match json_document(payload) {
        Some(doc) => json_message_of(doc),
        None => None,
    }
}

/// An integer member that has to be present and to lie between `lo` and
/// `hi`.
pub fn get_bounded(members: &Vec<(String, Json)>, key: &str, lo: i64, hi: i64) -> (r: Option<i64>)
    ensures
        match r {
            Some(v) => bounded_integer(member_views(members@), key@, lo as int, hi as int) == Some(
                v as int,
            ) && lo <= v <= hi,
            None => bounded_integer(member_views(members@), key@, lo as int, hi as int) is None,
        },
{
    match get_integer(members, key) {
        Some(v) => if lo <= v && v <= hi {
            Some(v)
        } else {
            None
        },
        None => None,
    }
}

/// The keys of the members of a payload that are no annotations.
pub fn payload_key_list() -> (r: Vec<Vec<char>>)
    ensures
        views(r@) == payload_keys(),
{
    let mut r: Vec<Vec<char>> = Vec::new();
    r.push(chars_of("time"));
    r.push(chars_of("latitude_i"));
    r.push(chars_of("longitude_i"));
    r.push(chars_of("precision_bits"));
    r.push(chars_of("altitude"));
    r.push(chars_of("ground_speed"));
    proof {
        assert(views(r@) =~= payload_keys());
    }
    r
}

/// The payload that the members write.
pub fn payload_from_members(members: Vec<(String, Json)>) -> (r: Option<PositionPayload>)
    ensures
        optional_payload(r) == payload_of(member_views(members@)),
{
    let time = get_integer(&members, "time")?;
    let latitude_i = get_optional(&members, "latitude_i", i64::MIN, i64::MAX)?;
    let longitude_i = get_optional(&members, "longitude_i", i64::MIN, i64::MAX)?;
    let precision_bits = get_bounded(&members, "precision_bits", 0, 255)?;
    let altitude = get_optional(&members, "altitude", -32768, 32767)?;
    let ground_speed = get_optional(&members, "ground_speed", 0, 65535)?;
    let keys = payload_key_list();
    let rest = Json::Object(without_keys(members, &keys));
    proof {
        lemma_view_of_parts(rest);
    }
    let annotations = render(&rest);
    Some(
        PositionPayload {
            time,
            latitude_i,
            longitude_i,
            precision_bits: precision_bits as u8,
            altitude: match altitude {
                Some(v) => Some(v as i16),
                None => None,
            },
            ground_speed: match ground_speed {
                Some(v) => Some(v as u16),
                None => None,
            },
            annotations,
        },
    )
}

/// The message that a JSON document writes, or `None` where it has not the
/// form of one.
pub fn message_from_json(doc: Json) -> (r: Option<Message>)
    ensures
        optional_message(r) == json_message_of(doc@),
{
    proof {
        lemma_view_of_parts(doc);
    }
    let mut members = match doc {
        Json::Object(members) => members,
        _ => {
            return None;
        },
    };
    let ghost all = member_views(members@);
    let kind = match find_member(&members, "type") {
        Some(k) => match &members[k].1 {
            Json::Text(s) => s.clone(),
            _ => {
                return None;
            },
        },
        None => {
            return None;
        },
    };
    if same_text(kind.as_str(), "nodeinfo") {
        Some(Message::Nodeinfo)
    } else if same_text(kind.as_str(), "telemetry") {
        Some(Message::Telemetry)
    } else if same_text(kind.as_str(), "position") {
        let hops_away = get_bounded(&members, "hops_away", 0, 255)?;
        let k = find_member(&members, "payload")?;
        let (_, inner) = members.remove(k);
        proof {
            lemma_view_of_parts(inner);
        }
        let inner_members = match inner {
            Json::Object(m) => m,
            _ => {
                return None;
            },
        };
        let payload = payload_from_members(inner_members)?;
        Some(Message::Position(Position { hops_away: hops_away as u8, payload }))
    } else {
        None
    }
}

/// Decodes a message of the JSON transport.
///
/// Fails with `SchemaMismatch` where the payload is no JSON or has not the
/// form of a message.
pub fn decode_json(payload: &[u8]) -> (r: Result<Message, Error>)
    ensures
        match r {
            Ok(m) => json_decoded(payload@) == Some(m@),
            Err(e) => e == Error::SchemaMismatch && json_decoded(payload@) is None,
        },
{
    let doc = match parse(payload) {
        Some(doc) => doc,
        None => {
            return Err(Error::SchemaMismatch);
        },
    };
    match message_from_json(doc) {
        Some(m) => Ok(m),
        None => Err(Error::SchemaMismatch),
    }
}

/// The tracker ID for a device: the last four characters of its name, or
/// the whole name where it is shorter.
pub open spec fn short_device(device: Seq<char>) -> Seq<char> {
    if device.len() > 4 {
        device.subrange(device.len() - 4, device.len() as int)
    } else {
        device
    }
}

/// What a message of the JSON transport, received under `topic`, hands to
/// storage.
///
/// Nothing for node information and telemetry, for a report that went
/// through a relay, and for one that lacks a coordinate.
/// `MalformedCoordinate` for coordinates that cannot be decoded or are no
/// place on Earth, `UnresolvedTopic` for a topic that is no Meshtastic topic.
pub open spec fn json_handoff(topic: Seq<char>, m: JsonMessageView) -> Result<
    Option<HandoffView>,
    Error,
> {
    match m {
        JsonMessageView::Position { hops_away, payload } => match (
            payload.latitude_i,
            payload.longitude_i,
        ) {
            (Some(lat), Some(lon)) => if hops_away != 0 {
                Ok(None)
            } else if !((lat <= -1_000_000 || lat >= 1_000_000) && (lon <= -1_000_000 || lon
                >= 1_000_000) && in_range(lat, lon)) {
                Err(Error::MalformedCoordinate)
            } else {
                match meshtastic_identity(topic) {
                    Some((user, device)) => Ok(
                        Some(
                            HandoffView {
                                user,
                                device,
                                position: PositionView {
                                    tid: short_device(device),
                                    ts: payload.time,
                                    velocity: payload.ground_speed,
                                    lat,
                                    lon,
                                    alt: payload.altitude,
                                    accuracy: None,
                                    v_accuracy: None,
                                    cog: None,
                                    annotations: payload.annotations,
                                },
                            },
                        ),
                    ),
                    None => Err(Error::UnresolvedTopic),
                }
            },
            _ => Ok(None),
        },
        _ => Ok(None),
    }
}

/// Decides what a message of the JSON transport hands to storage.
pub fn normalize_json(topic: &str, message: Message) -> (r: Result<Option<Handoff>, Error>)
    ensures
        outcome_view(r) == json_handoff(topic@, message@),
        r matches Ok(Some(h)) ==> h.position.wf(),
{
    let report = match message {
        Message::Position(p) => p,
        _ => {
            return Ok(None);
        },
    };
    let (lat_i, lon_i) = match (report.payload.latitude_i, report.payload.longitude_i) {
        (Some(lat), Some(lon)) => (lat, lon),
        _ => {
            return Ok(None);
        },
    };
    if report.hops_away != 0 {
        return Ok(None);
    }
    let lat = match decode_fixed_point_degrees(lat_i) {
        Ok(d) => d,
        Err(e) => {
            return Err(e);
        },
    };
    let lon = match decode_fixed_point_degrees(lon_i) {
        Ok(d) => d,
        Err(e) => {
            return Err(e);
        },
    };
    if !coordinates_in_range(lat, lon) {
        return Err(Error::MalformedCoordinate);
    }
    let (user, device) = match get_user_device_from_meshtastic_topic(topic) {
        Some(pair) => pair,
        None => {
            return Err(Error::UnresolvedTopic);
        },
    };
    let name = chars_of(device.as_str());
    let tid = if name.len() > 4 {
        string_of(&slice_chars(&name, name.len() - 4, name.len()))
    } else {
        string_of(&name)
    };
    Ok(
        Some(
            Handoff {
                user,
                device,
                position: crate::position::Position {
                    tid,
                    ts: report.payload.time,
                    velocity: report.payload.ground_speed,
                    lat,
                    lon,
                    alt: report.payload.altitude,
                    accuracy: None,
                    v_accuracy: None,
                    cog: None,
                    annotations: report.payload.annotations,
                },
            },
        ),
    )
}

/// A report of the JSON transport that lacks its latitude or its longitude
/// gives no position and no error, whatever its topic.
pub proof fn lemma_json_missing_coordinate_gives_nothing(
    topic: Seq<char>,
    hops_away: int,
    payload: PayloadView,
)
    requires
        payload.latitude_i is None || payload.longitude_i is None,
    ensures
        json_handoff(topic, JsonMessageView::Position { hops_away, payload }) == Ok::<
            Option<HandoffView>,
            Error,
        >(None),
{
}

/// A report of the JSON transport that went through a relay gives no
/// position.
pub proof fn lemma_relayed_report_gives_nothing(
    topic: Seq<char>,
    hops_away: int,
    payload: PayloadView,
)
    requires
        hops_away != 0,
    ensures
        json_handoff(topic, JsonMessageView::Position { hops_away, payload }) == Ok::<
            Option<HandoffView>,
            Error,
        >(None),
{
}

/// A position report of the Protobuf transport that lacks a coordinate
/// hands nothing to storage and gives no error.
pub proof fn lemma_packet_without_coordinate_gives_nothing(
    e: EnvelopeView,
    data: DataView,
    pos: protobufs::Position,
)
    requires
        e.packet matches Some(p) && p.payload_variant == Some(VariantView::Decoded(data)),
        port_of(data.portnum) == PortNum::PositionApp,
        position_of(data.payload) == Some(pos),
        pos.latitude_i is None || pos.longitude_i is None,
    ensures
        packet_handoff(e) == Ok::<Option<HandoffView>, Error>(None),
{
}

} // verus!

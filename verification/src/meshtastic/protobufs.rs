//! The Meshtastic messages of the Protobuf transport, and their decoding.
//!
//! Only the fields that the ingestion reads are decoded; a field with any
//! other tag is passed over, whatever its wire type. A field with a known
//! tag and another wire type than its own makes the message malformed. Where
//! a field occurs more than once, the last occurrence counts; an embedded
//! message that occurs more than once is merged field by field.

use crate::meshtastic::wire::{field_views, fields_of, read_fields, Field, FieldView, WireKind};
use crate::text::string_from_utf8;
use vstd::prelude::*;
use vstd::slice::slice_to_vec;
use vstd::utf8::{decode_utf8, valid_utf8};

verus! {

/// The port number of position reports.
pub const POSITION_APP: i32 = 3;

/// The port number of node information.
pub const NODEINFO_APP: i32 = 4;

/// The port number of telemetry.
pub const TELEMETRY_APP: i32 = 67;

/// The application that a packet is addressed to.
#[derive(Clone, Copy, PartialEq, Eq, Structural, Debug)]
pub enum PortNum {
    PositionApp,
    NodeinfoApp,
    TelemetryApp,
    /// Any other port; nothing is done with its packets.
    Other,
}

/// The application with the given port number.
pub open spec fn port_of(portnum: i32) -> PortNum {
    if portnum == 3 {
        PortNum::PositionApp
    } else if portnum == 4 {
        PortNum::NodeinfoApp
    } else if portnum == 67 {
        PortNum::TelemetryApp
    } else {
        PortNum::Other
    }
}

/// A position report.
#[derive(Clone, Copy, PartialEq, Eq, Structural, Debug)]
pub struct Position {
    /// Latitude in units of 1e-7 degree.
    pub latitude_i: Option<i32>,
    /// Longitude in units of 1e-7 degree.
    pub longitude_i: Option<i32>,
    /// Altitude in meters above sea level.
    pub altitude: Option<i32>,
    /// Seconds since the epoch.
    pub time: u32,
    /// Ground speed.
    pub ground_speed: Option<u32>,
}

/// The payload of a packet that is not encrypted.
#[derive(Debug)]
pub struct Data {
    pub portnum: i32,
    pub payload: Vec<u8>,
    pub want_response: bool,
}

/// What a packet carries.
#[derive(Debug)]
pub enum PayloadVariant {
    Decoded(Data),
    Encrypted(Vec<u8>),
}

/// A packet of the mesh.
#[derive(Debug)]
pub struct MeshPacket {
    /// The address of the sending node.
    pub from: u32,
    /// The address of the receiving node.
    pub to: u32,
    pub payload_variant: Option<PayloadVariant>,
}

/// The envelope in which a gateway publishes a packet.
#[derive(Debug)]
pub struct ServiceEnvelope {
    pub packet: Option<MeshPacket>,
    pub channel_id: String,
    pub gateway_id: String,
}

/// What a payload holds, as mathematical values.
pub struct DataView {
    pub portnum: i32,
    pub payload: Seq<u8>,
    pub want_response: bool,
}

/// What a packet carries, as mathematical values.
pub enum VariantView {
    Decoded(DataView),
    Encrypted(Seq<u8>),
}

/// What a packet holds, as mathematical values.
pub struct PacketView {
    pub from: u32,
    pub to: u32,
    pub payload_variant: Option<VariantView>,
}

/// What an envelope holds, as mathematical values.
pub struct EnvelopeView {
    pub packet: Option<PacketView>,
    pub channel_id: Seq<char>,
    pub gateway_id: Seq<char>,
}

impl View for Data {
    type V = DataView;

    open spec fn view(&self) -> DataView {
        DataView {
            portnum: self.portnum,
            payload: self.payload@,
            want_response: self.want_response,
        }
    }
}

impl View for PayloadVariant {
    type V = VariantView;

    open spec fn view(&self) -> VariantView {
        match self {
            PayloadVariant::Decoded(d) => VariantView::Decoded(d@),
            PayloadVariant::Encrypted(b) => VariantView::Encrypted(b@),
        }
    }
}

/// The view of an optional payload variant.
pub open spec fn variant_view(v: Option<PayloadVariant>) -> Option<VariantView> {
    match v {
        Some(x) => Some(x@),
        None => None,
    }
}

impl View for MeshPacket {
    type V = PacketView;

    open spec fn view(&self) -> PacketView {
        PacketView {
            from: self.from,
            to: self.to,
            payload_variant: variant_view(self.payload_variant),
        }
    }
}

/// The view of an optional packet.
pub open spec fn packet_view(p: Option<MeshPacket>) -> Option<PacketView> {
    match p {
        Some(x) => Some(x@),
        None => None,
    }
}

impl View for ServiceEnvelope {
    type V = EnvelopeView;

    open spec fn view(&self) -> EnvelopeView {
        EnvelopeView {
            packet: packet_view(self.packet),
            channel_id: self.channel_id@,
            gateway_id: self.gateway_id@,
        }
    }
}

impl Data {
    /// The application that the payload is addressed to.
    pub fn portnum(&self) -> (r: PortNum)
        ensures
            r == port_of(self.portnum),
    {
        if self.portnum == POSITION_APP {
            PortNum::PositionApp
        } else if self.portnum == NODEINFO_APP {
            PortNum::NodeinfoApp
        } else if self.portnum == TELEMETRY_APP {
            PortNum::TelemetryApp
        } else {
            PortNum::Other
        }
    }
}

/// The number that four bytes write, least significant byte first.
pub open spec fn le32(b: Seq<u8>) -> int {
    b[0] + 256 * b[1] + 65536 * b[2] + 16777216 * b[3]
}

/// The signed number with the 32-bit two's complement pattern `v`.
pub open spec fn signed32(v: int) -> int {
    if v >= 0x8000_0000 {
        v - 0x1_0000_0000
    } else {
        v
    }
}

/// The lowest 32 bits of a number.
pub open spec fn low32(v: u64) -> int {
    v as int % 0x1_0000_0000
}

/// The value of a `fixed32` field.
pub open spec fn fixed32_of(f: FieldView) -> Option<u32> {
    if f.kind == WireKind::ThirtyTwoBit && f.bytes.len() == 4 {
        Some(le32(f.bytes) as u32)
    } else {
        None
    }
}

/// The value of an `sfixed32` field.
pub open spec fn sfixed32_of(f: FieldView) -> Option<i32> {
    if f.kind == WireKind::ThirtyTwoBit && f.bytes.len() == 4 {
        Some(signed32(le32(f.bytes)) as i32)
    } else {
        None
    }
}

/// The value of a `uint32` field: the lowest 32 bits of its number.
pub open spec fn uint32_of(f: FieldView) -> Option<u32> {
    if f.kind == WireKind::Varint {
        Some(low32(f.number) as u32)
    } else {
        None
    }
}

/// The value of an `int32` or enumeration field: the lowest 32 bits of its
/// number, read as a signed number.
pub open spec fn int32_of(f: FieldView) -> Option<i32> {
    if f.kind == WireKind::Varint {
        Some(signed32(low32(f.number)) as i32)
    } else {
        None
    }
}

/// The value of a `bool` field: whether its number is not zero.
pub open spec fn bool_of(f: FieldView) -> Option<bool> {
    if f.kind == WireKind::Varint {
        Some(f.number != 0)
    } else {
        None
    }
}

/// The value of a `bytes` field or the encoding of an embedded message.
pub open spec fn bytes_of(f: FieldView) -> Option<Seq<u8>> {
    if f.kind == WireKind::LengthDelimited {
        Some(f.bytes)
    } else {
        None
    }
}

/// The value of a `string` field, whose bytes have to be UTF-8.
pub open spec fn text_of(f: FieldView) -> Option<Seq<char>> {
    if f.kind == WireKind::LengthDelimited && valid_utf8(f.bytes) {
        Some(decode_utf8(f.bytes))
    } else {
        None
    }
}

/// The signed number with the 32-bit two's complement pattern `v`.
pub fn to_signed32(v: u32) -> (r: i32)
    ensures
        r == signed32(v as int),
{
    if v >= 0x8000_0000 {
        ((v - 0x8000_0000) as i32) + i32::MIN
    } else {
        v as i32
    }
}

/// The lowest 32 bits of a number.
pub fn to_low32(v: u64) -> (r: u32)
    ensures
        r == low32(v),
{
    (v % 0x1_0000_0000) as u32
}

/// The value of a `fixed32` field.
pub fn read_fixed32(f: &Field) -> (r: Option<u32>)
    ensures
        r == fixed32_of(f@),
{
    if f.kind == WireKind::ThirtyTwoBit && f.bytes.len() == 4 {
        let b0 = f.bytes[0] as u32;
        let b1 = f.bytes[1] as u32;
        let b2 = f.bytes[2] as u32;
        let b3 = f.bytes[3] as u32;
        Some(b0 + 256 * b1 + 65536 * b2 + 16777216 * b3)
    } else {
        None
    }
}

/// The value of an `sfixed32` field.
pub fn read_sfixed32(f: &Field) -> (r: Option<i32>)
    ensures
        r == sfixed32_of(f@),
{
    match read_fixed32(f) {
        Some(v) => Some(to_signed32(v)),
        None => None,
    }
}

/// The value of a `uint32` field.
pub fn read_uint32(f: &Field) -> (r: Option<u32>)
    ensures
        r == uint32_of(f@),
{
    if f.kind == WireKind::Varint {
        Some(to_low32(f.number))
    } else {
        None
    }
}

/// The value of an `int32` field.
pub fn read_int32(f: &Field) -> (r: Option<i32>)
    ensures
        r == int32_of(f@),
{
    if f.kind == WireKind::Varint {
        Some(to_signed32(to_low32(f.number)))
    } else {
        None
    }
}

/// The value of a `bool` field.
pub fn read_bool(f: &Field) -> (r: Option<bool>)
    ensures
        r == bool_of(f@),
{
    if f.kind == WireKind::Varint {
        Some(f.number != 0)
    } else {
        None
    }
}

/// The value of a `bytes` field.
pub fn read_bytes(f: &Field) -> (r: Option<Vec<u8>>)
    ensures
        match r {
            Some(b) => bytes_of(f@) == Some(b@),
            None => bytes_of(f@) is None,
        },
{
    if f.kind == WireKind::LengthDelimited {
        Some(slice_to_vec(f.bytes.as_slice()))
    } else {
        None
    }
}

/// The value of a `string` field.
pub fn read_text(f: &Field) -> (r: Option<String>)
    ensures
        match r {
            Some(s) => text_of(f@) == Some(s@),
            None => text_of(f@) is None,
        },
{
    if f.kind == WireKind::LengthDelimited {
        string_from_utf8(f.bytes.as_slice())
    } else {
        None
    }
}

/// A position report without any field.
pub open spec fn empty_position() -> Position {
    Position { latitude_i: None, longitude_i: None, altitude: None, time: 0, ground_speed: None }
}

/// The position report `p` after the field `f` was read.
pub open spec fn position_merge(p: Position, f: FieldView) -> Option<Position> {
    if f.tag == 1 {
        match sfixed32_of(f) {
            Some(v) => Some(Position { latitude_i: Some(v), ..p }),
            None => None,
        }
    } else if f.tag == 2 {
        match sfixed32_of(f) {
            Some(v) => Some(Position { longitude_i: Some(v), ..p }),
            None => None,
        }
    } else if f.tag == 3 {
        match int32_of(f) {
            Some(v) => Some(Position { altitude: Some(v), ..p }),
            None => None,
        }
    } else if f.tag == 4 {
        match fixed32_of(f) {
            Some(v) => Some(Position { time: v, ..p }),
            None => None,
        }
    } else if f.tag == 15 {
        match uint32_of(f) {
            Some(v) => Some(Position { ground_speed: Some(v), ..p }),
            None => None,
        }
    } else {
        Some(p)
    }
}

/// The position report `start` after the fields `fs` were read in order.
pub open spec fn position_of_fields(start: Position, fs: Seq<FieldView>) -> Option<Position>
    decreases fs.len(),
{
    if fs.len() == 0 {
        Some(start)
    } else {
        match position_of_fields(start, fs.drop_last()) {
            Some(p) => position_merge(p, fs.last()),
            None => None,
        }
    }
}

/// The position report that the bytes encode.
pub open spec fn position_of(b: Seq<u8>) -> Option<Position> {
    match fields_of(b) {
        Some(fs) => position_of_fields(empty_position(), fs),
        None => None,
    }
}

/// The position report `p` after the field `f` was read.
pub fn merge_position(p: Position, f: &Field) -> (r: Option<Position>)
    ensures
        r == position_merge(p, f@),
{
    let mut p = p;
    if f.tag == 1 {
        p.latitude_i = Some(read_sfixed32(f)?);
    } else if f.tag == 2 {
        p.longitude_i = Some(read_sfixed32(f)?);
    } else if f.tag == 3 {
        p.altitude = Some(read_int32(f)?);
    } else if f.tag == 4 {
        p.time = read_fixed32(f)?;
    } else if f.tag == 15 {
        p.ground_speed = Some(read_uint32(f)?);
    }
    Some(p)
}

/// Decodes a position report.
pub fn decode_position(buf: &[u8]) -> (r: Option<Position>)
    ensures
        r == position_of(buf@),
{
    let fields = read_fields(buf)?;
    let mut p = Position {
        latitude_i: None,
        longitude_i: None,
        altitude: None,
        time: 0,
        ground_speed: None,
    };
    let ghost fs = field_views(fields@);
    let mut i: usize = 0;
    proof {
        assert(fs.subrange(0, 0) =~= Seq::<FieldView>::empty());
    }
    while i < fields.len()
        invariant
            i <= fields.len(),
            fs == field_views(fields@),
            fields_of(buf@) == Some(fs),
            position_of_fields(empty_position(), fs.subrange(0, i as int)) == Some(p),
        decreases fields.len() - i,
    {
        proof {
            assert(fs.subrange(0, i + 1).drop_last() =~= fs.subrange(0, i as int));
            assert(fs.subrange(0, i + 1).last() == fields@[i as int]@);
            if position_merge(p, fields@[i as int]@) is None {
                lemma_position_fails(empty_position(), fs, i + 1);
            }
        }
        p = merge_position(p, &fields[i])?;
        i = i + 1;
    }
    proof {
        assert(fs.subrange(0, fields.len() as int) =~= fs);
    }
    Some(p)
}

/// Where reading the first `k` fields fails, reading all of them fails.
pub proof fn lemma_position_fails(start: Position, fs: Seq<FieldView>, k: int)
    requires
        0 <= k <= fs.len(),
        position_of_fields(start, fs.subrange(0, k)) is None,
    ensures
        position_of_fields(start, fs) is None,
    decreases fs.len() - k,
{
    if k < fs.len() {
        assert(fs.subrange(0, k + 1).drop_last() =~= fs.subrange(0, k));
        lemma_position_fails(start, fs, k + 1);
    } else {
        assert(fs.subrange(0, k) =~= fs);
    }
}

/// A payload without any field.
pub open spec fn empty_data() -> DataView {
    DataView { portnum: 0, payload: Seq::empty(), want_response: false }
}

/// The payload `d` after the field `f` was read.
pub open spec fn data_merge(d: DataView, f: FieldView) -> Option<DataView> {
    if f.tag == 1 {
        match int32_of(f) {
            Some(v) => Some(DataView { portnum: v, ..d }),
            None => None,
        }
    } else if f.tag == 2 {
        match bytes_of(f) {
            Some(v) => Some(DataView { payload: v, ..d }),
            None => None,
        }
    } else if f.tag == 3 {
        match bool_of(f) {
            Some(v) => Some(DataView { want_response: v, ..d }),
            None => None,
        }
    } else {
        Some(d)
    }
}

/// The payload `start` after the fields `fs` were read in order.
pub open spec fn data_of_fields(start: DataView, fs: Seq<FieldView>) -> Option<DataView>
    decreases fs.len(),
{
    if fs.len() == 0 {
        Some(start)
    } else {
        match data_of_fields(start, fs.drop_last()) {
            Some(d) => data_merge(d, fs.last()),
            None => None,
        }
    }
}

/// The payload `start` after the fields that the bytes encode were read.
pub open spec fn data_merged(start: DataView, b: Seq<u8>) -> Option<DataView> {
    match fields_of(b) {
        Some(fs) => data_of_fields(start, fs),
        None => None,
    }
}

/// A packet without any field.
pub open spec fn empty_packet() -> PacketView {
    PacketView { from: 0, to: 0, payload_variant: None }
}

/// The payload into which an embedded payload is merged: the one that the
/// packet holds, or an empty one.
pub open spec fn decoded_or_empty(v: Option<VariantView>) -> DataView {
    match v {
        Some(VariantView::Decoded(d)) => d,
        _ => empty_data(),
    }
}

/// The packet `p` after the field `f` was read.
pub open spec fn packet_merge(p: PacketView, f: FieldView) -> Option<PacketView> {
    if f.tag == 1 {
        match fixed32_of(f) {
            Some(v) => Some(PacketView { from: v, ..p }),
            None => None,
        }
    } else if f.tag == 2 {
        match fixed32_of(f) {
            Some(v) => Some(PacketView { to: v, ..p }),
            None => None,
        }
    } else if f.tag == 4 {
        match bytes_of(f) {
            Some(b) => match data_merged(decoded_or_empty(p.payload_variant), b) {
                Some(d) => Some(PacketView { payload_variant: Some(VariantView::Decoded(d)), ..p }),
                None => None,
            },
            None => None,
        }
    } else if f.tag == 5 {
        match bytes_of(f) {
            Some(b) => Some(PacketView { payload_variant: Some(VariantView::Encrypted(b)), ..p }),
            None => None,
        }
    } else {
        Some(p)
    }
}

/// The packet `start` after the fields `fs` were read in order.
pub open spec fn packet_of_fields(start: PacketView, fs: Seq<FieldView>) -> Option<PacketView>
    decreases fs.len(),
{
    if fs.len() == 0 {
        Some(start)
    } else {
        match packet_of_fields(start, fs.drop_last()) {
            Some(p) => packet_merge(p, fs.last()),
            None => None,
        }
    }
}

/// The packet `start` after the fields that the bytes encode were read.
pub open spec fn packet_merged(start: PacketView, b: Seq<u8>) -> Option<PacketView> {
    match fields_of(b) {
        Some(fs) => packet_of_fields(start, fs),
        None => None,
    }
}

/// An envelope without any field.
pub open spec fn empty_envelope() -> EnvelopeView {
    EnvelopeView { packet: None, channel_id: Seq::empty(), gateway_id: Seq::empty() }
}

/// The packet into which an embedded packet is merged: the one that the
/// envelope holds, or an empty one.
pub open spec fn packet_or_empty(p: Option<PacketView>) -> PacketView {
    match p {
        Some(x) => x,
        None => empty_packet(),
    }
}

/// The envelope `e` after the field `f` was read.
pub open spec fn envelope_merge(e: EnvelopeView, f: FieldView) -> Option<EnvelopeView> {
    if f.tag == 1 {
        match bytes_of(f) {
            Some(b) => match packet_merged(packet_or_empty(e.packet), b) {
                Some(p) => Some(EnvelopeView { packet: Some(p), ..e }),
                None => None,
            },
            None => None,
        }
    } else if f.tag == 2 {
        match text_of(f) {
            Some(t) => Some(EnvelopeView { channel_id: t, ..e }),
            None => None,
        }
    } else if f.tag == 3 {
        match text_of(f) {
            Some(t) => Some(EnvelopeView { gateway_id: t, ..e }),
            None => None,
        }
    } else {
        Some(e)
    }
}

/// The envelope `start` after the fields `fs` were read in order.
pub open spec fn envelope_of_fields(start: EnvelopeView, fs: Seq<FieldView>) -> Option<
    EnvelopeView,
>
    decreases fs.len(),
{
    if fs.len() == 0 {
        Some(start)
    } else {
        match envelope_of_fields(start, fs.drop_last()) {
            Some(e) => envelope_merge(e, fs.last()),
            None => None,
        }
    }
}

/// The envelope that the bytes encode.
pub open spec fn envelope_of(b: Seq<u8>) -> Option<EnvelopeView> {
    match fields_of(b) {
        Some(fs) => envelope_of_fields(empty_envelope(), fs),
        None => None,
    }
}

/// The view of an optional payload.
pub open spec fn data_view(d: Option<Data>) -> Option<DataView> {
    match d {
        Some(x) => Some(x@),
        None => None,
    }
}

/// The view of an optional envelope.
pub open spec fn envelope_view(e: Option<ServiceEnvelope>) -> Option<EnvelopeView> {
    match e {
        Some(x) => Some(x@),
        None => None,
    }
}

/// Where reading the first `k` fields fails, reading all of them fails.
pub proof fn lemma_data_fails(start: DataView, fs: Seq<FieldView>, k: int)
    requires
        0 <= k <= fs.len(),
        data_of_fields(start, fs.subrange(0, k)) is None,
    ensures
        data_of_fields(start, fs) is None,
    decreases fs.len() - k,
{
    if k < fs.len() {
        assert(fs.subrange(0, k + 1).drop_last() =~= fs.subrange(0, k));
        lemma_data_fails(start, fs, k + 1);
    } else {
        assert(fs.subrange(0, k) =~= fs);
    }
}

/// Where reading the first `k` fields fails, reading all of them fails.
pub proof fn lemma_packet_fails(start: PacketView, fs: Seq<FieldView>, k: int)
    requires
        0 <= k <= fs.len(),
        packet_of_fields(start, fs.subrange(0, k)) is None,
    ensures
        packet_of_fields(start, fs) is None,
    decreases fs.len() - k,
{
    if k < fs.len() {
        assert(fs.subrange(0, k + 1).drop_last() =~= fs.subrange(0, k));
        lemma_packet_fails(start, fs, k + 1);
    } else {
        assert(fs.subrange(0, k) =~= fs);
    }
}

/// Where reading the first `k` fields fails, reading all of them fails.
pub proof fn lemma_envelope_fails(start: EnvelopeView, fs: Seq<FieldView>, k: int)
    requires
        0 <= k <= fs.len(),
        envelope_of_fields(start, fs.subrange(0, k)) is None,
    ensures
        envelope_of_fields(start, fs) is None,
    decreases fs.len() - k,
{
    if k < fs.len() {
        assert(fs.subrange(0, k + 1).drop_last() =~= fs.subrange(0, k));
        lemma_envelope_fails(start, fs, k + 1);
    } else {
        assert(fs.subrange(0, k) =~= fs);
    }
}

/// The payload `d` after the field `f` was read.
pub fn merge_data(d: Data, f: &Field) -> (r: Option<Data>)
    ensures
        data_view(r) == data_merge(d@, f@),
{
    let mut d = d;
    if f.tag == 1 {
        d.portnum = read_int32(f)?;
    } else if f.tag == 2 {
        d.payload = read_bytes(f)?;
    } else if f.tag == 3 {
        d.want_response = read_bool(f)?;
    }
    Some(d)
}

/// The payload `start` after the fields that `buf` encodes were read.
pub fn merge_data_from(start: Data, buf: &[u8]) -> (r: Option<Data>)
    ensures
        data_view(r) == data_merged(start@, buf@),
{
    let fields = read_fields(buf)?;
    let ghost first = start@;
    let ghost fs = field_views(fields@);
    let mut d = start;
    let mut i: usize = 0;
    proof {
        assert(fs.subrange(0, 0) =~= Seq::<FieldView>::empty());
    }
    while i < fields.len()
        invariant
            i <= fields.len(),
            fs == field_views(fields@),
            fields_of(buf@) == Some(fs),
            first == start@,
            data_of_fields(first, fs.subrange(0, i as int)) == Some(d@),
        decreases fields.len() - i,
    {
        proof {
            assert(fs.subrange(0, i + 1).drop_last() =~= fs.subrange(0, i as int));
            assert(fs.subrange(0, i + 1).last() == fields@[i as int]@);
            if data_merge(d@, fields@[i as int]@) is None {
                lemma_data_fails(first, fs, i + 1);
            }
        }
        d = merge_data(d, &fields[i])?;
        i = i + 1;
    }
    proof {
        assert(fs.subrange(0, fields.len() as int) =~= fs);
    }
    Some(d)
}

/// The packet `p` after the field `f` was read.
pub fn merge_packet(p: MeshPacket, f: &Field) -> (r: Option<MeshPacket>)
    ensures
        packet_view(r) == packet_merge(p@, f@),
{
    let mut p = p;
    if f.tag == 1 {
        p.from = read_fixed32(f)?;
    } else if f.tag == 2 {
        p.to = read_fixed32(f)?;
    } else if f.tag == 4 {
        let bytes = read_bytes(f)?;
        let start = match p.payload_variant {
            Some(PayloadVariant::Decoded(d)) => d,
            _ => Data { portnum: 0, payload: Vec::new(), want_response: false },
        };
        let d = merge_data_from(start, bytes.as_slice())?;
        p.payload_variant = Some(PayloadVariant::Decoded(d));
    } else if f.tag == 5 {
        let bytes = read_bytes(f)?;
        p.payload_variant = Some(PayloadVariant::Encrypted(bytes));
    }
    Some(p)
}

/// The packet `start` after the fields that `buf` encodes were read.
pub fn merge_packet_from(start: MeshPacket, buf: &[u8]) -> (r: Option<MeshPacket>)
    ensures
        packet_view(r) == packet_merged(start@, buf@),
{
    let fields = read_fields(buf)?;
    let ghost first = start@;
    let ghost fs = field_views(fields@);
    let mut p = start;
    let mut i: usize = 0;
    proof {
        assert(fs.subrange(0, 0) =~= Seq::<FieldView>::empty());
    }
    while i < fields.len()
        invariant
            i <= fields.len(),
            fs == field_views(fields@),
            fields_of(buf@) == Some(fs),
            first == start@,
            packet_of_fields(first, fs.subrange(0, i as int)) == Some(p@),
        decreases fields.len() - i,
    {
        proof {
            assert(fs.subrange(0, i + 1).drop_last() =~= fs.subrange(0, i as int));
            assert(fs.subrange(0, i + 1).last() == fields@[i as int]@);
            if packet_merge(p@, fields@[i as int]@) is None {
                lemma_packet_fails(first, fs, i + 1);
            }
        }
        p = merge_packet(p, &fields[i])?;
        i = i + 1;
    }
    proof {
        assert(fs.subrange(0, fields.len() as int) =~= fs);
    }
    Some(p)
}

/// The envelope `e` after the field `f` was read.
pub fn merge_envelope(e: ServiceEnvelope, f: &Field) -> (r: Option<ServiceEnvelope>)
    ensures
        envelope_view(r) == envelope_merge(e@, f@),
{
    let mut e = e;
    if f.tag == 1 {
        let bytes = read_bytes(f)?;
        let start = match e.packet {
            Some(p) => p,
            None => MeshPacket { from: 0, to: 0, payload_variant: None },
        };
        let p = merge_packet_from(start, bytes.as_slice())?;
        e.packet = Some(p);
    } else if f.tag == 2 {
        e.channel_id = read_text(f)?;
    } else if f.tag == 3 {
        e.gateway_id = read_text(f)?;
    }
    Some(e)
}

/// Decodes an envelope.
pub fn decode_envelope(buf: &[u8]) -> (r: Option<ServiceEnvelope>)
    ensures
        envelope_view(r) == envelope_of(buf@),
{
    let fields = read_fields(buf)?;
    let ghost fs = field_views(fields@);
    let mut e = ServiceEnvelope { packet: None, channel_id: String::new(), gateway_id: String::new() };
    let mut i: usize = 0;
    proof {
        assert(fs.subrange(0, 0) =~= Seq::<FieldView>::empty());
        assert(e@.channel_id =~= Seq::<char>::empty());
        assert(e@.gateway_id =~= Seq::<char>::empty());
    }
    while i < fields.len()
        invariant
            i <= fields.len(),
            fs == field_views(fields@),
            fields_of(buf@) == Some(fs),
            envelope_of_fields(empty_envelope(), fs.subrange(0, i as int)) == Some(e@),
        decreases fields.len() - i,
    {
        proof {
            assert(fs.subrange(0, i + 1).drop_last() =~= fs.subrange(0, i as int));
            assert(fs.subrange(0, i + 1).last() == fields@[i as int]@);
            if envelope_merge(e@, fields@[i as int]@) is None {
                lemma_envelope_fails(empty_envelope(), fs, i + 1);
            }
        }
        e = merge_envelope(e, &fields[i])?;
        i = i + 1;
    }
    proof {
        assert(fs.subrange(0, fields.len() as int) =~= fs);
    }
    Some(e)
}

} // verus!

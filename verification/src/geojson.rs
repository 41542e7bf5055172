//! The GeoJSON renderings of tracks and positions.
//!
//! A track is rendered as one line, as one line for each pair of
//! neighbouring points, or as a collection of points with the statistics of
//! the whole. Points that are not accurate enough are left out by
//! `crate::track`; the last known positions of devices are rendered without
//! that filter.
//!
//! The properties of a point are its time, speed, elevation, accuracy,
//! vertical accuracy and course, followed by its annotations without the
//! keys `_id`, `m`, `BSSID`, `SSID` and `created_at`. A point whose
//! annotations are no JSON object makes the export fail.

use crate::db::{point_views, DevicePosition, GpsPoint, PointView, TrackData};
use crate::error::Error;
use crate::geo::{degrees_text, push_degrees, Degrees};
use crate::json::{
    array, integer, item_views, json_document, json_text, member, member_views,
    members_without, number_or_null, object, optional_integer_json, parse, render, text,
    without_keys, Json, JsonView,
};
use crate::stats::{
    bbox_of, bbox_of_places, bbox_view, bounding_box, bounding_box_of_places, capped, ascent,
    elevations, extent_of, place_views, range_view, speeds, track_stats, BoundingBox, Range,
};
use crate::text::{chars_of, int_text, push_nat, string_of, views};
use crate::track::{
    accurate, assemble, assemble_tracks, filter_accurate, lemma_segmented_lines_have_two_points,
    line_views, lines_of_tracks, Line, LineView, Mode,
};
use vstd::prelude::*;
use vstd::utf8::encode_utf8;

verus! {

/// The keys of annotations that are not rendered.
pub open spec fn skipped_keys() -> Seq<Seq<char>> {
    seq!["_id"@, "m"@, "BSSID"@, "SSID"@, "created_at"@]
}

/// The keys of annotations that are not rendered.
pub fn skipped_key_list() -> (r: Vec<Vec<char>>)
    ensures
        views(r@) == skipped_keys(),
{
    let mut r: Vec<Vec<char>> = Vec::new();
    r.push(chars_of("_id"));
    r.push(chars_of("m"));
    r.push(chars_of("BSSID"));
    r.push(chars_of("SSID"));
    r.push(chars_of("created_at"));
    proof {
        assert(views(r@) =~= skipped_keys());
    }
    r
}

/// The members that every point has: its time and its five optional
/// numbers.
pub open spec fn fixed_properties(p: PointView) -> Seq<(Seq<char>, JsonView)> {
    seq![
        ("time"@, JsonView::Text(p.ts)),
        ("speed"@, number_or_null(p.speed)),
        ("elevation"@, number_or_null(p.elevation)),
        ("accuracy"@, number_or_null(p.accuracy)),
        ("v_accuracy"@, number_or_null(p.v_accuracy)),
        ("cog"@, number_or_null(p.cog)),
    ]
}

/// The members of the annotations that are rendered, or `None` where the
/// annotations are no JSON object.
pub open spec fn rendered_annotations(annotations: Seq<char>) -> Option<
    Seq<(Seq<char>, JsonView)>,
> {
    match json_document(encode_utf8(annotations)) {
        Some(JsonView::Object(members)) => Some(members_without(members, skipped_keys())),
        _ => None,
    }
}

/// The properties of a point, or `None` where its annotations are no JSON
/// object.
pub open spec fn properties_of(p: PointView) -> Option<Seq<(Seq<char>, JsonView)>> {
    match rendered_annotations(p.annotations) {
        Some(more) => Some(fixed_properties(p) + more),
        None => None,
    }
}

/// The view of optional members.
pub open spec fn optional_members(m: Option<Vec<(String, Json)>>) -> Option<
    Seq<(Seq<char>, JsonView)>,
> {
    match m {
        Some(x) => Some(member_views(x@)),
        None => None,
    }
}

/// An optional 16-bit number as an optional 64-bit number.
pub fn widen_i16(v: Option<i16>) -> (r: Option<i64>)
    ensures
        r == match v {
            Some(x) => Some(x as i64),
            None => None,
        },
{
    match v {
        Some(x) => Some(x as i64),
        None => None,
    }
}

/// An optional 32-bit number as an optional 64-bit number.
pub fn widen_i32(v: Option<i32>) -> (r: Option<i64>)
    ensures
        r == match v {
            Some(x) => Some(x as i64),
            None => None,
        },
{
    match v {
        Some(x) => Some(x as i64),
        None => None,
    }
}

/// The properties of a point: its fixed members, then its annotations
/// without the skipped keys.
pub fn point_properties(pt: &GpsPoint) -> (r: Option<Vec<(String, Json)>>)
    ensures
        optional_members(r) == properties_of(pt@),
{
    let doc = parse(pt.annotations.as_str().as_bytes())?;
    proof {
        crate::json::lemma_view_of_parts(doc);
    }
    let members = match doc {
        Json::Object(members) => members,
        _ => {
            return None;
        },
    };
    let keys = skipped_key_list();
    let mut more = without_keys(members, &keys);
    let mut r: Vec<(String, Json)> = Vec::new();
    r.push(member("time", text(pt.ts.as_str())));
    r.push(member("speed", optional_integer_json(widen_i16(pt.speed))));
    r.push(member("elevation", optional_integer_json(widen_i16(pt.elevation))));
    r.push(member("accuracy", optional_integer_json(widen_i32(pt.accuracy))));
    r.push(member("v_accuracy", optional_integer_json(widen_i16(pt.v_accuracy))));
    r.push(member("cog", optional_integer_json(widen_i16(pt.cog))));
    proof {
        assert(member_views(r@) =~= fixed_properties(pt@));
    }
    let ghost fixed = r@;
    let ghost added = more@;
    r.append(&mut more);
    proof {
        assert(member_views(r@) =~= member_views(fixed) + member_views(added));
    }
    Some(r)
}

/// The JSON number that writes an angle with seven decimal places.
pub fn degrees_json(d: Degrees) -> (r: Json)
    ensures
        r@ == JsonView::Number(degrees_text(d.e7 as int)),
{
    let mut t: Vec<char> = Vec::new();
    push_degrees(&mut t, d);
    proof {
        assert(Seq::<char>::empty() + degrees_text(d.e7 as int) =~= degrees_text(d.e7 as int));
    }
    Json::Number(string_of(&t))
}

/// The coordinate pair of a place: longitude, then latitude.
pub open spec fn coordinate(x: int, y: int) -> JsonView {
    JsonView::Array(seq![JsonView::Number(degrees_text(x)), JsonView::Number(degrees_text(y))])
}

/// The coordinate pair of a place: longitude, then latitude.
pub fn coordinate_json(x: Degrees, y: Degrees) -> (r: Json)
    ensures
        r@ == coordinate(x.e7 as int, y.e7 as int),
{
    let mut pair: Vec<Json> = Vec::new();
    pair.push(degrees_json(x));
    pair.push(degrees_json(y));
    proof {
        assert(item_views(pair@) =~= seq![
            JsonView::Number(degrees_text(x.e7 as int)),
            JsonView::Number(degrees_text(y.e7 as int)),
        ]);
    }
    array(pair)
}

/// The coordinate pairs of the points.
pub open spec fn coordinates_of(points: Seq<PointView>) -> Seq<JsonView> {
    Seq::new(points.len(), |i: int| coordinate(points[i].x, points[i].y))
}

/// A geometry of the given type with the given coordinates.
pub open spec fn geometry(kind: Seq<char>, coordinates: JsonView) -> JsonView {
    JsonView::Object(seq![("type"@, JsonView::Text(kind)), ("coordinates"@, coordinates)])
}

/// A geometry of the given type with the given coordinates.
pub fn geometry_json(kind: &str, coordinates: Json) -> (r: Json)
    ensures
        r@ == geometry(kind@, coordinates@),
{
    let mut members: Vec<(String, Json)> = Vec::new();
    members.push(member("type", text(kind)));
    members.push(member("coordinates", coordinates));
    proof {
        assert(member_views(members@) =~= seq![
            ("type"@, JsonView::Text(kind@)),
            ("coordinates"@, coordinates@),
        ]);
    }
    object(members)
}

/// The line through the points.
pub open spec fn line_string(points: Seq<PointView>) -> JsonView {
    geometry("LineString"@, JsonView::Array(coordinates_of(points)))
}

/// The line through the points.
pub fn line_string_json(points: &Vec<GpsPoint>) -> (r: Json)
    ensures
        r@ == line_string(point_views(points@)),
{
    let ghost all = point_views(points@);
    let mut items: Vec<Json> = Vec::new();
    let mut i: usize = 0;
    proof {
        assert(item_views(items@) =~= coordinates_of(all.subrange(0, 0)));
    }
    while i < points.len()
        invariant
            i <= points.len(),
            all == point_views(points@),
            item_views(items@) == coordinates_of(all.subrange(0, i as int)),
        decreases points.len() - i,
    {
        let ghost before = item_views(items@);
        let c = coordinate_json(points[i].x, points[i].y);
        items.push(c);
        proof {
            assert(item_views(items@) =~= before.push(
                coordinate(points@[i as int]@.x, points@[i as int]@.y),
            ));
            assert(item_views(items@) =~= coordinates_of(all.subrange(0, i + 1)));
        }
        i = i + 1;
    }
    proof {
        assert(all.subrange(0, points.len() as int) =~= all);
    }
    geometry_json("LineString", array(items))
}

/// The bounding box as an array: min x, min y, max x, max y.
pub open spec fn bbox_array(b: (int, int, int, int)) -> JsonView {
    JsonView::Array(
        seq![
            JsonView::Number(degrees_text(b.0)),
            JsonView::Number(degrees_text(b.1)),
            JsonView::Number(degrees_text(b.2)),
            JsonView::Number(degrees_text(b.3)),
        ],
    )
}

/// The member `bbox` for a bounding box; no member without one.
pub open spec fn bbox_members(b: Option<(int, int, int, int)>) -> Seq<(Seq<char>, JsonView)> {
    match b {
        Some(b) => seq![("bbox"@, bbox_array(b))],
        None => Seq::empty(),
    }
}

/// Appends the member `bbox` to the members where there is a bounding box.
pub fn push_bbox(members: &mut Vec<(String, Json)>, b: Option<BoundingBox>)
    ensures
        member_views(final(members)@) == member_views(old(members)@) + bbox_members(bbox_view(b)),
{
    match b {
        Some(b) => {
            let mut items: Vec<Json> = Vec::new();
            items.push(degrees_json(b.min_x));
            items.push(degrees_json(b.min_y));
            items.push(degrees_json(b.max_x));
            items.push(degrees_json(b.max_y));
            proof {
                assert(item_views(items@) =~= bbox_array(b.view())->Array_0);
            }
            members.push(member("bbox", array(items)));
            proof {
                assert(member_views(members@) =~= member_views(old(members)@) + bbox_members(
                    bbox_view(Some(b)),
                ));
            }
        },
        None => {
            proof {
                assert(member_views(members@) =~= member_views(old(members)@) + bbox_members(
                    None,
                ));
            }
        },
    }
}

/// A feature with the given geometry and properties, followed by further
/// members.
pub open spec fn feature(
    geometry: JsonView,
    properties: JsonView,
    more: Seq<(Seq<char>, JsonView)>,
) -> JsonView {
    JsonView::Object(
        seq![
            ("type"@, JsonView::Text("Feature"@)),
            ("geometry"@, geometry),
            ("properties"@, properties),
        ] + more,
    )
}

/// A feature with the given geometry and properties, followed by further
/// members.
pub fn feature_json(geometry: Json, properties: Json, more: Vec<(String, Json)>) -> (r: Json)
    ensures
        r@ == feature(geometry@, properties@, member_views(more@)),
{
    let mut more = more;
    let ghost added = more@;
    let mut members: Vec<(String, Json)> = Vec::new();
    members.push(member("type", text("Feature")));
    members.push(member("geometry", geometry));
    members.push(member("properties", properties));
    let ghost first = members@;
    proof {
        assert(member_views(first) =~= seq![
            ("type"@, JsonView::Text("Feature"@)),
            ("geometry"@, geometry@),
            ("properties"@, properties@),
        ]);
    }
    members.append(&mut more);
    proof {
        assert(member_views(members@) =~= member_views(first) + member_views(added));
    }
    object(members)
}

/// A collection of the given features, followed by further members.
pub open spec fn collection(features: Seq<JsonView>, more: Seq<(Seq<char>, JsonView)>) -> JsonView {
    JsonView::Object(
        seq![
            ("type"@, JsonView::Text("FeatureCollection"@)),
            ("features"@, JsonView::Array(features)),
        ] + more,
    )
}

/// A collection of the given features, followed by further members.
pub fn collection_json(features: Vec<Json>, more: Vec<(String, Json)>) -> (r: Json)
    ensures
        r@ == collection(item_views(features@), member_views(more@)),
{
    let mut more = more;
    let ghost added = more@;
    let mut members: Vec<(String, Json)> = Vec::new();
    members.push(member("type", text("FeatureCollection")));
    members.push(member("features", array(features)));
    let ghost first = members@;
    proof {
        assert(member_views(first) =~= seq![
            ("type"@, JsonView::Text("FeatureCollection"@)),
            ("features"@, JsonView::Array(item_views(features@))),
        ]);
    }
    members.append(&mut more);
    proof {
        assert(member_views(members@) =~= member_views(first) + member_views(added));
    }
    object(members)
}

/// The feature of one track rendered as a line: the line through its
/// accurate points, the properties of the last of them, and their bounding
/// box. `None` where the annotations of that last point are no JSON object.
pub open spec fn line_feature(points: Seq<PointView>) -> Option<JsonView> {
    let kept = accurate(points);
    if kept.len() == 0 {
        Some(feature(line_string(kept), JsonView::Null, bbox_members(bbox_of(kept))))
    } else {
        match properties_of(kept.last()) {
            Some(p) => Some(
                feature(line_string(kept), JsonView::Object(p), bbox_members(bbox_of(kept))),
            ),
            None => None,
        }
    }
}

/// The view of an optional JSON value.
pub open spec fn optional_json(j: Option<Json>) -> Option<JsonView> {
    match j {
        Some(x) => Some(x@),
        None => None,
    }
}

/// The feature of one track rendered as a line.
pub fn line_feature_json(points: &Vec<GpsPoint>) -> (r: Option<Json>)
    ensures
        optional_json(r) == line_feature(point_views(points@)),
{
    let lines = assemble(points, Mode::Whole, 0);
    proof {
        assert(line_views(lines@).len() == 1);
        assert(line_views(lines@)[0] == lines@[0]@);
    }
    let kept = &lines[0].points;
    let properties = if kept.len() == 0 {
        Json::Null
    } else {
        proof {
            assert(point_views(kept@).last() == kept@[kept.len() - 1]@);
        }
        object(point_properties(&kept[kept.len() - 1])?)
    };
    let mut more: Vec<(String, Json)> = Vec::new();
    push_bbox(&mut more, bounding_box(kept));
    proof {
        assert(member_views(more@) =~= bbox_members(bbox_of(point_views(kept@))));
    }
    Some(feature_json(line_string_json(kept), properties, more))
}

/// The line features of the first `n` tracks, or `None` where one of them
/// has none.
pub open spec fn line_features(tracks: Seq<Seq<PointView>>, n: nat) -> Option<Seq<JsonView>>
    decreases n,
{
    if n == 0 || n > tracks.len() {
        Some(Seq::empty())
    } else {
        match (line_features(tracks, (n - 1) as nat), line_feature(tracks[n - 1])) {
            (Some(first), Some(f)) => Some(first.push(f)),
            _ => None,
        }
    }
}

/// The document of tracks rendered as lines: a collection with one feature
/// for each track.
pub open spec fn track_document(tracks: Seq<Seq<PointView>>) -> Option<JsonView> {
    match line_features(tracks, tracks.len()) {
        Some(features) => Some(collection(features, Seq::empty())),
        None => None,
    }
}

/// Where the first `k` tracks have no line features, all of them have none.
pub proof fn lemma_line_features_fail(tracks: Seq<Seq<PointView>>, k: nat, n: nat)
    requires
        k <= n <= tracks.len(),
        line_features(tracks, k) is None,
    ensures
        line_features(tracks, n) is None,
    decreases n - k,
{
    if k < n {
        lemma_line_features_fail(tracks, k, (n - 1) as nat);
    }
}

/// The text of a document, or the failure of the export.
pub open spec fn export_of(doc: Option<JsonView>) -> Result<Seq<char>, Error> {
    match doc {
        Some(d) => Ok(json_text(d)),
        None => Err(Error::MalformedRecord),
    }
}

/// The view of a text or an error.
pub open spec fn export_view(r: Result<String, Error>) -> Result<Seq<char>, Error> {
    match r {
        Ok(s) => Ok(s@),
        Err(e) => Err(e),
    }
}

/// Builds the GeoJSON document of tracks as lines.
pub fn track_json(tracks: &Vec<TrackData>) -> (r: Option<Json>)
    ensures
        optional_json(r) == track_document(crate::track::points_of_tracks(tracks@)),
{
    let ghost all = crate::track::points_of_tracks(tracks@);
    let mut features: Vec<Json> = Vec::new();
    let mut i: usize = 0;
    proof {
        assert(item_views(features@) =~= Seq::<JsonView>::empty());
    }
    while i < tracks.len()
        invariant
            i <= tracks.len(),
            all == crate::track::points_of_tracks(tracks@),
            line_features(all, i as nat) == Some(item_views(features@)),
        decreases tracks.len() - i,
    {
        let ghost before = item_views(features@);
        proof {
            assert(all[i as int] == point_views(tracks@[i as int].points@));
            if line_feature(all[i as int]) is None {
                assert(line_features(all, (i + 1) as nat) is None);
                lemma_line_features_fail(all, (i + 1) as nat, tracks.len() as nat);
            }
        }
        let f = line_feature_json(&tracks[i].points)?;
        features.push(f);
        proof {
            assert(item_views(features@) =~= before.push(f@));
        }
        i = i + 1;
    }
    let r = collection_json(features, Vec::new());
    proof {
        assert(member_views(Seq::<(String, Json)>::empty()) =~= Seq::empty());
    }
    Some(r)
}

/// Builds a GeoJSON LineString FeatureCollection: one feature for each
/// track, with the line through its accurate points, the properties of the
/// last of them, and their bounding box.
///
/// Fails with `MalformedRecord` where the annotations of such a last point
/// are no JSON object.
pub fn track(tracks: &Vec<TrackData>) -> (r: Result<String, Error>)
    ensures
        export_view(r) == export_of(track_document(crate::track::points_of_tracks(tracks@))),
{
    match track_json(tracks) {
        Some(doc) => Ok(render(&doc)),
        None => Err(Error::MalformedRecord),
    }
}

/// The JSON number that writes `v`.
pub fn natural(v: u64) -> (r: Json)
    ensures
        r@ == JsonView::Number(int_text(v as int)),
{
    let mut t: Vec<char> = Vec::new();
    push_nat(&mut t, v);
    proof {
        assert(Seq::<char>::empty() + int_text(v as int) =~= int_text(v as int));
    }
    Json::Number(string_of(&t))
}

/// The feature of a line of two neighbouring points: the line itself, with
/// the properties of its first point and the number of its track as
/// `trackno`. `None` where the annotations of the first point are no JSON
/// object.
pub open spec fn segment_feature(l: LineView) -> Option<JsonView> {
    match properties_of(l.points[0]) {
        Some(p) => Some(
            feature(
                line_string(l.points),
                JsonView::Object(
                    p + seq![("trackno"@, JsonView::Number(int_text(l.track_no as int)))],
                ),
                Seq::empty(),
            ),
        ),
        None => None,
    }
}

/// The features of the first `n` lines, or `None` where one of them has
/// none.
pub open spec fn segment_features(lines: Seq<LineView>, n: nat) -> Option<Seq<JsonView>>
    decreases n,
{
    if n == 0 || n > lines.len() {
        Some(Seq::empty())
    } else {
        match (segment_features(lines, (n - 1) as nat), segment_feature(lines[n - 1])) {
            (Some(first), Some(f)) => Some(first.push(f)),
            _ => None,
        }
    }
}

/// Where the first `k` lines have no features, all of them have none.
pub proof fn lemma_segment_features_fail(lines: Seq<LineView>, k: nat, n: nat)
    requires
        k <= n <= lines.len(),
        segment_features(lines, k) is None,
    ensures
        segment_features(lines, n) is None,
    decreases n - k,
{
    if k < n {
        lemma_segment_features_fail(lines, k, (n - 1) as nat);
    }
}

/// The document of tracks rendered as segments: a collection with one
/// feature for each line that the segmented assembly of the tracks gives.
pub open spec fn segments_document(tracks: Seq<Seq<PointView>>) -> Option<JsonView> {
    let lines = lines_of_tracks(tracks, Mode::Segmented, tracks.len());
    match segment_features(lines, lines.len()) {
        Some(features) => Some(collection(features, Seq::empty())),
        None => None,
    }
}

/// The feature of a line of two neighbouring points.
pub fn segment_feature_json(line: &Line) -> (r: Option<Json>)
    requires
        line.points.len() >= 1,
    ensures
        optional_json(r) == segment_feature(line@),
{
    proof {
        assert(line@.points[0] == line.points@[0]@);
    }
    let mut properties = point_properties(&line.points[0])?;
    let ghost before = member_views(properties@);
    properties.push(member("trackno", natural(line.track_no as u64)));
    proof {
        assert(member_views(properties@) =~= before + seq![
            ("trackno"@, JsonView::Number(int_text(line.track_no as int))),
        ]);
    }
    let more: Vec<(String, Json)> = Vec::new();
    proof {
        assert(member_views(more@) =~= Seq::empty());
    }
    Some(feature_json(line_string_json(&line.points), object(properties), more))
}

/// Builds the GeoJSON document of tracks as segments.
pub fn track_with_segments_json(tracks: &Vec<TrackData>) -> (r: Option<Json>)
    ensures
        optional_json(r) == segments_document(crate::track::points_of_tracks(tracks@)),
{
    let lines = assemble_tracks(tracks, Mode::Segmented);
    let ghost all = line_views(lines@);
    let mut features: Vec<Json> = Vec::new();
    let mut i: usize = 0;
    proof {
        assert(item_views(features@) =~= Seq::<JsonView>::empty());
        lemma_segmented_lines_have_two_points(
            crate::track::points_of_tracks(tracks@),
            tracks.len() as nat,
        );
    }
    while i < lines.len()
        invariant
            i <= lines.len(),
            all == line_views(lines@),
            all == lines_of_tracks(
                crate::track::points_of_tracks(tracks@),
                Mode::Segmented,
                tracks.len() as nat,
            ),
            forall|k: int| 0 <= k < all.len() ==> (#[trigger] all[k]).points.len() == 2,
            segment_features(all, i as nat) == Some(item_views(features@)),
        decreases lines.len() - i,
    {
        let ghost before = item_views(features@);
        proof {
            assert(all[i as int] == lines@[i as int]@);
            assert(all[i as int].points.len() == 2);
            if segment_feature(all[i as int]) is None {
                assert(segment_features(all, (i + 1) as nat) is None);
                lemma_segment_features_fail(all, (i + 1) as nat, lines.len() as nat);
            }
        }
        let f = segment_feature_json(&lines[i])?;
        features.push(f);
        proof {
            assert(item_views(features@) =~= before.push(f@));
        }
        i = i + 1;
    }
    let r = collection_json(features, Vec::new());
    proof {
        assert(member_views(Seq::<(String, Json)>::empty()) =~= Seq::empty());
    }
    Some(r)
}

/// Builds a GeoJSON FeatureCollection with one line for each pair of
/// neighbouring accurate points; each line has the properties of its first
/// point and the index of its track as `trackno`.
///
/// Fails with `MalformedRecord` where the annotations of such a first point
/// are no JSON object.
pub fn track_with_segments(tracks: &Vec<TrackData>) -> (r: Result<String, Error>)
    ensures
        export_view(r) == export_of(segments_document(crate::track::points_of_tracks(tracks@))),
{
    match track_with_segments_json(tracks) {
        Some(doc) => Ok(render(&doc)),
        None => Err(Error::MalformedRecord),
    }
}

/// The accurate points of the first `n` tracks, track after track.
pub open spec fn all_accurate(tracks: Seq<Seq<PointView>>, n: nat) -> Seq<PointView>
    decreases n,
{
    if n == 0 || n > tracks.len() {
        Seq::empty()
    } else {
        all_accurate(tracks, (n - 1) as nat) + accurate(tracks[n - 1])
    }
}

/// The feature of the point with ordinal `id`: the point as geometry, its
/// properties, and `id`. `None` where its annotations are no JSON object.
pub open spec fn point_feature(id: nat, p: PointView) -> Option<JsonView> {
    match properties_of(p) {
        Some(members) => Some(
            feature(
                geometry("Point"@, coordinate(p.x, p.y)),
                JsonView::Object(members),
                seq![("id"@, JsonView::Number(int_text(id as int)))],
            ),
        ),
        None => None,
    }
}

/// The features of the first `n` points, or `None` where one of them has
/// none.
pub open spec fn point_features(points: Seq<PointView>, n: nat) -> Option<Seq<JsonView>>
    decreases n,
{
    if n == 0 || n > points.len() {
        Some(Seq::empty())
    } else {
        match (point_features(points, (n - 1) as nat), point_feature((n - 1) as nat, points[n - 1])) {
            (Some(first), Some(f)) => Some(first.push(f)),
            _ => None,
        }
    }
}

/// Where the first `k` points have no features, all of them have none.
pub proof fn lemma_point_features_fail(points: Seq<PointView>, k: nat, n: nat)
    requires
        k <= n <= points.len(),
        point_features(points, k) is None,
    ensures
        point_features(points, n) is None,
    decreases n - k,
{
    if k < n {
        lemma_point_features_fail(points, k, (n - 1) as nat);
    }
}

/// The least of a range as a number, or `null` without a range.
pub open spec fn range_min(r: Option<(int, int)>) -> JsonView {
    match r {
        Some((lo, _)) => JsonView::Number(int_text(lo)),
        None => JsonView::Null,
    }
}

/// The greatest of a range as a number, or `null` without a range.
pub open spec fn range_max(r: Option<(int, int)>) -> JsonView {
    match r {
        Some((_, hi)) => JsonView::Number(int_text(hi)),
        None => JsonView::Null,
    }
}

/// The member `distance`, in meters, where a distance is given.
pub open spec fn distance_members(distance: Option<u64>) -> Seq<(Seq<char>, JsonView)> {
    match distance {
        Some(d) => seq![("distance"@, JsonView::Number(int_text(d as int)))],
        None => Seq::empty(),
    }
}

/// The statistics of the points as members: the ranges of speed and
/// elevation, the ascent, and the distance where one is given.
pub open spec fn stats_members(points: Seq<PointView>, distance: Option<u64>) -> Seq<
    (Seq<char>, JsonView),
> {
    seq![
        ("speed_min"@, range_min(extent_of(speeds(points)))),
        ("speed_max"@, range_max(extent_of(speeds(points)))),
        ("elevation_min"@, range_min(extent_of(elevations(points)))),
        ("elevation_max"@, range_max(extent_of(elevations(points)))),
        ("elevation_gain"@, JsonView::Number(int_text(capped(ascent(elevations(points)))))),
    ] + distance_members(distance)
}

/// The document of tracks rendered as points: a collection with one feature
/// for each accurate point, the bounding box of these points, and their
/// statistics as the member `stats`.
pub open spec fn points_document(tracks: Seq<Seq<PointView>>, distance: Option<u64>) -> Option<
    JsonView,
> {
    let points = all_accurate(tracks, tracks.len());
    match point_features(points, points.len()) {
        Some(features) => Some(
            collection(
                features,
                bbox_members(bbox_of(points)) + seq![
                    ("stats"@, JsonView::Object(stats_members(points, distance))),
                ],
            ),
        ),
        None => None,
    }
}

/// The least of a range as a JSON number, or `null`.
pub fn range_min_json(r: Option<Range>) -> (j: Json)
    ensures
        j@ == range_min(range_view(r)),
{
    match r {
        Some(r) => integer(r.min as i64),
        None => Json::Null,
    }
}

/// The greatest of a range as a JSON number, or `null`.
pub fn range_max_json(r: Option<Range>) -> (j: Json)
    ensures
        j@ == range_max(range_view(r)),
{
    match r {
        Some(r) => integer(r.max as i64),
        None => Json::Null,
    }
}

/// The statistics of the points as members.
pub fn stats_json(points: &Vec<GpsPoint>, distance: Option<u64>) -> (r: Vec<(String, Json)>)
    ensures
        member_views(r@) == stats_members(point_views(points@), distance),
{
    let stats = track_stats(points);
    let mut r: Vec<(String, Json)> = Vec::new();
    r.push(member("speed_min", range_min_json(stats.speed)));
    r.push(member("speed_max", range_max_json(stats.speed)));
    r.push(member("elevation_min", range_min_json(stats.elevation)));
    r.push(member("elevation_max", range_max_json(stats.elevation)));
    r.push(member("elevation_gain", natural(stats.elevation_gain)));
    match distance {
        Some(d) => {
            r.push(member("distance", natural(d)));
        },
        None => {},
    }
    proof {
        assert(member_views(r@) =~= stats_members(point_views(points@), distance));
    }
    r
}

/// The accurate points of all tracks, track after track.
pub fn collect_accurate(tracks: &Vec<TrackData>) -> (r: Vec<GpsPoint>)
    ensures
        point_views(r@) == all_accurate(crate::track::points_of_tracks(tracks@), tracks.len() as nat),
{
    let ghost all = crate::track::points_of_tracks(tracks@);
    let mut r: Vec<GpsPoint> = Vec::new();
    let mut no: usize = 0;
    proof {
        assert(point_views(r@) =~= all_accurate(all, 0));
    }
    while no < tracks.len()
        invariant
            no <= tracks.len(),
            all == crate::track::points_of_tracks(tracks@),
            point_views(r@) == all_accurate(all, no as nat),
        decreases tracks.len() - no,
    {
        let mut kept = filter_accurate(&tracks[no].points);
        let ghost before = r@;
        let ghost added = kept@;
        r.append(&mut kept);
        proof {
            assert(all[no as int] == point_views(tracks@[no as int].points@));
            assert(point_views(r@) =~= point_views(before) + point_views(added));
        }
        no = no + 1;
    }
    r
}

/// The feature of the point with ordinal `id`.
pub fn point_feature_json(id: usize, pt: &GpsPoint) -> (r: Option<Json>)
    ensures
        optional_json(r) == point_feature(id as nat, pt@),
{
    let properties = point_properties(pt)?;
    let mut more: Vec<(String, Json)> = Vec::new();
    more.push(member("id", natural(id as u64)));
    proof {
        assert(member_views(more@) =~= seq![("id"@, JsonView::Number(int_text(id as int)))]);
    }
    Some(
        feature_json(geometry_json("Point", coordinate_json(pt.x, pt.y)), object(properties), more),
    )
}

/// Builds the GeoJSON document of tracks as points. `distance` is the
/// length of the way along the accurate points in meters, where the caller
/// has measured it.
pub fn track_points_json(tracks: &Vec<TrackData>, distance: Option<u64>) -> (r: Option<Json>)
    ensures
        optional_json(r) == points_document(crate::track::points_of_tracks(tracks@), distance),
{
    let points = collect_accurate(tracks);
    let ghost all = point_views(points@);
    let mut features: Vec<Json> = Vec::new();
    let mut i: usize = 0;
    proof {
        assert(item_views(features@) =~= Seq::<JsonView>::empty());
    }
    while i < points.len()
        invariant
            i <= points.len(),
            all == point_views(points@),
            all == all_accurate(crate::track::points_of_tracks(tracks@), tracks.len() as nat),
            point_features(all, i as nat) == Some(item_views(features@)),
        decreases points.len() - i,
    {
        let ghost before = item_views(features@);
        proof {
            assert(all[i as int] == points@[i as int]@);
            if point_feature(i as nat, all[i as int]) is None {
                assert(point_features(all, (i + 1) as nat) is None);
                lemma_point_features_fail(all, (i + 1) as nat, points.len() as nat);
            }
        }
        let f = point_feature_json(i, &points[i])?;
        features.push(f);
        proof {
            assert(item_views(features@) =~= before.push(f@));
        }
        i = i + 1;
    }
    let mut more: Vec<(String, Json)> = Vec::new();
    push_bbox(&mut more, bounding_box(&points));
    let ghost first = member_views(more@);
    more.push(member("stats", object(stats_json(&points, distance))));
    proof {
        assert(first =~= bbox_members(bbox_of(all)));
        assert(member_views(more@) =~= first + seq![
            ("stats"@, JsonView::Object(stats_members(all, distance))),
        ]);
    }
    Some(collection_json(features, more))
}

/// Builds a GeoJSON Point FeatureCollection: one feature for each accurate
/// point of the tracks, numbered in order, with the bounding box and the
/// statistics of these points.
///
/// Fails with `MalformedRecord` where the annotations of such a point are
/// no JSON object.
pub fn track_points(tracks: &Vec<TrackData>, distance: Option<u64>) -> (r: Result<String, Error>)
    ensures
        export_view(r) == export_of(
            points_document(crate::track::points_of_tracks(tracks@), distance),
        ),
{
    match track_points_json(tracks, distance) {
        Some(doc) => Ok(render(&doc)),
        None => Err(Error::MalformedRecord),
    }
}

/// What the last known position of a device holds, as mathematical values.
pub struct DeviceView {
    pub device_id: int,
    pub y: int,
    pub x: int,
    pub ts: Seq<char>,
    pub tid: Seq<char>,
    pub speed: Option<int>,
    pub elevation: Option<int>,
    pub accuracy: Option<int>,
    pub v_accuracy: Option<int>,
    pub cog: Option<int>,
}

/// The view of the last known position of a device.
pub open spec fn device_view(p: DevicePosition) -> DeviceView {
    DeviceView {
        device_id: p.device_id as int,
        y: p.y.e7 as int,
        x: p.x.e7 as int,
        ts: p.ts@,
        tid: p.tid@,
        speed: crate::db::opt_i16(p.speed),
        elevation: crate::db::opt_i16(p.elevation),
        accuracy: crate::db::opt_i32(p.accuracy),
        v_accuracy: crate::db::opt_i16(p.v_accuracy),
        cog: crate::db::opt_i16(p.cog),
    }
}

/// The views of the last known positions of devices.
pub open spec fn device_views(points: Seq<DevicePosition>) -> Seq<DeviceView> {
    Seq::new(points.len(), |i: int| device_view(points[i]))
}

/// The feature of the last known position of a device.
pub open spec fn device_feature(p: DeviceView) -> JsonView {
    feature(
        geometry("Point"@, coordinate(p.x, p.y)),
        JsonView::Object(
            seq![
                ("device_id"@, JsonView::Number(int_text(p.device_id))),
                ("time"@, JsonView::Text(p.ts)),
                ("tid"@, JsonView::Text(p.tid)),
                ("speed"@, number_or_null(p.speed)),
                ("elevation"@, number_or_null(p.elevation)),
                ("accuracy"@, number_or_null(p.accuracy)),
                ("v_accuracy"@, number_or_null(p.v_accuracy)),
                ("cog"@, number_or_null(p.cog)),
            ],
        ),
        seq![("id"@, JsonView::Number(int_text(p.device_id)))],
    )
}

/// The document of the last known positions of devices: a collection with
/// one feature for each device and the bounding box of all of them.
pub open spec fn positions_document(points: Seq<DeviceView>) -> JsonView {
    collection(
        Seq::new(points.len(), |i: int| device_feature(points[i])),
        bbox_members(bbox_of_places(Seq::new(points.len(), |i: int| (points[i].x, points[i].y)))),
    )
}

/// The feature of the last known position of a device.
pub fn device_feature_json(pt: &DevicePosition) -> (r: Json)
    ensures
        r@ == device_feature(device_view(*pt)),
{
    let mut properties: Vec<(String, Json)> = Vec::new();
    properties.push(member("device_id", integer(pt.device_id)));
    properties.push(member("time", text(pt.ts.as_str())));
    properties.push(member("tid", text(pt.tid.as_str())));
    properties.push(member("speed", optional_integer_json(widen_i16(pt.speed))));
    properties.push(member("elevation", optional_integer_json(widen_i16(pt.elevation))));
    properties.push(member("accuracy", optional_integer_json(widen_i32(pt.accuracy))));
    properties.push(member("v_accuracy", optional_integer_json(widen_i16(pt.v_accuracy))));
    properties.push(member("cog", optional_integer_json(widen_i16(pt.cog))));
    let mut more: Vec<(String, Json)> = Vec::new();
    more.push(member("id", integer(pt.device_id)));
    proof {
        let p = device_view(*pt);
        assert(member_views(properties@) =~= seq![
            ("device_id"@, JsonView::Number(int_text(p.device_id))),
            ("time"@, JsonView::Text(p.ts)),
            ("tid"@, JsonView::Text(p.tid)),
            ("speed"@, number_or_null(p.speed)),
            ("elevation"@, number_or_null(p.elevation)),
            ("accuracy"@, number_or_null(p.accuracy)),
            ("v_accuracy"@, number_or_null(p.v_accuracy)),
            ("cog"@, number_or_null(p.cog)),
        ]);
        assert(member_views(more@) =~= seq![("id"@, JsonView::Number(int_text(p.device_id)))]);
    }
    feature_json(geometry_json("Point", coordinate_json(pt.x, pt.y)), object(properties), more)
}

/// Builds the GeoJSON document of the last known positions of devices.
pub fn positions_json(points: &Vec<DevicePosition>) -> (r: Json)
    ensures
        r@ == positions_document(device_views(points@)),
{
    let ghost all = device_views(points@);
    let mut features: Vec<Json> = Vec::new();
    let mut places: Vec<(Degrees, Degrees)> = Vec::new();
    let mut i: usize = 0;
    while i < points.len()
        invariant
            i <= points.len(),
            all == device_views(points@),
            features.len() == i,
            places.len() == i,
            forall|j: int| 0 <= j < i ==> (#[trigger] features@[j])@ == device_feature(all[j]),
            forall|j: int|
                0 <= j < i ==> (#[trigger] places@[j]) == (points@[j].x, points@[j].y),
        decreases points.len() - i,
    {
        features.push(device_feature_json(&points[i]));
        places.push((points[i].x, points[i].y));
        i = i + 1;
    }
    let mut more: Vec<(String, Json)> = Vec::new();
    push_bbox(&mut more, bounding_box_of_places(&places));
    proof {
        assert(item_views(features@) =~= Seq::new(all.len(), |i: int| device_feature(all[i])));
        assert(place_views(places@) =~= Seq::new(all.len(), |i: int| (all[i].x, all[i].y)));
        assert(member_views(more@) =~= bbox_members(bbox_of_places(place_views(places@))));
    }
    collection_json(features, more)
}

/// Builds a GeoJSON Point FeatureCollection of the last known positions of
/// devices, without any filter, with the bounding box of all of them.
pub fn positions(points: &Vec<DevicePosition>) -> (r: Result<String, Error>)
    ensures
        export_view(r) == Ok::<Seq<char>, Error>(json_text(positions_document(device_views(points@)))),
{
    Ok(render(&positions_json(points)))
}

} // verus!

//! The records that storage hands to the track functions.
//!
//! Timestamps are texts in the format `2025-02-19 06:46:54+00`. Coordinates
//! are fixed-point degrees, `x` the longitude and `y` the latitude.

use crate::error::Error;
use crate::geo::Degrees;
use crate::json::{json_document, json_text, parse, render, Json};
use crate::text::{
    chars_of, find_char, is_text_le, lemma_text_le_total, lemma_text_le_transitive,
    position_from, slice_chars, split, string_of, text_le,
};
use vstd::prelude::*;

verus! {

/// Track identification.
#[derive(Debug)]
pub struct TrackId {
    pub user: String,
    pub device: String,
    pub ts_start: String,
}

/// One stored position of a track.
#[derive(Debug)]
pub struct GpsPoint {
    /// Latitude.
    pub y: Degrees,
    /// Longitude.
    pub x: Degrees,
    /// Timestamp in the format `2025-02-19 06:46:54+00`.
    pub ts: String,
    /// Speed in km/h.
    pub speed: Option<i16>,
    /// Elevation in meters.
    pub elevation: Option<i16>,
    /// Accuracy in meters.
    pub accuracy: Option<i32>,
    /// Vertical accuracy in meters.
    pub v_accuracy: Option<i16>,
    /// Course over ground in degrees.
    pub cog: Option<i16>,
    /// Further members, as the text of a JSON object.
    pub annotations: String,
}

/// The points of one device on one day, in the order of their insertion.
#[derive(Debug)]
pub struct TrackData {
    pub user: String,
    pub device: String,
    pub date: String,
    pub points: Vec<GpsPoint>,
}

/// The summary of one device's track on one day.
#[derive(Debug)]
pub struct TrackInfo {
    pub user: String,
    pub device: String,
    pub date: String,
    pub ts_start: String,
    pub ts_end: String,
    pub speed_min: Option<i16>,
    pub speed_max: Option<i16>,
    pub elevation_min: Option<i16>,
    pub elevation_max: Option<i16>,
}

/// The last known position of a device.
#[derive(Debug)]
pub struct DevicePosition {
    pub device_id: i64,
    /// Latitude.
    pub y: Degrees,
    /// Longitude.
    pub x: Degrees,
    pub ts: String,
    pub tid: String,
    pub speed: Option<i16>,
    pub elevation: Option<i16>,
    pub accuracy: Option<i32>,
    pub v_accuracy: Option<i16>,
    pub cog: Option<i16>,
}

/// What a stored position holds, as mathematical values.
pub struct PointView {
    pub y: int,
    pub x: int,
    pub ts: Seq<char>,
    pub speed: Option<int>,
    pub elevation: Option<int>,
    pub accuracy: Option<int>,
    pub v_accuracy: Option<int>,
    pub cog: Option<int>,
    pub annotations: Seq<char>,
}

/// An optional 16-bit number as an optional integer.
pub open spec fn opt_i16(v: Option<i16>) -> Option<int> {
    match v {
        Some(x) => Some(x as int),
        None => None,
    }
}

/// An optional 32-bit number as an optional integer.
pub open spec fn opt_i32(v: Option<i32>) -> Option<int> {
    match v {
        Some(x) => Some(x as int),
        None => None,
    }
}

impl View for GpsPoint {
    type V = PointView;

    open spec fn view(&self) -> PointView {
        PointView {
            y: self.y.e7 as int,
            x: self.x.e7 as int,
            ts: self.ts@,
            speed: opt_i16(self.speed),
            elevation: opt_i16(self.elevation),
            accuracy: opt_i32(self.accuracy),
            v_accuracy: opt_i16(self.v_accuracy),
            cog: opt_i16(self.cog),
            annotations: self.annotations@,
        }
    }
}

/// The views of a sequence of points.
pub open spec fn point_views(points: Seq<GpsPoint>) -> Seq<PointView> {
    Seq::new(points.len(), |i: int| points[i]@)
}

/// What a track holds, as mathematical values.
pub struct TrackView {
    pub user: Seq<char>,
    pub device: Seq<char>,
    pub date: Seq<char>,
    pub points: Seq<PointView>,
}

impl View for TrackData {
    type V = TrackView;

    open spec fn view(&self) -> TrackView {
        TrackView {
            user: self.user@,
            device: self.device@,
            date: self.date@,
            points: point_views(self.points@),
        }
    }
}

/// The views of a sequence of tracks.
pub open spec fn track_views(tracks: Seq<TrackData>) -> Seq<TrackView> {
    Seq::new(tracks.len(), |i: int| tracks[i]@)
}

/// The date of a timestamp: its text up to the first space.
pub open spec fn date_of(ts: Seq<char>) -> Seq<char> {
    ts.subrange(0, position_from(ts, ' ', 0))
}

impl TrackId {
    /// The date on which the track starts: the text of `ts_start` up to its
    /// first space, or all of it where it holds none.
    pub fn date(&self) -> (r: String)
        ensures
            r@ == date_of(self.ts_start@),
            r@ == split(self.ts_start@, ' ')[0],
    {
        let chars = chars_of(self.ts_start.as_str());
        let k = find_char(&chars, ' ', 0);
        let head = slice_chars(&chars, 0, k);
        string_of(&head)
    }
}

impl GpsPoint {
    /// A copy of the point.
    pub fn copy(&self) -> (r: GpsPoint)
        ensures
            r == *self,
    {
        GpsPoint {
            y: self.y,
            x: self.x,
            ts: self.ts.clone(),
            speed: self.speed,
            elevation: self.elevation,
            accuracy: self.accuracy,
            v_accuracy: self.v_accuracy,
            cog: self.cog,
            annotations: self.annotations.clone(),
        }
    }
}

impl TrackData {
    /// The track of `track_id` with the points that storage returned for it.
    pub fn new(track_id: &TrackId, points: Vec<GpsPoint>) -> (r: TrackData)
        ensures
            r.user@ == track_id.user@,
            r.device@ == track_id.device@,
            r.date@ == date_of(track_id.ts_start@),
            r.points == points,
    {
        TrackData {
            user: track_id.user.clone(),
            device: track_id.device.clone(),
            date: track_id.date(),
            points,
        }
    }
}

/// The text of a JSON value that is an object; `SchemaMismatch` for any
/// other value. Annotations are held as such a text.
pub fn deserialize_dict_to_string(dict: &Json) -> (r: Result<String, Error>)
    ensures
        match r {
            Ok(s) => dict@ is Object && s@ == json_text(dict@),
            Err(e) => e == Error::SchemaMismatch && !(dict@ is Object),
        },
{
    match dict {
        Json::Object(_) => Ok(render(dict)),
        _ => Err(Error::SchemaMismatch),
    }
}

/// The JSON value that a stored text writes; `MalformedRecord` where it
/// writes none.
pub fn serialize_raw_json(v: &str) -> (r: Result<Json, Error>)
    ensures
        match r {
            Ok(j) => json_document(vstd::utf8::encode_utf8(v@)) == Some(j@),
            Err(e) => e == Error::MalformedRecord && json_document(vstd::utf8::encode_utf8(v@)) is None,
        },
{
    match parse(v.as_bytes()) {
        Some(j) => Ok(j),
        None => Err(Error::MalformedRecord),
    }
}

/// The tracks that have points, in their order.
pub fn non_empty_tracks(tracks: Vec<TrackData>) -> (r: Vec<TrackData>)
    ensures
        r@ == tracks@.filter(|t: TrackData| t.points@.len() > 0),
{
    let ghost all = tracks@;
    let ghost pred = |t: TrackData| t.points@.len() > 0;
    let mut rest = tracks;
    let mut kept: Vec<TrackData> = Vec::new();
    proof {
        reveal(Seq::filter);
        assert(all.subrange(all.len() as int, all.len() as int) =~= Seq::empty());
        assert(kept@.reverse() =~= Seq::empty());
    }
    while rest.len() > 0
        invariant
            rest.len() <= all.len(),
            rest@ == all.subrange(0, rest.len() as int),
            pred == |t: TrackData| t.points@.len() > 0,
            kept@.reverse() == all.subrange(rest.len() as int, all.len() as int).filter(pred),
        decreases rest.len(),
    {
        let ghost n = rest.len() as int;
        let ghost kept_before = kept@;
        let t = rest.pop().unwrap();
        proof {
            assert(rest@ =~= all.subrange(0, n - 1));
            let one = seq![all[n - 1]];
            assert(all.subrange(n - 1, all.len() as int) =~= one + all.subrange(
                n,
                all.len() as int,
            ));
            Seq::filter_distributes_over_add(one, all.subrange(n, all.len() as int), pred);
            assert(one.drop_last() =~= Seq::empty());
            assert(one.filter(pred) =~= if pred(all[n - 1]) {
                one
            } else {
                Seq::empty()
            }) by {
                reveal_with_fuel(Seq::filter, 2);
            }
        }
        if t.points.len() > 0 {
            kept.push(t);
            proof {
                assert(kept_before.push(all[n - 1]).reverse() =~= seq![all[n - 1]]
                    + kept_before.reverse());
            }
        }
    }
    proof {
        assert(all.subrange(0, all.len() as int) =~= all);
    }
    let mut r: Vec<TrackData> = Vec::new();
    let ghost turned = kept@;
    while kept.len() > 0
        invariant
            kept.len() <= turned.len(),
            kept@ == turned.subrange(0, kept.len() as int),
            r@ == turned.reverse().subrange(0, turned.len() - kept.len()),
        decreases kept.len(),
    {
        let ghost n = kept.len() as int;
        let t = kept.pop().unwrap();
        proof {
            assert(kept@ =~= turned.subrange(0, n - 1));
        }
        r.push(t);
        proof {
            assert(turned.reverse()[turned.len() - n] == turned[n - 1]);
            assert(turned.reverse().subrange(0, turned.len() - n + 1) =~= turned.reverse().subrange(
                0,
                turned.len() - n,
            ).push(turned[n - 1]));
        }
    }
    proof {
        assert(turned.reverse().subrange(0, turned.len() as int) =~= turned.reverse());
    }
    r
}

/// The index at or after `from` of the first summary that ends before
/// `end`, or the number of summaries where none does.
pub open spec fn place_for(sorted: Seq<TrackInfo>, end: Seq<char>, from: int) -> int
    decreases sorted.len() - from,
{
    if from < 0 || from >= sorted.len() {
        sorted.len() as int
    } else if !text_le(end, sorted[from].ts_end@) {
        from
    } else {
        place_for(sorted, end, from + 1)
    }
}

/// The summaries ordered by their end, latest first; summaries with one end
/// keep their order.
pub open spec fn latest_first(infos: Seq<TrackInfo>) -> Seq<TrackInfo>
    decreases infos.len(),
{
    if infos.len() == 0 {
        Seq::empty()
    } else {
        let first = latest_first(infos.drop_last());
        first.insert(place_for(first, infos.last().ts_end@, 0), infos.last())
    }
}

/// Whether every summary ends no later than the ones before it.
pub open spec fn ends_descend(infos: Seq<TrackInfo>) -> bool {
    forall|i: int, j: int|
        0 <= i < j < infos.len() ==> text_le(
            #[trigger] infos[j].ts_end@,
            #[trigger] infos[i].ts_end@,
        )
}

/// The place for a new summary lies within the summaries; all before it end
/// no earlier than the new one, and the one at it ends earlier.
pub proof fn lemma_place_for(sorted: Seq<TrackInfo>, end: Seq<char>, from: int)
    requires
        0 <= from <= sorted.len(),
    ensures
        from <= place_for(sorted, end, from) <= sorted.len(),
        forall|i: int|
            from <= i < place_for(sorted, end, from) ==> text_le(end, #[trigger] sorted[i].ts_end@),
        place_for(sorted, end, from) < sorted.len() ==> !text_le(
            end,
            sorted[place_for(sorted, end, from)].ts_end@,
        ),
    decreases sorted.len() - from,
{
    if from < sorted.len() && text_le(end, sorted[from].ts_end@) {
        lemma_place_for(sorted, end, from + 1);
    }
}

/// Ordering keeps every summary, each as often as it was given, and puts
/// the latest end first.
pub proof fn lemma_latest_first(infos: Seq<TrackInfo>)
    ensures
        latest_first(infos).len() == infos.len(),
        latest_first(infos).to_multiset() == infos.to_multiset(),
        ends_descend(latest_first(infos)),
    decreases infos.len(),
{
    broadcast use vstd::seq_lib::group_to_multiset_ensures;

    if infos.len() > 0 {
        let init = infos.drop_last();
        let x = infos.last();
        lemma_latest_first(init);
        let first = latest_first(init);
        let k = place_for(first, x.ts_end@, 0);
        lemma_place_for(first, x.ts_end@, 0);
        let r = first.insert(k, x);
        assert(infos =~= init.push(x));
        assert(r.to_multiset() =~= first.to_multiset().insert(x)) by {
            vstd::seq_lib::to_multiset_insert(first, k, x);
        }
        assert(infos.to_multiset() =~= init.to_multiset().insert(x));
        assert forall|i: int, j: int| 0 <= i < j < r.len() implies text_le(
            #[trigger] r[j].ts_end@,
            #[trigger] r[i].ts_end@,
        ) by {
            if j < k {
                assert(r[i] == first[i] && r[j] == first[j]);
            } else if j == k {
                assert(r[i] == first[i]);
            } else if i == k {
                assert(r[j] == first[j - 1]);
                lemma_text_le_total(x.ts_end@, first[k].ts_end@);
                if j - 1 > k {
                    assert(text_le(first[j - 1].ts_end@, first[k].ts_end@));
                    lemma_text_le_transitive(first[j - 1].ts_end@, first[k].ts_end@, x.ts_end@);
                }
            } else if i < k {
                assert(r[i] == first[i] && r[j] == first[j - 1]);
            } else {
                assert(r[i] == first[i - 1] && r[j] == first[j - 1]);
            }
        }
    } else {
        assert(latest_first(infos) =~= infos);
    }
}

/// The summaries ordered by their end, latest first; summaries with one end
/// keep their order.
pub fn sort_by_latest_end(infos: Vec<TrackInfo>) -> (r: Vec<TrackInfo>)
    ensures
        r@ == latest_first(infos@),
        r@.to_multiset() == infos@.to_multiset(),
        ends_descend(r@),
{
    let ghost all = infos@;
    let mut rest = infos;
    let mut r: Vec<TrackInfo> = Vec::new();
    let ghost mut done: int = 0;
    proof {
        assert(all.subrange(0, 0) =~= Seq::empty());
        assert(rest@ =~= all.subrange(0, all.len() as int));
    }
    while rest.len() > 0
        invariant
            0 <= done <= all.len(),
            rest@ == all.subrange(done, all.len() as int),
            r@ == latest_first(all.subrange(0, done)),
        decreases rest.len(),
    {
        let x = rest.remove(0);
        proof {
            assert(x == all[done]);
            assert(rest@ =~= all.subrange(done + 1, all.len() as int));
            assert(all.subrange(0, done + 1).drop_last() =~= all.subrange(0, done));
            assert(all.subrange(0, done + 1).last() == x);
            lemma_latest_first(all.subrange(0, done));
        }
        let end = chars_of(x.ts_end.as_str());
        let mut k: usize = 0;
        while k < r.len() && is_text_le(&end, &chars_of(r[k].ts_end.as_str()))
            invariant
                k <= r.len(),
                end@ == x.ts_end@,
                place_for(r@, x.ts_end@, 0) == place_for(r@, x.ts_end@, k as int),
            decreases r.len() - k,
        {
            k = k + 1;
        }
        r.insert(k, x);
        proof {
            done = done + 1;
        }
    }
    proof {
        assert(all.subrange(0, all.len() as int) =~= all);
        lemma_latest_first(all);
    }
    r
}

/// Whether no point is earlier than a point before it, by the order of the
/// timestamp texts, which for the stored form is the order of time.
pub open spec fn times_ascend(points: Seq<PointView>) -> bool {
    forall|i: int, j: int|
        0 <= i < j < points.len() ==> text_le(#[trigger] points[i].ts, #[trigger] points[j].ts)
}

impl TrackData {
    /// Whether the points of the track are in the order of their time.
    pub open spec fn ordered(&self) -> bool {
        times_ascend(point_views(self.points@))
    }

    /// Whether the points of the track are in the order of their time.
    pub fn is_ordered(&self) -> (r: bool)
        ensures
            r == self.ordered(),
    {
        let ghost all = point_views(self.points@);
        if self.points.len() < 2 {
            return true;
        }
        let mut i: usize = 1;
        while i < self.points.len()
            invariant
                1 <= i <= self.points.len(),
                all == point_views(self.points@),
                times_ascend(all.subrange(0, i as int)),
            decreases self.points.len() - i,
        {
            let before = chars_of(self.points[i - 1].ts.as_str());
            let here = chars_of(self.points[i].ts.as_str());
            if !is_text_le(&before, &here) {
                proof {
                    assert(all[i - 1].ts == before@ && all[i as int].ts == here@);
                }
                return false;
            }
            proof {
                let next = all.subrange(0, i + 1);
                assert forall|a: int, b: int| 0 <= a < b < next.len() implies text_le(
                    #[trigger] next[a].ts,
                    #[trigger] next[b].ts,
                ) by {
                    let prev = all.subrange(0, i as int);
                    if b < i {
                        assert(next[a] == prev[a] && next[b] == prev[b]);
                    } else if a == i - 1 {
                    } else {
                        assert(next[a] == prev[a] && prev[i - 1] == all[i - 1]);
                        assert(text_le(prev[a].ts, prev[i - 1].ts));
                        lemma_text_le_transitive(all[a].ts, all[i - 1].ts, all[i as int].ts);
                    }
                }
            }
            i = i + 1;
        }
        proof {
            assert(all.subrange(0, self.points.len() as int) =~= all);
        }
        true
    }
}

} // verus!

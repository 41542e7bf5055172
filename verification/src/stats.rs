//! Statistics of a sequence of points: bounding box, elevation and speed
//! ranges, and ascent.
//!
//! An attribute that no point has gives no range; an empty sequence gives no
//! bounding box. The distance along the points is a sum over the pairs of
//! neighbours, which `crate::track::segments` lists.

use crate::db::{point_views, GpsPoint, PointView};
use crate::geo::Degrees;
use vstd::prelude::*;

verus! {

/// The least element of a sequence; zero for the empty sequence.
pub open spec fn seq_min(s: Seq<int>) -> int
    decreases s.len(),
{
    if s.len() == 0 {
        0
    } else if s.len() == 1 {
        s[0]
    } else {
        let m = seq_min(s.drop_last());
        if s.last() < m {
            s.last()
        } else {
            m
        }
    }
}

/// The greatest element of a sequence; zero for the empty sequence.
pub open spec fn seq_max(s: Seq<int>) -> int
    decreases s.len(),
{
    if s.len() == 0 {
        0
    } else if s.len() == 1 {
        s[0]
    } else {
        let m = seq_max(s.drop_last());
        if s.last() > m {
            s.last()
        } else {
            m
        }
    }
}

/// The least and the greatest element of a sequence, or `None` where it is
/// empty.
pub open spec fn extent_of(s: Seq<int>) -> Option<(int, int)> {
    if s.len() == 0 {
        None
    } else {
        Some((seq_min(s), seq_max(s)))
    }
}

/// The least and greatest element of a non-empty sequence are elements of
/// it, and every element lies between them.
pub proof fn lemma_extent(s: Seq<int>)
    requires
        s.len() > 0,
    ensures
        s.contains(seq_min(s)),
        s.contains(seq_max(s)),
        forall|i: int| 0 <= i < s.len() ==> seq_min(s) <= #[trigger] s[i] <= seq_max(s),
    decreases s.len(),
{
    if s.len() == 1 {
        assert(s[0] == seq_min(s));
    } else {
        let init = s.drop_last();
        lemma_extent(init);
        let a = choose|i: int| 0 <= i < init.len() && init[i] == seq_min(init);
        let b = choose|i: int| 0 <= i < init.len() && init[i] == seq_max(init);
        assert(s[a] == init[a] && s[b] == init[b]);
        assert(s[s.len() - 1] == s.last());
        assert forall|i: int| 0 <= i < s.len() implies seq_min(s) <= #[trigger] s[i] <= seq_max(
            s,
        ) by {
            if i < init.len() {
                assert(init[i] == s[i]);
            }
        }
    }
}

/// The values that are present, in their order.
pub open spec fn present(s: Seq<Option<int>>) -> Seq<int>
    decreases s.len(),
{
    if s.len() == 0 {
        Seq::empty()
    } else {
        match s.last() {
            Some(v) => present(s.drop_last()).push(v),
            None => present(s.drop_last()),
        }
    }
}

/// The sum of the rises between neighbouring values.
pub open spec fn ascent(s: Seq<int>) -> int
    decreases s.len(),
{
    if s.len() < 2 {
        0
    } else {
        let rise = s[s.len() - 1] - s[s.len() - 2];
        ascent(s.drop_last()) + if rise > 0 {
            rise
        } else {
            0
        }
    }
}

/// The longitudes of the points.
pub open spec fn xs(points: Seq<PointView>) -> Seq<int> {
    Seq::new(points.len(), |i: int| points[i].x)
}

/// The latitudes of the points.
pub open spec fn ys(points: Seq<PointView>) -> Seq<int> {
    Seq::new(points.len(), |i: int| points[i].y)
}

/// The elevations of the points that have one.
pub open spec fn elevations(points: Seq<PointView>) -> Seq<int> {
    present(Seq::new(points.len(), |i: int| points[i].elevation))
}

/// The speeds of the points that have one.
pub open spec fn speeds(points: Seq<PointView>) -> Seq<int> {
    present(Seq::new(points.len(), |i: int| points[i].speed))
}

/// The smallest rectangle of longitudes and latitudes that holds all points.
#[derive(Clone, Copy, PartialEq, Eq, Structural, Debug)]
pub struct BoundingBox {
    pub min_x: Degrees,
    pub min_y: Degrees,
    pub max_x: Degrees,
    pub max_y: Degrees,
}

/// The least and the greatest of some values.
#[derive(Clone, Copy, PartialEq, Eq, Structural, Debug)]
pub struct Range {
    pub min: i16,
    pub max: i16,
}

/// The statistics of a sequence of points.
#[derive(Clone, Copy, PartialEq, Eq, Structural, Debug)]
pub struct TrackStats {
    /// The bounding box; `None` without points.
    pub bbox: Option<BoundingBox>,
    /// The range of elevations; `None` where no point has one.
    pub elevation: Option<Range>,
    /// The range of speeds; `None` where no point has one.
    pub speed: Option<Range>,
    /// The sum of the rises between neighbouring elevations, in meters.
    pub elevation_gain: u64,
    /// The number of pairs of neighbouring points, over which the distance
    /// is summed.
    pub legs: usize,
}

/// The bounding box of the points, as integers in the order
/// (min x, min y, max x, max y).
pub open spec fn bbox_of(points: Seq<PointView>) -> Option<(int, int, int, int)> {
    if points.len() == 0 {
        None
    } else {
        Some((seq_min(xs(points)), seq_min(ys(points)), seq_max(xs(points)), seq_max(ys(points))))
    }
}

impl BoundingBox {
    /// The box as integers in the order (min x, min y, max x, max y).
    pub open spec fn view(&self) -> (int, int, int, int) {
        (self.min_x.e7 as int, self.min_y.e7 as int, self.max_x.e7 as int, self.max_y.e7 as int)
    }
}

/// The view of an optional bounding box.
pub open spec fn bbox_view(b: Option<BoundingBox>) -> Option<(int, int, int, int)> {
    match b {
        Some(b) => Some(b.view()),
        None => None,
    }
}

/// The view of an optional range.
pub open spec fn range_view(r: Option<Range>) -> Option<(int, int)> {
    match r {
        Some(r) => Some((r.min as int, r.max as int)),
        None => None,
    }
}

/// The bounding box of places given by longitude and latitude, as integers
/// in the order (min x, min y, max x, max y); `None` without places.
pub open spec fn bbox_of_places(places: Seq<(int, int)>) -> Option<(int, int, int, int)> {
    let px = Seq::new(places.len(), |i: int| places[i].0);
    let py = Seq::new(places.len(), |i: int| places[i].1);
    if places.len() == 0 {
        None
    } else {
        Some((seq_min(px), seq_min(py), seq_max(px), seq_max(py)))
    }
}

/// The places as pairs of integers.
pub open spec fn place_views(places: Seq<(Degrees, Degrees)>) -> Seq<(int, int)> {
    Seq::new(places.len(), |i: int| (places[i].0.e7 as int, places[i].1.e7 as int))
}

/// The places of the points: longitude and latitude.
pub open spec fn places_of(points: Seq<PointView>) -> Seq<(int, int)> {
    Seq::new(points.len(), |i: int| (points[i].x, points[i].y))
}

/// The bounding box of the points is that of their places.
pub proof fn lemma_bbox_of_places(points: Seq<PointView>)
    ensures
        bbox_of(points) == bbox_of_places(places_of(points)),
{
    let places = places_of(points);
    assert(Seq::new(places.len(), |i: int| places[i].0) =~= xs(points));
    assert(Seq::new(places.len(), |i: int| places[i].1) =~= ys(points));
}

/// The bounding box of places given by longitude and latitude; `None`
/// without places.
pub fn bounding_box_of_places(places: &Vec<(Degrees, Degrees)>) -> (r: Option<BoundingBox>)
    ensures
        bbox_view(r) == bbox_of_places(place_views(places@)),
{
    if places.len() == 0 {
        return None;
    }
    let ghost all = place_views(places@);
    let ghost px = Seq::new(all.len(), |i: int| all[i].0);
    let ghost py = Seq::new(all.len(), |i: int| all[i].1);
    let mut b = BoundingBox {
        min_x: places[0].0,
        min_y: places[0].1,
        max_x: places[0].0,
        max_y: places[0].1,
    };
    let mut i: usize = 1;
    proof {
        assert(px.subrange(0, 1)[0] == all[0].0);
        assert(py.subrange(0, 1)[0] == all[0].1);
    }
    while i < places.len()
        invariant
            1 <= i <= places.len(),
            all == place_views(places@),
            px == Seq::new(all.len(), |i: int| all[i].0),
            py == Seq::new(all.len(), |i: int| all[i].1),
            b.min_x.e7 == seq_min(px.subrange(0, i as int)),
            b.max_x.e7 == seq_max(px.subrange(0, i as int)),
            b.min_y.e7 == seq_min(py.subrange(0, i as int)),
            b.max_y.e7 == seq_max(py.subrange(0, i as int)),
        decreases places.len() - i,
    {
        proof {
            assert(px.subrange(0, i + 1).drop_last() =~= px.subrange(0, i as int));
            assert(py.subrange(0, i + 1).drop_last() =~= py.subrange(0, i as int));
            assert(px.subrange(0, i + 1).last() == places@[i as int].0.e7);
            assert(py.subrange(0, i + 1).last() == places@[i as int].1.e7);
        }
        let p = places[i];
        if p.0.e7 < b.min_x.e7 {
            b.min_x = p.0;
        }
        if p.0.e7 > b.max_x.e7 {
            b.max_x = p.0;
        }
        if p.1.e7 < b.min_y.e7 {
            b.min_y = p.1;
        }
        if p.1.e7 > b.max_y.e7 {
            b.max_y = p.1;
        }
        i = i + 1;
    }
    proof {
        assert(px.subrange(0, places.len() as int) =~= px);
        assert(py.subrange(0, places.len() as int) =~= py);
    }
    Some(b)
}

/// The bounding box of the points; `None` without points.
pub fn bounding_box(points: &Vec<GpsPoint>) -> (r: Option<BoundingBox>)
    ensures
        bbox_view(r) == bbox_of(point_views(points@)),
{
    let mut places: Vec<(Degrees, Degrees)> = Vec::new();
    let mut i: usize = 0;
    while i < points.len()
        invariant
            i <= points.len(),
            places.len() == i,
            forall|j: int|
                0 <= j < i ==> (#[trigger] places@[j]) == (points@[j].x, points@[j].y),
        decreases points.len() - i,
    {
        places.push((points[i].x, points[i].y));
        i = i + 1;
    }
    proof {
        assert(place_views(places@) =~= places_of(point_views(points@)));
        lemma_bbox_of_places(point_views(points@));
    }
    bounding_box_of_places(&places)
}

/// The range with one more value taken in.
pub fn widen(range: Option<Range>, v: i16) -> (r: Option<Range>)
    ensures
        r == Some(
            match range {
                Some(old) => Range {
                    min: if v < old.min {
                        v
                    } else {
                        old.min
                    },
                    max: if v > old.max {
                        v
                    } else {
                        old.max
                    },
                },
                None => Range { min: v, max: v },
            },
        ),
{
    match range {
        Some(old) => Some(
            Range {
                min: if v < old.min {
                    v
                } else {
                    old.min
                },
                max: if v > old.max {
                    v
                } else {
                    old.max
                },
            },
        ),
        None => Some(Range { min: v, max: v }),
    }
}

/// Taking one more value into the range of a sequence gives the range of
/// the sequence with that value appended.
pub proof fn lemma_extent_push(s: Seq<int>, v: int)
    ensures
        extent_of(s.push(v)) == Some(
            match extent_of(s) {
                Some((lo, hi)) => (
                    if v < lo {
                        v
                    } else {
                        lo
                    },
                    if v > hi {
                        v
                    } else {
                        hi
                    },
                ),
                None => (v, v),
            },
        ),
{
    assert(s.push(v).drop_last() =~= s);
}

/// The range of the elevations that are present.
pub fn elevation_range(points: &Vec<GpsPoint>) -> (r: Option<Range>)
    ensures
        range_view(r) == extent_of(elevations(point_views(points@))),
{
    let ghost all = Seq::new(points.len() as nat, |i: int| point_views(points@)[i].elevation);
    let mut r: Option<Range> = None;
    let mut i: usize = 0;
    proof {
        assert(all.subrange(0, 0) =~= Seq::<Option<int>>::empty());
    }
    while i < points.len()
        invariant
            i <= points.len(),
            all == Seq::new(points.len() as nat, |i: int| point_views(points@)[i].elevation),
            range_view(r) == extent_of(present(all.subrange(0, i as int))),
        decreases points.len() - i,
    {
        proof {
            assert(all.subrange(0, i + 1).drop_last() =~= all.subrange(0, i as int));
            assert(all.subrange(0, i + 1).last() == points@[i as int]@.elevation);
        }
        if let Some(v) = points[i].elevation {
            proof {
                lemma_extent_push(present(all.subrange(0, i as int)), v as int);
            }
            r = widen(r, v);
        }
        i = i + 1;
    }
    proof {
        assert(all.subrange(0, points.len() as int) =~= all);
    }
    r
}

/// The range of the speeds that are present.
pub fn speed_range(points: &Vec<GpsPoint>) -> (r: Option<Range>)
    ensures
        range_view(r) == extent_of(speeds(point_views(points@))),
{
    let ghost all = Seq::new(points.len() as nat, |i: int| point_views(points@)[i].speed);
    let mut r: Option<Range> = None;
    let mut i: usize = 0;
    proof {
        assert(all.subrange(0, 0) =~= Seq::<Option<int>>::empty());
    }
    while i < points.len()
        invariant
            i <= points.len(),
            all == Seq::new(points.len() as nat, |i: int| point_views(points@)[i].speed),
            range_view(r) == extent_of(present(all.subrange(0, i as int))),
        decreases points.len() - i,
    {
        proof {
            assert(all.subrange(0, i + 1).drop_last() =~= all.subrange(0, i as int));
            assert(all.subrange(0, i + 1).last() == points@[i as int]@.speed);
        }
        if let Some(v) = points[i].speed {
            proof {
                lemma_extent_push(present(all.subrange(0, i as int)), v as int);
            }
            r = widen(r, v);
        }
        i = i + 1;
    }
    proof {
        assert(all.subrange(0, points.len() as int) =~= all);
    }
    r
}

/// The ascent never falls when a value is appended, and is never negative.
pub proof fn lemma_ascent_grows(s: Seq<int>)
    ensures
        ascent(s) >= 0,
        s.len() > 0 ==> ascent(s) >= ascent(s.drop_last()),
    decreases s.len(),
{
    if s.len() >= 2 {
        lemma_ascent_grows(s.drop_last());
    }
}

/// The ascent as far as 64 bits hold it.
pub open spec fn capped(v: int) -> int {
    if v > u64::MAX {
        u64::MAX as int
    } else {
        v
    }
}

/// The sum of the rises between neighbouring elevations, among the points
/// that have one; where the sum exceeds 64 bits, the greatest 64-bit number.
pub fn elevation_gain(points: &Vec<GpsPoint>) -> (r: u64)
    ensures
        r == capped(ascent(elevations(point_views(points@)))),
{
    let ghost all = Seq::new(points.len() as nat, |i: int| point_views(points@)[i].elevation);
    let mut gain: u64 = 0;
    let mut last: Option<i16> = None;
    let mut i: usize = 0;
    proof {
        assert(all.subrange(0, 0) =~= Seq::<Option<int>>::empty());
    }
    while i < points.len()
        invariant
            i <= points.len(),
            all == Seq::new(points.len() as nat, |i: int| point_views(points@)[i].elevation),
            gain == capped(ascent(present(all.subrange(0, i as int)))),
            match last {
                Some(v) => present(all.subrange(0, i as int)).len() > 0 && present(
                    all.subrange(0, i as int),
                ).last() == v,
                None => present(all.subrange(0, i as int)).len() == 0,
            },
        decreases points.len() - i,
    {
        let ghost seen = present(all.subrange(0, i as int));
        proof {
            assert(all.subrange(0, i + 1).drop_last() =~= all.subrange(0, i as int));
            assert(all.subrange(0, i + 1).last() == points@[i as int]@.elevation);
        }
        if let Some(v) = points[i].elevation {
            proof {
                assert(seen.push(v as int).drop_last() =~= seen);
                lemma_ascent_grows(seen);
                lemma_ascent_grows(seen.push(v as int));
            }
            if let Some(before) = last {
                if v > before {
                    let rise: u64 = (v as i32 - before as i32) as u64;
                    gain = gain.saturating_add(rise);
                }
            }
            last = Some(v);
        }
        i = i + 1;
    }
    proof {
        assert(all.subrange(0, points.len() as int) =~= all);
    }
    gain
}

/// The statistics of the points.
pub fn track_stats(points: &Vec<GpsPoint>) -> (r: TrackStats)
    ensures
        bbox_view(r.bbox) == bbox_of(point_views(points@)),
        range_view(r.elevation) == extent_of(elevations(point_views(points@))),
        range_view(r.speed) == extent_of(speeds(point_views(points@))),
        r.elevation_gain == capped(ascent(elevations(point_views(points@)))),
        r.legs == if points.len() >= 2 {
            points.len() - 1
        } else {
            0
        },
{
    TrackStats {
        bbox: bounding_box(points),
        elevation: elevation_range(points),
        speed: speed_range(points),
        elevation_gain: elevation_gain(points),
        legs: if points.len() >= 2 {
            points.len() - 1
        } else {
            0
        },
    }
}

} // verus!

//! Assembly of tracks from stored points.
//!
//! A point whose accuracy is present and is 200 meters or more is left out;
//! a point without accuracy is kept. What is left of a track is taken whole,
//! or as one segment for each pair of neighbouring points. The renderers
//! take points that went through this filter and apply none of their own.

use crate::db::{point_views, times_ascend, GpsPoint, PointView, TrackData};
use crate::text::text_le;
use vstd::prelude::*;

verus! {

/// The accuracy, in meters, from which on a point is left out.
pub const MAX_ACCURACY: i32 = 200;

/// Whether a point is accurate enough to be kept.
pub open spec fn within_accuracy(p: PointView) -> bool {
    match p.accuracy {
        Some(a) => a < 200,
        None => true,
    }
}

/// The test by which points are kept.
pub open spec fn accuracy_filter() -> spec_fn(PointView) -> bool {
    |p: PointView| within_accuracy(p)
}

/// The points that are accurate enough, in their order.
pub open spec fn accurate(points: Seq<PointView>) -> Seq<PointView> {
    points.filter(accuracy_filter())
}

/// Filtering a sequence with one more point keeps that point exactly when
/// it is accurate enough.
pub proof fn lemma_accurate_push(points: Seq<PointView>, p: PointView)
    ensures
        accurate(points.push(p)) == if within_accuracy(p) {
            accurate(points).push(p)
        } else {
            accurate(points)
        },
{
    reveal(Seq::filter);
    assert(points.push(p).drop_last() =~= points);
}

/// No point with an accuracy of 200 meters or more is among the kept ones,
/// and every kept point is one of the given points.
pub proof fn lemma_accurate_members(points: Seq<PointView>, i: int)
    requires
        0 <= i < accurate(points).len(),
    ensures
        within_accuracy(accurate(points)[i]),
        points.contains(accurate(points)[i]),
    decreases points.len(),
{
    reveal(Seq::filter);
    if points.len() > 0 {
        let init = points.drop_last();
        assert(init.push(points.last()) =~= points);
        lemma_accurate_push(init, points.last());
        if i < accurate(init).len() {
            lemma_accurate_members(init, i);
            let j = choose|j: int| 0 <= j < init.len() && init[j] == accurate(init)[i];
            assert(points[j] == accurate(points)[i]);
        } else {
            assert(points[points.len() - 1] == accurate(points)[i]);
        }
    }
}

/// Every given point that is accurate enough is among the kept ones; so a
/// point without accuracy always is.
pub proof fn lemma_accurate_keeps(points: Seq<PointView>, j: int)
    requires
        0 <= j < points.len(),
        within_accuracy(points[j]),
    ensures
        accurate(points).contains(points[j]),
    decreases points.len(),
{
    let init = points.drop_last();
    assert(init.push(points.last()) =~= points);
    lemma_accurate_push(init, points.last());
    if j < init.len() {
        lemma_accurate_keeps(init, j);
        let i = choose|i: int| 0 <= i < accurate(init).len() && accurate(init)[i] == init[j];
        assert(accurate(points)[i] == points[j]);
    } else {
        assert(accurate(points)[accurate(points).len() - 1] == points[j]);
    }
}

/// Whether the point is accurate enough to be kept.
pub fn is_within_accuracy(point: &GpsPoint) -> (r: bool)
    ensures
        r == within_accuracy(point@),
{
    match point.accuracy {
        Some(a) => a < MAX_ACCURACY,
        None => true,
    }
}

/// The points that are accurate enough, in their order.
pub fn filter_accurate(points: &Vec<GpsPoint>) -> (r: Vec<GpsPoint>)
    ensures
        point_views(r@) == accurate(point_views(points@)),
{
    let mut r: Vec<GpsPoint> = Vec::new();
    let mut i: usize = 0;
    proof {
        reveal(Seq::filter);
        assert(point_views(points@).subrange(0, 0) =~= Seq::<PointView>::empty());
        assert(point_views(r@) =~= Seq::<PointView>::empty());
    }
    while i < points.len()
        invariant
            i <= points.len(),
            point_views(r@) == accurate(point_views(points@).subrange(0, i as int)),
        decreases points.len() - i,
    {
        let ghost all = point_views(points@);
        let ghost before = r@;
        proof {
            assert(all.subrange(0, i + 1) =~= all.subrange(0, i as int).push(points@[i as int]@));
            lemma_accurate_push(all.subrange(0, i as int), points@[i as int]@);
        }
        if is_within_accuracy(&points[i]) {
            r.push(points[i].copy());
            proof {
                assert(point_views(r@) =~= point_views(before).push(points@[i as int]@));
            }
        }
        i = i + 1;
    }
    proof {
        let all = point_views(points@);
        assert(all.subrange(0, points.len() as int) =~= all);
    }
    r
}

/// Two neighbouring points of a track, with the number of the track.
#[derive(Debug)]
pub struct Segment {
    pub first: GpsPoint,
    pub second: GpsPoint,
    pub track_no: usize,
}

/// What a segment holds, as mathematical values.
pub struct SegmentView {
    pub first: PointView,
    pub second: PointView,
    pub track_no: nat,
}

impl View for Segment {
    type V = SegmentView;

    open spec fn view(&self) -> SegmentView {
        SegmentView { first: self.first@, second: self.second@, track_no: self.track_no as nat }
    }
}

/// The views of a sequence of segments.
pub open spec fn segment_views(segments: Seq<Segment>) -> Seq<SegmentView> {
    Seq::new(segments.len(), |i: int| segments[i]@)
}

/// The segments of a sequence of points: one for each pair of neighbours,
/// in order, all with the same track number. Fewer than two points have none.
pub open spec fn segments_of(points: Seq<PointView>, track_no: nat) -> Seq<SegmentView> {
    Seq::new(
        if points.len() >= 2 {
            (points.len() - 1) as nat
        } else {
            0
        },
        |i: int| SegmentView { first: points[i], second: points[i + 1], track_no },
    )
}

/// The segments of `points`: one for each pair of neighbours.
pub fn segments(points: &Vec<GpsPoint>, track_no: usize) -> (r: Vec<Segment>)
    ensures
        segment_views(r@) == segments_of(point_views(points@), track_no as nat),
        r.len() == if points.len() >= 2 {
            points.len() - 1
        } else {
            0
        },
        forall|i: int|
            0 <= i < r.len() ==> (#[trigger] r@[i])@ == (SegmentView {
                first: points@[i]@,
                second: points@[i + 1]@,
                track_no: track_no as nat,
            }),
{
    let mut r: Vec<Segment> = Vec::new();
    if points.len() < 2 {
        proof {
            assert(segment_views(r@) =~= segments_of(point_views(points@), track_no as nat));
        }
        return r;
    }
    let mut i: usize = 0;
    while i + 1 < points.len()
        invariant
            points.len() >= 2,
            i + 1 <= points.len(),
            r.len() == i,
            forall|j: int|
                0 <= j < i ==> (#[trigger] r@[j])@ == segments_of(
                    point_views(points@),
                    track_no as nat,
                )[j],
        decreases points.len() - i,
    {
        r.push(Segment { first: points[i].copy(), second: points[i + 1].copy(), track_no });
        i = i + 1;
    }
    proof {
        assert(segment_views(r@) =~= segments_of(point_views(points@), track_no as nat));
    }
    r
}

/// How the points of a track are grouped.
#[derive(Clone, Copy, PartialEq, Eq, Structural, Debug)]
pub enum Mode {
    /// All points of a track in one line.
    Whole,
    /// One line for each pair of neighbouring points.
    Segmented,
}

/// A line of points of the track with number `track_no`.
#[derive(Debug)]
pub struct Line {
    pub track_no: usize,
    pub points: Vec<GpsPoint>,
}

/// What a line holds, as mathematical values.
pub struct LineView {
    pub track_no: nat,
    pub points: Seq<PointView>,
}

impl View for Line {
    type V = LineView;

    open spec fn view(&self) -> LineView {
        LineView { track_no: self.track_no as nat, points: point_views(self.points@) }
    }
}

/// The views of a sequence of lines.
pub open spec fn line_views(lines: Seq<Line>) -> Seq<LineView> {
    Seq::new(lines.len(), |i: int| lines[i]@)
}

/// The lines of one track: in `Whole` mode the one line of its accurate
/// points, in `Segmented` mode one line of two points for each pair of
/// neighbours among them.
pub open spec fn lines_of(points: Seq<PointView>, mode: Mode, track_no: nat) -> Seq<LineView> {
    let kept = accurate(points);
    match mode {
        Mode::Whole => seq![LineView { track_no, points: kept }],
        Mode::Segmented => Seq::new(
            segments_of(kept, track_no).len(),
            |i: int| LineView { track_no, points: seq![kept[i], kept[i + 1]] },
        ),
    }
}

/// The lines of the first `n` of the given tracks, track after track.
pub open spec fn lines_of_tracks(tracks: Seq<Seq<PointView>>, mode: Mode, n: nat) -> Seq<LineView>
    decreases n,
{
    if n == 0 || n > tracks.len() {
        Seq::empty()
    } else {
        lines_of_tracks(tracks, mode, (n - 1) as nat) + lines_of(tracks[n - 1], mode, (n - 1) as nat)
    }
}

/// The points of each track.
pub open spec fn points_of_tracks(tracks: Seq<TrackData>) -> Seq<Seq<PointView>> {
    Seq::new(tracks.len(), |i: int| point_views(tracks[i].points@))
}

/// Assembles the lines of one track from its stored points.
pub fn assemble(points: &Vec<GpsPoint>, mode: Mode, track_no: usize) -> (r: Vec<Line>)
    ensures
        line_views(r@) == lines_of(point_views(points@), mode, track_no as nat),
{
    let kept = filter_accurate(points);
    let mut r: Vec<Line> = Vec::new();
    match mode {
        Mode::Whole => {
            r.push(Line { track_no, points: kept });
            proof {
                assert(line_views(r@) =~= lines_of(point_views(points@), mode, track_no as nat));
            }
        },
        Mode::Segmented => {
            let ghost want = lines_of(point_views(points@), mode, track_no as nat);
            if kept.len() >= 2 {
                let mut i: usize = 0;
                while i + 1 < kept.len()
                    invariant
                        kept.len() >= 2,
                        i + 1 <= kept.len(),
                        r.len() == i,
                        point_views(kept@) == accurate(point_views(points@)),
                        want == lines_of(point_views(points@), mode, track_no as nat),
                        mode == Mode::Segmented,
                        forall|j: int| 0 <= j < i ==> (#[trigger] r@[j])@ == want[j],
                    decreases kept.len() - i,
                {
                    let mut pair: Vec<GpsPoint> = Vec::new();
                    pair.push(kept[i].copy());
                    pair.push(kept[i + 1].copy());
                    proof {
                        assert(point_views(pair@) =~= seq![
                            point_views(kept@)[i as int],
                            point_views(kept@)[i + 1],
                        ]);
                    }
                    r.push(Line { track_no, points: pair });
                    i = i + 1;
                }
            }
            proof {
                assert(line_views(r@) =~= want);
            }
        },
    }
    r
}

/// Assembles the lines of several tracks, track after track; each line
/// carries the index of its track.
pub fn assemble_tracks(tracks: &Vec<TrackData>, mode: Mode) -> (r: Vec<Line>)
    ensures
        line_views(r@) == lines_of_tracks(points_of_tracks(tracks@), mode, tracks.len() as nat),
{
    let mut r: Vec<Line> = Vec::new();
    let mut no: usize = 0;
    proof {
        assert(line_views(r@) =~= lines_of_tracks(points_of_tracks(tracks@), mode, 0));
    }
    while no < tracks.len()
        invariant
            no <= tracks.len(),
            line_views(r@) == lines_of_tracks(points_of_tracks(tracks@), mode, no as nat),
        decreases tracks.len() - no,
    {
        let mut more = assemble(&tracks[no].points, mode, no);
        let ghost before = r@;
        let ghost added = more@;
        r.append(&mut more);
        proof {
            assert(r@ == before + added);
            assert(line_views(r@) =~= line_views(before) + line_views(added));
            assert(points_of_tracks(tracks@)[no as int] == point_views(tracks@[no as int].points@));
        }
        no = no + 1;
    }
    r
}

/// Leaving points out keeps the others in the order of their time.
pub proof fn lemma_accurate_keeps_order(points: Seq<PointView>)
    requires
        times_ascend(points),
    ensures
        times_ascend(accurate(points)),
    decreases points.len(),
{
    if points.len() > 0 {
        let init = points.drop_last();
        let last = points.last();
        assert(init.push(last) =~= points);
        lemma_accurate_push(init, last);
        assert forall|i: int, j: int| 0 <= i < j < init.len() implies text_le(
            #[trigger] init[i].ts,
            #[trigger] init[j].ts,
        ) by {
            assert(init[i] == points[i] && init[j] == points[j]);
        }
        lemma_accurate_keeps_order(init);
        let kept = accurate(points);
        assert forall|i: int, j: int| 0 <= i < j < kept.len() implies text_le(
            #[trigger] kept[i].ts,
            #[trigger] kept[j].ts,
        ) by {
            if j < accurate(init).len() {
                assert(kept[i] == accurate(init)[i] && kept[j] == accurate(init)[j]);
            } else {
                lemma_accurate_members(init, i);
                let k = choose|k: int| 0 <= k < init.len() && init[k] == accurate(init)[i];
                assert(kept[i] == points[k]);
                assert(kept[j] == points[points.len() - 1]);
            }
        }
    } else {
        reveal(Seq::filter);
    }
}

/// Every line of the segmented assembly holds exactly two points.
pub proof fn lemma_segmented_lines_have_two_points(tracks: Seq<Seq<PointView>>, n: nat)
    ensures
        forall|k: int|
            0 <= k < lines_of_tracks(tracks, Mode::Segmented, n).len() ==> (#[trigger] lines_of_tracks(
                tracks,
                Mode::Segmented,
                n,
            )[k]).points.len() == 2,
    decreases n,
{
    if n > 0 && n <= tracks.len() {
        lemma_segmented_lines_have_two_points(tracks, (n - 1) as nat);
        let first = lines_of_tracks(tracks, Mode::Segmented, (n - 1) as nat);
        let more = lines_of(tracks[n - 1], Mode::Segmented, (n - 1) as nat);
        let all = lines_of_tracks(tracks, Mode::Segmented, n);
        assert forall|k: int| 0 <= k < all.len() implies (#[trigger] all[k]).points.len() == 2 by {
            if k < first.len() {
                assert(all[k] == first[k]);
            } else {
                assert(all[k] == more[k - first.len()]);
            }
        }
    }
}

} // verus!

//! The CSV rendering of a track.
//!
//! The document is a header line and one line for each point. The columns
//! are fixed; an attribute that a point lacks leaves its column empty, and
//! latitude and longitude are written with exactly seven decimal places.

use crate::db::{point_views, GpsPoint, PointView, TrackData};
use crate::track::{accurate, filter_accurate};
use crate::geo::{degrees_text, push_degrees};
use crate::text::{int_text, push_int, push_str, string_of};
use vstd::prelude::*;

verus! {

/// The header line, with its line feed.
pub open spec fn header() -> Seq<char> {
    "timestamp,latitude,longitude,speed,elevation,accuracy,v_accuracy,cog\n"@
}

/// The text of an optional number: its decimal text, or nothing.
pub open spec fn optional_text(v: Option<int>) -> Seq<char> {
    match v {
        Some(x) => int_text(x),
        None => Seq::empty(),
    }
}

/// The line of one point, with its line feed.
pub open spec fn row_text(p: PointView) -> Seq<char> {
    p.ts + seq![','] + degrees_text(p.y) + seq![','] + degrees_text(p.x) + seq![',']
        + optional_text(p.speed) + seq![','] + optional_text(p.elevation) + seq![',']
        + optional_text(p.accuracy) + seq![','] + optional_text(p.v_accuracy) + seq![',']
        + optional_text(p.cog) + seq!['\n']
}

/// The lines of the points, one after the other.
pub open spec fn rows_text(points: Seq<PointView>) -> Seq<char>
    decreases points.len(),
{
    if points.len() == 0 {
        Seq::empty()
    } else {
        rows_text(points.drop_last()) + row_text(points.last())
    }
}

/// The document: the header and the lines of the points.
pub open spec fn document_text(points: Seq<PointView>) -> Seq<char> {
    header() + rows_text(points)
}

/// Appends the decimal text of `v`, if it is present, to `out`.
pub fn push_optional_i16(out: &mut Vec<char>, v: Option<i16>)
    ensures
        final(out)@ == old(out)@ + optional_text(crate::db::opt_i16(v)),
{
    match v {
        Some(x) => push_int(out, x as i64),
        None => {
            proof {
                assert(out@ + Seq::<char>::empty() =~= out@);
            }
        },
    }
}

/// Appends the decimal text of `v`, if it is present, to `out`.
pub fn push_optional_i32(out: &mut Vec<char>, v: Option<i32>)
    ensures
        final(out)@ == old(out)@ + optional_text(crate::db::opt_i32(v)),
{
    match v {
        Some(x) => push_int(out, x as i64),
        None => {
            proof {
                assert(out@ + Seq::<char>::empty() =~= out@);
            }
        },
    }
}

/// Appends the line of `point` to `out`.
pub fn push_row(out: &mut Vec<char>, point: &GpsPoint)
    ensures
        final(out)@ == old(out)@ + row_text(point@),
{
    let ghost p = point@;
    push_str(out, point.ts.as_str());
    out.push(',');
    push_degrees(out, point.y);
    out.push(',');
    push_degrees(out, point.x);
    out.push(',');
    push_optional_i16(out, point.speed);
    out.push(',');
    push_optional_i16(out, point.elevation);
    out.push(',');
    push_optional_i32(out, point.accuracy);
    out.push(',');
    push_optional_i16(out, point.v_accuracy);
    out.push(',');
    push_optional_i16(out, point.cog);
    out.push('\n');
    proof {
        assert(out@ =~= old(out)@ + row_text(p));
    }
}

/// The line of one point, with its line feed.
pub fn row(point: &GpsPoint) -> (r: String)
    ensures
        r@ == row_text(point@),
{
    let mut out: Vec<char> = Vec::new();
    push_row(&mut out, point);
    proof {
        assert(Seq::<char>::empty() + row_text(point@) =~= row_text(point@));
    }
    string_of(&out)
}

/// The CSV document of the points: the header, then one line for each point
/// in order.
pub fn render(points: &Vec<GpsPoint>) -> (r: String)
    ensures
        r@ == document_text(point_views(points@)),
{
    let mut out: Vec<char> = Vec::new();
    push_str(&mut out, "timestamp,latitude,longitude,speed,elevation,accuracy,v_accuracy,cog\n");
    let ghost all = point_views(points@);
    let mut i: usize = 0;
    proof {
        assert(all.subrange(0, 0) =~= Seq::<PointView>::empty());
        assert(out@ =~= header() + rows_text(all.subrange(0, 0)));
    }
    while i < points.len()
        invariant
            i <= points.len(),
            all == point_views(points@),
            out@ == header() + rows_text(all.subrange(0, i as int)),
        decreases points.len() - i,
    {
        proof {
            assert(all.subrange(0, i + 1).drop_last() =~= all.subrange(0, i as int));
            assert(all.subrange(0, i + 1).last() == points@[i as int]@);
        }
        let ghost before = out@;
        push_row(&mut out, &points[i]);
        proof {
            assert(out@ =~= header() + (rows_text(all.subrange(0, i as int)) + row_text(
                points@[i as int]@,
            )));
        }
        i = i + 1;
    }
    proof {
        assert(all.subrange(0, points.len() as int) =~= all);
    }
    string_of(&out)
}

/// The CSV document of a track: the header, then one line for each accurate
/// point of the track.
pub fn track(data: &TrackData) -> (r: String)
    ensures
        r@ == document_text(accurate(point_views(data.points@))),
{
    let kept = filter_accurate(&data.points);
    render(&kept)
}

} // verus!

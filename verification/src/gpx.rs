//! The GPX rendering of tracks.
//!
//! The document holds one track for each given track, with its accurate
//! points in one segment. A point is written with its latitude and
//! longitude in seven decimal places, its elevation where it has one, and
//! its time. A timestamp of the stored form `2025-02-19 06:46:54+00` is
//! written as `2025-02-19T06:46:54Z`; any other text is written as it is.

use crate::db::{point_views, GpsPoint, PointView, TrackData, TrackView};
use crate::geo::{degrees_text, push_degrees};
use crate::text::{chars_of, int_text, push_chars, push_int, push_str, slice_chars, string_of};
use crate::track::{accurate, filter_accurate};
use vstd::prelude::*;

verus! {

/// The text that stands for a character in XML.
pub open spec fn escaped_char(c: char) -> Seq<char> {
    if c == '&' {
        "&amp;"@
    } else if c == '<' {
        "&lt;"@
    } else if c == '>' {
        "&gt;"@
    } else if c == '"' {
        "&quot;"@
    } else if c == '\'' {
        "&apos;"@
    } else {
        seq![c]
    }
}

/// The text with every character that XML reserves replaced.
pub open spec fn escaped(s: Seq<char>) -> Seq<char>
    decreases s.len(),
{
    if s.len() == 0 {
        Seq::empty()
    } else {
        escaped(s.drop_last()) + escaped_char(s.last())
    }
}

/// Appends `s` to `out` with every character that XML reserves replaced.
pub fn push_escaped(out: &mut Vec<char>, s: &Vec<char>)
    ensures
        final(out)@ == old(out)@ + escaped(s@),
{
    let mut i: usize = 0;
    proof {
        assert(s@.subrange(0, 0) =~= Seq::<char>::empty());
        assert(out@ =~= old(out)@ + escaped(s@.subrange(0, 0)));
    }
    while i < s.len()
        invariant
            i <= s.len(),
            out@ == old(out)@ + escaped(s@.subrange(0, i as int)),
        decreases s.len() - i,
    {
        let c = s[i];
        let ghost before = out@;
        proof {
            assert(s@.subrange(0, i + 1).drop_last() =~= s@.subrange(0, i as int));
            assert(s@.subrange(0, i + 1).last() == c);
        }
        if c == '&' {
            push_str(out, "&amp;");
        } else if c == '<' {
            push_str(out, "&lt;");
        } else if c == '>' {
            push_str(out, "&gt;");
        } else if c == '"' {
            push_str(out, "&quot;");
        } else if c == '\'' {
            push_str(out, "&apos;");
        } else {
            out.push(c);
        }
        proof {
            assert(out@ =~= before + escaped_char(c));
            assert(out@ =~= old(out)@ + (escaped(s@.subrange(0, i as int)) + escaped_char(c)));
        }
        i = i + 1;
    }
    proof {
        assert(s@.subrange(0, s.len() as int) =~= s@);
    }
}

/// Whether a timestamp has the stored form: 22 characters with a space
/// after the date and `+00` at the end.
pub open spec fn is_stored_time(ts: Seq<char>) -> bool {
    ts.len() == 22 && ts[10] == ' ' && ts[19] == '+' && ts[20] == '0' && ts[21] == '0'
}

/// The timestamp as GPX writes it.
pub open spec fn gpx_time(ts: Seq<char>) -> Seq<char> {
    if is_stored_time(ts) {
        ts.subrange(0, 10) + seq!['T'] + ts.subrange(11, 19) + seq!['Z']
    } else {
        ts
    }
}

/// The timestamp as GPX writes it.
pub fn gpx_time_chars(ts: &Vec<char>) -> (r: Vec<char>)
    ensures
        r@ == gpx_time(ts@),
{
    if ts.len() == 22 && ts[10] == ' ' && ts[19] == '+' && ts[20] == '0' && ts[21] == '0' {
        let mut r = slice_chars(ts, 0, 10);
        r.push('T');
        let time = slice_chars(ts, 11, 19);
        push_chars(&mut r, &time);
        r.push('Z');
        proof {
            assert(r@ =~= gpx_time(ts@));
        }
        r
    } else {
        let r = slice_chars(ts, 0, ts.len());
        proof {
            assert(ts@.subrange(0, ts.len() as int) =~= ts@);
        }
        r
    }
}

/// The element `ele` of a point that has an elevation; nothing for others.
pub open spec fn elevation_text(elevation: Option<int>) -> Seq<char> {
    match elevation {
        Some(e) => "<ele>"@ + int_text(e) + "</ele>"@,
        None => Seq::empty(),
    }
}

/// The element `trkpt` of a point, with its line feed.
pub open spec fn point_text(p: PointView) -> Seq<char> {
    "<trkpt lat=\""@ + degrees_text(p.y) + "\" lon=\""@ + degrees_text(p.x) + "\">"@
        + elevation_text(p.elevation) + "<time>"@ + escaped(gpx_time(p.ts)) + "</time></trkpt>\n"@
}

/// The elements of the points, one after the other.
pub open spec fn points_text(points: Seq<PointView>) -> Seq<char>
    decreases points.len(),
{
    if points.len() == 0 {
        Seq::empty()
    } else {
        points_text(points.drop_last()) + point_text(points.last())
    }
}

/// The element `trk` of a track: its name, made of device and date, and one
/// segment with its accurate points.
pub open spec fn track_text(t: TrackView) -> Seq<char> {
    "<trk><name>"@ + escaped(t.device) + seq![' '] + escaped(t.date) + "</name><trkseg>\n"@
        + points_text(accurate(t.points)) + "</trkseg></trk>\n"@
}

/// The elements of the first `n` tracks, one after the other.
pub open spec fn tracks_text(tracks: Seq<TrackView>, n: nat) -> Seq<char>
    decreases n,
{
    if n == 0 || n > tracks.len() {
        Seq::empty()
    } else {
        tracks_text(tracks, (n - 1) as nat) + track_text(tracks[n - 1])
    }
}

/// The first lines of a document.
pub open spec fn prologue() -> Seq<char> {
    "<?xml version=\"1.0\" encoding=\"UTF-8\"?>\n<gpx version=\"1.1\" creator=\"owntrack-rs\" xmlns=\"http://www.topografix.com/GPX/1/1\">\n"@
}

/// The document of the tracks.
pub open spec fn document_text(tracks: Seq<TrackView>) -> Seq<char> {
    prologue() + tracks_text(tracks, tracks.len()) + "</gpx>\n"@
}

/// Appends the element of `point` to `out`.
pub fn push_point(out: &mut Vec<char>, point: &GpsPoint)
    ensures
        final(out)@ == old(out)@ + point_text(point@),
{
    push_str(out, "<trkpt lat=\"");
    push_degrees(out, point.y);
    push_str(out, "\" lon=\"");
    push_degrees(out, point.x);
    push_str(out, "\">");
    let ghost mid = out@;
    match point.elevation {
        Some(e) => {
            push_str(out, "<ele>");
            push_int(out, e as i64);
            push_str(out, "</ele>");
        },
        None => {},
    }
    proof {
        assert(out@ =~= mid + elevation_text(point@.elevation));
    }
    push_str(out, "<time>");
    let time = gpx_time_chars(&chars_of(point.ts.as_str()));
    push_escaped(out, &time);
    push_str(out, "</time></trkpt>\n");
    proof {
        assert(out@ =~= old(out)@ + point_text(point@));
    }
}

/// Appends the element of `track` to `out`.
pub fn push_track(out: &mut Vec<char>, track: &TrackData)
    ensures
        final(out)@ == old(out)@ + track_text(track@),
{
    push_str(out, "<trk><name>");
    push_escaped(out, &chars_of(track.device.as_str()));
    out.push(' ');
    push_escaped(out, &chars_of(track.date.as_str()));
    push_str(out, "</name><trkseg>\n");
    let kept = filter_accurate(&track.points);
    let ghost all = point_views(kept@);
    let ghost head = out@;
    let mut i: usize = 0;
    proof {
        assert(all.subrange(0, 0) =~= Seq::<PointView>::empty());
        assert(out@ =~= head + points_text(all.subrange(0, 0)));
    }
    while i < kept.len()
        invariant
            i <= kept.len(),
            all == point_views(kept@),
            out@ == head + points_text(all.subrange(0, i as int)),
        decreases kept.len() - i,
    {
        proof {
            assert(all.subrange(0, i + 1).drop_last() =~= all.subrange(0, i as int));
            assert(all.subrange(0, i + 1).last() == kept@[i as int]@);
        }
        push_point(out, &kept[i]);
        proof {
            assert(out@ =~= head + (points_text(all.subrange(0, i as int)) + point_text(
                kept@[i as int]@,
            )));
        }
        i = i + 1;
    }
    proof {
        assert(all.subrange(0, kept.len() as int) =~= all);
    }
    push_str(out, "</trkseg></trk>\n");
    proof {
        assert(out@ =~= old(out)@ + track_text(track@));
    }
}

/// The GPX document of the tracks: one track for each given track, with its
/// accurate points in one segment.
pub fn tracks(data: &Vec<TrackData>) -> (r: String)
    ensures
        r@ == document_text(crate::db::track_views(data@)),
{
    let ghost all = crate::db::track_views(data@);
    let mut out: Vec<char> = Vec::new();
    push_str(
        &mut out,
        "<?xml version=\"1.0\" encoding=\"UTF-8\"?>\n<gpx version=\"1.1\" creator=\"owntrack-rs\" xmlns=\"http://www.topografix.com/GPX/1/1\">\n",
    );
    let mut i: usize = 0;
    proof {
        assert(out@ =~= prologue() + tracks_text(all, 0));
    }
    while i < data.len()
        invariant
            i <= data.len(),
            all == crate::db::track_views(data@),
            out@ == prologue() + tracks_text(all, i as nat),
        decreases data.len() - i,
    {
        push_track(&mut out, &data[i]);
        proof {
            assert(all[i as int] == data@[i as int]@);
            assert(out@ =~= prologue() + (tracks_text(all, i as nat) + track_text(all[i as int])));
        }
        i = i + 1;
    }
    push_str(&mut out, "</gpx>\n");
    string_of(&out)
}

} // verus!

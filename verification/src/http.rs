//! What the HTTP routes compute: the hand-off of a posted location, the
//! choice of the track rendering, and the names of downloads and assets.

use crate::db::TrackData;
use crate::error::Error;
use crate::geojson::{export_of, export_view, segments_document, track, track_document, track_with_segments};
use crate::owntracks::{Message, MessageView};
use crate::position::{in_range, outcome_view, Handoff, HandoffView};
use crate::text::{chars_of, push_str, same_text, string_of};
use crate::track::points_of_tracks;
use vstd::prelude::*;

verus! {

/// The text of an optional parameter; empty where it is absent.
pub open spec fn or_empty(v: Option<String>) -> Seq<char> {
    match v {
        Some(s) => s@,
        None => Seq::empty(),
    }
}

/// What a posted OwnTracks message hands to storage: a location is stored
/// under the user and device of the request parameters, each empty where it
/// is absent; any other message is not stored.
pub open spec fn posted_handoff(user: Option<String>, device: Option<String>, m: MessageView) -> Result<
    Option<HandoffView>,
    Error,
> {
    match m {
        MessageView::Location(position) => if in_range(position.lat, position.lon) {
            Ok(Some(HandoffView { user: or_empty(user), device: or_empty(device), position }))
        } else {
            Err(Error::MalformedCoordinate)
        },
        MessageView::Other(_) => Ok(None),
    }
}

/// Decides what a posted OwnTracks message hands to storage.
pub fn owntracks(user: Option<String>, device: Option<String>, message: Message) -> (r: Result<
    Option<Handoff>,
    Error,
>)
    ensures
        outcome_view(r) == posted_handoff(user, device, message@),
        r matches Ok(Some(h)) ==> h.position.wf(),
{
    let position = match message {
        Message::Location(p) => p,
        Message::Other(_) => {
            return Ok(None);
        },
    };
    if !position.is_wf() {
        return Err(Error::MalformedCoordinate);
    }
    let user = match user {
        Some(s) => s,
        None => String::new(),
    };
    let device = match device {
        Some(s) => s,
        None => String::new(),
    };
    Ok(Some(Handoff { user, device, position }))
}

/// Renders tracks as GeoJSON: as segments where that is asked for, else as
/// lines.
pub fn track_export(tracks: &Vec<TrackData>, segmented: Option<bool>) -> (r: Result<String, Error>)
    ensures
        export_view(r) == export_of(
            if segmented == Some(true) {
                segments_document(points_of_tracks(tracks@))
            } else {
                track_document(points_of_tracks(tracks@))
            },
        ),
{
    match segmented {
        Some(true) => track_with_segments(tracks),
        _ => track(tracks),
    }
}

/// The text with every space replaced by an underscore.
pub open spec fn underscored(s: Seq<char>) -> Seq<char> {
    Seq::new(
        s.len(),
        |i: int|
            if s[i] == ' ' {
                '_'
            } else {
                s[i]
            },
    )
}

/// The name of a download: `track_`, the device, an underscore, the start
/// of the track with underscores for its spaces, a dot and the extension.
pub open spec fn download_name(device: Seq<char>, ts_start: Seq<char>, extension: Seq<char>) -> Seq<
    char,
> {
    "track_"@ + device + seq!['_'] + underscored(ts_start) + seq!['.'] + extension
}

/// The name under which a track is downloaded.
pub fn file_name(device: &str, ts_start: &str, extension: &str) -> (r: String)
    ensures
        r@ == download_name(device@, ts_start@, extension@),
{
    let mut out = chars_of("track_");
    push_str(&mut out, device);
    out.push('_');
    let ghost head = out@;
    let start = chars_of(ts_start);
    let mut i: usize = 0;
    while i < start.len()
        invariant
            i <= start.len(),
            start@ == ts_start@,
            out@ == head + underscored(ts_start@).subrange(0, i as int),
        decreases start.len() - i,
    {
        let c = start[i];
        out.push(if c == ' ' {
            '_'
        } else {
            c
        });
        proof {
            let u = underscored(ts_start@);
            assert(u.subrange(0, i + 1) =~= u.subrange(0, i as int).push(u[i as int]));
        }
        i = i + 1;
    }
    proof {
        let u = underscored(ts_start@);
        assert(u.subrange(0, start.len() as int) =~= u);
    }
    out.push('.');
    push_str(&mut out, extension);
    string_of(&out)
}

/// The header value that makes a response a download of the given name.
pub fn content_disposition(name: &str) -> (r: String)
    ensures
        r@ == "attachment; filename=\""@ + name@ + seq!['"'],
{
    let mut out = chars_of("attachment; filename=\"");
    push_str(&mut out, name);
    out.push('"');
    string_of(&out)
}

/// The asset that a request path names: the start page for the empty path,
/// the setup page for `setup`, else the path itself.
pub fn asset_path(path: &str) -> (r: String)
    ensures
        r@ == if path@ == ""@ {
            "index.html"@
        } else if path@ == "setup"@ {
            "setup.html"@
        } else {
            path@
        },
{
    if same_text(path, "") {
        "index.html".to_owned()
    } else if same_text(path, "setup") {
        "setup.html".to_owned()
    } else {
        path.to_owned()
    }
}

/// The origin of a request: its scheme, `://` and its host.
pub fn origin(scheme: &str, host: &str) -> (r: String)
    ensures
        r@ == scheme@ + "://"@ + host@,
{
    let mut out = chars_of(scheme);
    push_str(&mut out, "://");
    push_str(&mut out, host);
    string_of(&out)
}

} // verus!

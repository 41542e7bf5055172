//! The canonical position record.
//!
//! A position is made once, from a decoded message, and is not changed
//! afterwards. Its latitude lies between -90 and 90 degrees and its
//! longitude between -180 and 180 degrees: a message with other coordinates
//! gives no position.

use crate::geo::Degrees;
use vstd::prelude::*;

verus! {

/// A location in the form that all sources are brought into.
#[derive(Debug)]
pub struct Position {
    /// Tracker ID, a short label of the device; may be empty.
    pub tid: String,
    /// UNIX epoch timestamp in seconds of the location fix.
    pub ts: i64,
    /// Velocity in km/h.
    pub velocity: Option<u16>,
    /// Latitude.
    pub lat: Degrees,
    /// Longitude.
    pub lon: Degrees,
    /// Altitude in meters above sea level.
    pub alt: Option<i16>,
    /// Horizontal accuracy in meters.
    pub accuracy: Option<u32>,
    /// Vertical accuracy in meters.
    pub v_accuracy: Option<i16>,
    /// Course over ground in degrees.
    pub cog: Option<i16>,
    /// Further members of the message, as the text of a JSON object.
    pub annotations: String,
}

/// What a position holds, as mathematical values.
pub struct PositionView {
    pub tid: Seq<char>,
    pub ts: int,
    pub velocity: Option<int>,
    pub lat: int,
    pub lon: int,
    pub alt: Option<int>,
    pub accuracy: Option<int>,
    pub v_accuracy: Option<int>,
    pub cog: Option<int>,
    pub annotations: Seq<char>,
}

/// An optional unsigned 16-bit number as an optional integer.
pub open spec fn opt_u16(v: Option<u16>) -> Option<int> {
    match v {
        Some(x) => Some(x as int),
        None => None,
    }
}

/// An optional unsigned 32-bit number as an optional integer.
pub open spec fn opt_u32(v: Option<u32>) -> Option<int> {
    match v {
        Some(x) => Some(x as int),
        None => None,
    }
}

impl View for Position {
    type V = PositionView;

    open spec fn view(&self) -> PositionView {
        PositionView {
            tid: self.tid@,
            ts: self.ts as int,
            velocity: opt_u16(self.velocity),
            lat: self.lat.e7 as int,
            lon: self.lon.e7 as int,
            alt: crate::db::opt_i16(self.alt),
            accuracy: opt_u32(self.accuracy),
            v_accuracy: crate::db::opt_i16(self.v_accuracy),
            cog: crate::db::opt_i16(self.cog),
            annotations: self.annotations@,
        }
    }
}

/// Whether the coordinates are those of a place on Earth.
pub open spec fn in_range(lat: int, lon: int) -> bool {
    -900_000_000 <= lat <= 900_000_000 && -1_800_000_000 <= lon <= 1_800_000_000
}

/// Whether the coordinates are those of a place on Earth.
pub fn coordinates_in_range(lat: Degrees, lon: Degrees) -> (r: bool)
    ensures
        r == in_range(lat.e7 as int, lon.e7 as int),
{
    lat.is_latitude() && lon.is_longitude()
}

/// The values that storage takes for one position. Storage holds no
/// unsigned numbers, so these are widened.
#[derive(Debug)]
pub struct Row {
    pub tid: String,
    pub ts: i64,
    pub velocity: Option<i32>,
    pub lat: Degrees,
    pub lon: Degrees,
    pub alt: Option<i32>,
    pub accuracy: Option<i64>,
    pub v_accuracy: Option<i16>,
    pub cog: Option<i16>,
    pub annotations: String,
}

impl Position {
    /// Whether the position keeps the invariant of its coordinates.
    pub open spec fn wf(&self) -> bool {
        in_range(self.lat.e7 as int, self.lon.e7 as int)
    }

    /// Whether the position keeps the invariant of its coordinates.
    pub fn is_wf(&self) -> (r: bool)
        ensures
            r == self.wf(),
    {
        coordinates_in_range(self.lat, self.lon)
    }

    /// The values that storage takes for this position: the same numbers in
    /// wider types.
    pub fn row(&self) -> (r: Row)
        ensures
            r.tid@ == self.tid@,
            r.ts == self.ts,
            r.velocity == match self.velocity {
                Some(v) => Some(v as i32),
                None => None,
            },
            r.lat == self.lat,
            r.lon == self.lon,
            r.alt == match self.alt {
                Some(v) => Some(v as i32),
                None => None,
            },
            r.accuracy == match self.accuracy {
                Some(v) => Some(v as i64),
                None => None,
            },
            r.v_accuracy == self.v_accuracy,
            r.cog == self.cog,
            r.annotations@ == self.annotations@,
    {
        Row {
            tid: self.tid.clone(),
            ts: self.ts,
            velocity: match self.velocity {
                Some(v) => Some(v as i32),
                None => None,
            },
            lat: self.lat,
            lon: self.lon,
            alt: match self.alt {
                Some(v) => Some(v as i32),
                None => None,
            },
            accuracy: match self.accuracy {
                Some(v) => Some(v as i64),
                None => None,
            },
            v_accuracy: self.v_accuracy,
            cog: self.cog,
            annotations: self.annotations.clone(),
        }
    }
}

/// A position with the user and device under which it is stored.
#[derive(Debug)]
pub struct Handoff {
    pub user: String,
    pub device: String,
    pub position: Position,
}

/// What a hand-off holds, as mathematical values.
pub struct HandoffView {
    pub user: Seq<char>,
    pub device: Seq<char>,
    pub position: PositionView,
}

impl View for Handoff {
    type V = HandoffView;

    open spec fn view(&self) -> HandoffView {
        HandoffView { user: self.user@, device: self.device@, position: self.position@ }
    }
}

/// The view of the outcome of a normalisation.
pub open spec fn outcome_view(r: Result<Option<Handoff>, crate::error::Error>) -> Result<
    Option<HandoffView>,
    crate::error::Error,
> {
    match r {
        Ok(Some(h)) => Ok(Some(h@)),
        Ok(None) => Ok(None),
        Err(e) => Err(e),
    }
}

} // verus!

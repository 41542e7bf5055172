//! OwnTracks messages.
//!
//! A message is a JSON object whose member `_type` names its kind. A
//! location holds the time `tst` and the coordinates `lat` and `lon`, and may
//! hold `tid`, `vel`, `alt`, `acc`, `vac` and `cog`; an optional member may
//! be absent or `null`. All other members are kept together as annotations.
//! A message of any other kind is recognised and nothing is done with it.

use crate::error::Error;
use crate::json::{
    find_member, get_degrees, get_integer, get_optional, get_text_or_empty, json_document,
    json_text, lemma_view_of_parts, lookup, member_views, members_without, optional_integer,
    parse, render, required_degrees, required_integer, text_or_empty, without_keys, Json,
    JsonView,
};
use crate::position::{Position, PositionView};
use crate::text::{chars_of, views};
use vstd::prelude::*;

verus! {

/// An OwnTracks message.
#[derive(Debug)]
pub enum Message {
    /// A location report.
    Location(Position),
    /// A message of another kind, with the name of the kind.
    Other(String),
}

/// What a message holds, as mathematical values.
pub enum MessageView {
    Location(PositionView),
    Other(Seq<char>),
}

impl View for Message {
    type V = MessageView;

    open spec fn view(&self) -> MessageView {
        match self {
            Message::Location(p) => MessageView::Location(p@),
            Message::Other(kind) => MessageView::Other(kind@),
        }
    }
}

/// The view of an optional message.
pub open spec fn optional_message(m: Option<Message>) -> Option<MessageView> {
    match m {
        Some(x) => Some(x@),
        None => None,
    }
}

/// The keys of the members of a location that are no annotations.
pub open spec fn known_keys() -> Seq<Seq<char>> {
    seq!["_type"@, "tid"@, "tst"@, "vel"@, "lat"@, "lon"@, "alt"@, "acc"@, "vac"@, "cog"@]
}

/// The annotations of a location: the text of the object of its other
/// members.
pub open spec fn annotations_of(members: Seq<(Seq<char>, JsonView)>) -> Seq<char> {
    json_text(JsonView::Object(members_without(members, known_keys())))
}

/// The location that the members of a message of kind `location` write.
pub open spec fn location_of(members: Seq<(Seq<char>, JsonView)>) -> Option<PositionView> {
    match (
        text_or_empty(members, "tid"@),
        required_integer(members, "tst"@),
        optional_integer(members, "vel"@, 0, 65535),
        required_degrees(members, "lat"@),
        required_degrees(members, "lon"@),
        optional_integer(members, "alt"@, -32768, 32767),
        optional_integer(members, "acc"@, 0, 4294967295),
        optional_integer(members, "vac"@, -32768, 32767),
        optional_integer(members, "cog"@, -32768, 32767),
    ) {
        (
            Some(tid),
            Some(ts),
            Some(velocity),
            Some(lat),
            Some(lon),
            Some(alt),
            Some(accuracy),
            Some(v_accuracy),
            Some(cog),
        ) => Some(
            PositionView {
                tid,
                ts: ts as int,
                velocity,
                lat: lat as int,
                lon: lon as int,
                alt,
                accuracy,
                v_accuracy,
                cog,
                annotations: annotations_of(members),
            },
        ),
        _ => None,
    }
}

/// The message that a JSON document writes, or `None` where it has not the
/// form of one.
pub open spec fn message_of(doc: JsonView) -> Option<MessageView> {
    match doc {
        JsonView::Object(members) => match lookup(members, "_type"@) {
            Some(JsonView::Text(kind)) => if kind == "location"@ {
                match location_of(members) {
                    Some(p) => Some(MessageView::Location(p)),
                    None => None,
                }
            } else {
                Some(MessageView::Other(kind))
            },
            _ => None,
        },
        _ => None,
    }
}

/// The message that a payload writes, or `None` where it writes none.
pub open spec fn decoded(payload: Seq<u8>) -> Option<MessageView> {
    match json_document(payload) {
        Some(doc) => message_of(doc),
        None => None,
    }
}

/// The keys of the members of a location that are no annotations.
pub fn known_key_list() -> (r: Vec<Vec<char>>)
    ensures
        views(r@) == known_keys(),
{
    let mut r: Vec<Vec<char>> = Vec::new();
    r.push(chars_of("_type"));
    r.push(chars_of("tid"));
    r.push(chars_of("tst"));
    r.push(chars_of("vel"));
    r.push(chars_of("lat"));
    r.push(chars_of("lon"));
    r.push(chars_of("alt"));
    r.push(chars_of("acc"));
    r.push(chars_of("vac"));
    r.push(chars_of("cog"));
    proof {
        assert(views(r@) =~= known_keys());
    }
    r
}

/// The view of an optional position.
pub open spec fn optional_position(p: Option<Position>) -> Option<PositionView> {
    match p {
        Some(x) => Some(x@),
        None => None,
    }
}

/// The location that the members of a message of kind `location` write.
pub fn location_from_members(members: Vec<(String, Json)>) -> (r: Option<Position>)
    ensures
        optional_position(r) == location_of(member_views(members@)),
{
    let ghost all = member_views(members@);
    let tid = get_text_or_empty(&members, "tid")?;
    let ts = get_integer(&members, "tst")?;
    let velocity = get_optional(&members, "vel", 0, 65535)?;
    let lat = get_degrees(&members, "lat")?;
    let lon = get_degrees(&members, "lon")?;
    let alt = get_optional(&members, "alt", -32768, 32767)?;
    let accuracy = get_optional(&members, "acc", 0, 4294967295)?;
    let v_accuracy = get_optional(&members, "vac", -32768, 32767)?;
    let cog = get_optional(&members, "cog", -32768, 32767)?;
    let keys = known_key_list();
    let rest = Json::Object(without_keys(members, &keys));
    proof {
        lemma_view_of_parts(rest);
    }
    let annotations = render(&rest);
    Some(
        Position {
            tid,
            ts,
            velocity: match velocity {
                Some(v) => Some(v as u16),
                None => None,
            },
            lat,
            lon,
            alt: match alt {
                Some(v) => Some(v as i16),
                None => None,
            },
            accuracy: match accuracy {
                Some(v) => Some(v as u32),
                None => None,
            },
            v_accuracy: match v_accuracy {
                Some(v) => Some(v as i16),
                None => None,
            },
            cog: match cog {
                Some(v) => Some(v as i16),
                None => None,
            },
            annotations,
        },
    )
}

/// The message that a JSON document writes, or `None` where it has not the
/// form of one.
pub fn message_from_json(doc: Json) -> (r: Option<Message>)
    ensures
        optional_message(r) == message_of(doc@),
{
    proof {
        lemma_view_of_parts(doc);
    }
    let members = match doc {
        Json::Object(members) => members,
        _ => {
            return None;
        },
    };
    let kind = match find_member(&members, "_type") {
        Some(k) => match &members[k].1 {
            Json::Text(s) => s.clone(),
            _ => {
                return None;
            },
        },
        None => {
            return None;
        },
    };
    if crate::text::same_text(kind.as_str(), "location") {
        match location_from_members(members) {
            Some(p) => Some(Message::Location(p)),
            None => None,
        }
    } else {
        Some(Message::Other(kind))
    }
}

/// Decodes an OwnTracks message.
///
/// Fails with `SchemaMismatch` where the payload is no JSON or has not the
/// form of a message, which includes a location without `tst`, `lat` or
/// `lon`.
pub fn decode(payload: &[u8]) -> (r: Result<Message, Error>)
    ensures
        match r {
            Ok(m) => decoded(payload@) == Some(m@),
            Err(e) => e == Error::SchemaMismatch && decoded(payload@) is None,
        },
{
    let doc = match parse(payload) {
        Some(doc) => doc,
        None => {
            return Err(Error::SchemaMismatch);
        },
    };
    match message_from_json(doc) {
        Some(m) => Ok(m),
        None => Err(Error::SchemaMismatch),
    }
}

} // verus!

//! Identity from MQTT topics.
//!
//! A topic is a text of segments separated by `/`. Two grammars are known.
//!
//! OwnTracks: `prefix/{user}/{device}`. The user is the second segment and the
//! device is the last one; a topic of more than three segments is accepted
//! and still gives its last segment as the device.
//!
//! Meshtastic: `prefix/{user}/msh/{device}/2/e/{channel}/{node}`, of eight
//! segments, where the device is the fourth segment, and the short form
//! `prefix/{user}/msh/{channel}/{node}`, of five segments, where the device
//! is the node, the last segment.

use crate::text::{chars_of, split, split_chars, string_of, views};
use vstd::prelude::*;

verus! {

/// The segments of a topic.
pub open spec fn topic_segments(topic: Seq<char>) -> Seq<Seq<char>> {
    split(topic, '/')
}

/// The user and device that an OwnTracks topic names, if it has the three
/// segments that this takes.
pub open spec fn owntracks_identity(topic: Seq<char>) -> Option<(Seq<char>, Seq<char>)> {
    let parts = topic_segments(topic);
    if parts.len() < 3 {
        None
    } else {
        Some((parts[1], parts.last()))
    }
}

/// The user and device that a Meshtastic topic names, if it has the shape of
/// one of the two forms.
pub open spec fn meshtastic_identity(topic: Seq<char>) -> Option<(Seq<char>, Seq<char>)> {
    let parts = topic_segments(topic);
    if parts.len() == 8 {
        Some((parts[1], parts[3]))
    } else if parts.len() == 5 {
        Some((parts[1], parts[4]))
    } else {
        None
    }
}

/// The view of an optional pair of strings.
pub open spec fn identity_view(r: Option<(String, String)>) -> Option<(Seq<char>, Seq<char>)> {
    match r {
        Some((user, device)) => Some((user@, device@)),
        None => None,
    }
}

/// Resolves an OwnTracks topic into user and device.
///
/// `owntracks/alice/phone1` gives `("alice", "phone1")`. A topic of fewer
/// than three segments does not resolve.
pub fn get_user_device_from_topic(topic: &str) -> (r: Option<(String, String)>)
    ensures
        identity_view(r) == owntracks_identity(topic@),
{
    let chars = chars_of(topic);
    let parts = split_chars(&chars, '/');
    if parts.len() < 3 {
        return None;
    }
    proof {
        assert(views(parts@)[1] == parts@[1]@);
        assert(views(parts@).last() == parts@[parts.len() - 1]@);
    }
    let user = string_of(&parts[1]);
    let device = string_of(&parts[parts.len() - 1]);
    Some((user, device))
}

/// Resolves a Meshtastic topic into user and device.
///
/// A topic of neither eight nor five segments does not resolve.
pub fn get_user_device_from_meshtastic_topic(topic: &str) -> (r: Option<(String, String)>)
    ensures
        identity_view(r) == meshtastic_identity(topic@),
{
    let chars = chars_of(topic);
    let parts = split_chars(&chars, '/');
    let at: usize = if parts.len() == 8 {
        3
    } else if parts.len() == 5 {
        4
    } else {
        return None;
    };
    proof {
        assert(views(parts@)[1] == parts@[1]@);
        assert(views(parts@)[at as int] == parts@[at as int]@);
    }
    let user = string_of(&parts[1]);
    let device = string_of(&parts[at]);
    Some((user, device))
}

} // verus!

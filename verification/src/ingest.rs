//! Ingestion: from a topic and a payload to the position that is stored.
//!
//! The payload is tried as an OwnTracks message, then as a Meshtastic
//! envelope of the Protobuf transport, then as a Meshtastic message of the
//! JSON transport. The first form that the payload has decides what is done
//! with it, whether or not it then gives a position. A payload of none of
//! these forms is dropped.
//!
//! An OwnTracks location is stored under the user and device that its topic
//! names. A Meshtastic position of the Protobuf transport is stored under
//! the user and device that its topic names where it is a Meshtastic topic,
//! else under the channel of the envelope and the name of the sending node.
//! One of the JSON transport is stored under the user and device that its
//! topic names.

use crate::error::Error;
use crate::meshtastic::protobufs::{decode_envelope, envelope_of, EnvelopeView, ServiceEnvelope};
use crate::meshtastic::{
    decode_json, decode_packet, json_decoded, json_handoff, normalize_json, packet_handoff,
    JsonMessageView,
};
use crate::mqtt::{
    get_user_device_from_meshtastic_topic, get_user_device_from_topic, meshtastic_identity,
    owntracks_identity,
};
use crate::owntracks::{decode, decoded, MessageView};
use crate::position::{in_range, outcome_view, Handoff, HandoffView, Position};
use vstd::prelude::*;

verus! {

/// The time to wait after a failure of the transport, in milliseconds.
pub const BACKOFF_MILLIS: u64 = 500;

/// A payload in the first of the known forms that it has.
#[derive(Debug)]
pub enum Decoded {
    OwnTracks(crate::owntracks::Message),
    Protobuf(ServiceEnvelope),
    Json(crate::meshtastic::Message),
}

/// What a decoded payload holds, as mathematical values.
pub enum DecodedView {
    OwnTracks(MessageView),
    Protobuf(EnvelopeView),
    Json(JsonMessageView),
}

impl View for Decoded {
    type V = DecodedView;

    open spec fn view(&self) -> DecodedView {
        match self {
            Decoded::OwnTracks(m) => DecodedView::OwnTracks(m@),
            Decoded::Protobuf(e) => DecodedView::Protobuf(e@),
            Decoded::Json(m) => DecodedView::Json(m@),
        }
    }
}

/// The first of the known forms that the payload has, with what it holds.
pub open spec fn classified(payload: Seq<u8>) -> Option<DecodedView> {
    match decoded(payload) {
        Some(m) => Some(DecodedView::OwnTracks(m)),
        None => match envelope_of(payload) {
            Some(e) => Some(DecodedView::Protobuf(e)),
            None => match json_decoded(payload) {
                Some(m) => Some(DecodedView::Json(m)),
                None => None,
            },
        },
    }
}

/// The view of an optional decoded payload.
pub open spec fn optional_decoded(d: Option<Decoded>) -> Option<DecodedView> {
    match d {
        Some(x) => Some(x@),
        None => None,
    }
}

/// Tries the decoders in order and gives the result of the first that
/// accepts the payload.
pub fn classify(payload: &[u8]) -> (r: Option<Decoded>)
    ensures
        optional_decoded(r) == classified(payload@),
{
    match decode(payload) {
        Ok(m) => {
            return Some(Decoded::OwnTracks(m));
        },
        Err(_) => {},
    }
    match decode_envelope(payload) {
        Some(e) => {
            return Some(Decoded::Protobuf(e));
        },
        None => {},
    }
    match decode_json(payload) {
        Ok(m) => Some(Decoded::Json(m)),
        Err(_) => None,
    }
}

/// What an OwnTracks message, received under `topic`, hands to storage.
///
/// Nothing for a message that is no location. `UnresolvedTopic` for a topic
/// of fewer than three segments, `MalformedCoordinate` for coordinates that
/// are no place on Earth.
pub open spec fn owntracks_handoff(topic: Seq<char>, m: MessageView) -> Result<
    Option<HandoffView>,
    Error,
> {
    match m {
        MessageView::Location(position) => match owntracks_identity(topic) {
            Some((user, device)) => if in_range(position.lat, position.lon) {
                Ok(Some(HandoffView { user, device, position }))
            } else {
                Err(Error::MalformedCoordinate)
            },
            None => Err(Error::UnresolvedTopic),
        },
        MessageView::Other(_) => Ok(None),
    }
}

/// What an envelope of the Protobuf transport, received under `topic`,
/// hands to storage: what its packet gives, under the identity of the topic
/// where the topic is a Meshtastic topic.
pub open spec fn protobuf_handoff(topic: Seq<char>, e: EnvelopeView) -> Result<
    Option<HandoffView>,
    Error,
> {
    match packet_handoff(e) {
        Ok(Some(h)) => match meshtastic_identity(topic) {
            Some((user, device)) => Ok(Some(HandoffView { user, device, position: h.position })),
            None => Ok(Some(h)),
        },
        other => other,
    }
}

/// What a decoded payload, received under `topic`, hands to storage.
pub open spec fn handoff_of(topic: Seq<char>, d: DecodedView) -> Result<Option<HandoffView>, Error> {
    match d {
        DecodedView::OwnTracks(m) => owntracks_handoff(topic, m),
        DecodedView::Protobuf(e) => protobuf_handoff(topic, e),
        DecodedView::Json(m) => json_handoff(topic, m),
    }
}

/// What a payload, received under `topic`, hands to storage;
/// `SchemaMismatch` for a payload of none of the known forms.
pub open spec fn normalized(topic: Seq<char>, payload: Seq<u8>) -> Result<
    Option<HandoffView>,
    Error,
> {
    match classified(payload) {
        Some(d) => handoff_of(topic, d),
        None => Err(Error::SchemaMismatch),
    }
}

/// Decides what an OwnTracks message hands to storage.
pub fn normalize_owntracks(topic: &str, message: crate::owntracks::Message) -> (r: Result<
    Option<Handoff>,
    Error,
>)
    ensures
        outcome_view(r) == owntracks_handoff(topic@, message@),
        r matches Ok(Some(h)) ==> h.position.wf(),
{
    let position = match message {
        crate::owntracks::Message::Location(p) => p,
        crate::owntracks::Message::Other(_) => {
            return Ok(None);
        },
    };
    let (user, device) = match get_user_device_from_topic(topic) {
        Some(pair) => pair,
        None => {
            return Err(Error::UnresolvedTopic);
        },
    };
    if !position.is_wf() {
        return Err(Error::MalformedCoordinate);
    }
    Ok(Some(Handoff { user, device, position }))
}

/// Decides what an envelope of the Protobuf transport hands to storage.
pub fn normalize_protobuf(topic: &str, envelope: &ServiceEnvelope) -> (r: Result<
    Option<Handoff>,
    Error,
>)
    ensures
        outcome_view(r) == protobuf_handoff(topic@, envelope@),
        r matches Ok(Some(h)) ==> h.position.wf(),
{
    match decode_packet(envelope) {
        Ok(Some(h)) => match get_user_device_from_meshtastic_topic(topic) {
            Some((user, device)) => Ok(Some(Handoff { user, device, position: h.position })),
            None => Ok(Some(h)),
        },
        Ok(None) => Ok(None),
        Err(e) => Err(e),
    }
}

/// Decides what a decoded payload hands to storage.
pub fn normalize_decoded(topic: &str, d: Decoded) -> (r: Result<Option<Handoff>, Error>)
    ensures
        outcome_view(r) == handoff_of(topic@, d@),
        r matches Ok(Some(h)) ==> h.position.wf(),
{
    match d {
        Decoded::OwnTracks(m) => normalize_owntracks(topic, m),
        Decoded::Protobuf(e) => normalize_protobuf(topic, &e),
        Decoded::Json(m) => normalize_json(topic, m),
    }
}

/// Normalises a message: gives the position to store with its user and
/// device, `Ok(None)` for a message that gives no position, or the reason
/// for which the message is dropped.
pub fn normalize_checked(topic: &str, payload: &[u8]) -> (r: Result<Option<Handoff>, Error>)
    ensures
        outcome_view(r) == normalized(topic@, payload@),
        r matches Ok(Some(h)) ==> h.position.wf(),
{
    match classify(payload) {
        Some(d) => normalize_decoded(topic, d),
        None => Err(Error::SchemaMismatch),
    }
}

/// The user, the device and the position that a message gives, as far as
/// it gives them.
pub open spec fn normalized_position(topic: Seq<char>, payload: Seq<u8>) -> Option<HandoffView> {
    match normalized(topic, payload) {
        Ok(Some(h)) => Some(h),
        _ => None,
    }
}

/// The view of an optional triple of user, device and position.
pub open spec fn triple_view(r: Option<(String, String, Position)>) -> Option<HandoffView> {
    match r {
        Some((user, device, position)) => Some(
            HandoffView { user: user@, device: device@, position: position@ },
        ),
        None => None,
    }
}

/// Normalises a message: gives the user, the device and the position to
/// store, or `None` for a message that gives none.
pub fn normalize(topic: &str, payload: &[u8]) -> (r: Option<(String, String, Position)>)
    ensures
        triple_view(r) == normalized_position(topic@, payload@),
        r matches Some((_, _, position)) ==> position.wf(),
{
    match normalize_checked(topic, payload) {
        Ok(Some(h)) => Some((h.user, h.device, h.position)),
        _ => None,
    }
}

/// An OwnTracks location with a topic of at least three segments and
/// coordinates of a place on Earth gives exactly the position that the
/// message holds: the same latitude, longitude and time.
pub proof fn lemma_owntracks_location_is_kept(
    topic: Seq<char>,
    payload: Seq<u8>,
    position: crate::position::PositionView,
)
    requires
        decoded(payload) == Some(MessageView::Location(position)),
        owntracks_identity(topic) is Some,
        in_range(position.lat, position.lon),
    ensures
        normalized(topic, payload) matches Ok(Some(h)) && h.position == position && h.user
            == owntracks_identity(topic).unwrap().0 && h.device == owntracks_identity(
            topic,
        ).unwrap().1,
{
}

/// What happened on the transport.
#[derive(Debug)]
pub enum Event {
    /// A message was published under `topic`.
    Publish { topic: String, payload: Vec<u8> },
    /// Anything else that the transport reports without failing.
    Other,
    /// The transport failed.
    Failure,
}

/// What the consumer does next.
#[derive(Debug)]
pub enum Action {
    /// Hand the position to storage.
    Store(Handoff),
    /// Report the reason for which a message was dropped, and go on.
    Report(Error),
    /// Go on with the next event.
    Continue,
    /// Report the failure of the transport, wait for the given time, and go
    /// on.
    Backoff { reason: Error, millis: u64 },
}

/// What an action holds, as mathematical values.
pub enum ActionView {
    Store(HandoffView),
    Report(Error),
    Continue,
    Backoff { reason: Error, millis: u64 },
}

impl View for Action {
    type V = ActionView;

    open spec fn view(&self) -> ActionView {
        match self {
            Action::Store(h) => ActionView::Store(h@),
            Action::Report(e) => ActionView::Report(*e),
            Action::Continue => ActionView::Continue,
            Action::Backoff { reason, millis } => ActionView::Backoff {
                reason: *reason,
                millis: *millis,
            },
        }
    }
}

/// The action for the outcome of a normalisation: a position is stored, a
/// drop is reported unless it is a schema mismatch, which is expected noise.
pub open spec fn action_for(outcome: Result<Option<HandoffView>, Error>) -> ActionView {
    match outcome {
        Ok(Some(h)) => ActionView::Store(h),
        Ok(None) => ActionView::Continue,
        Err(e) => if e.spec_is_logged() {
            ActionView::Report(e)
        } else {
            ActionView::Continue
        },
    }
}

/// Decides what to do on an event of the transport. No event ends the
/// consumer: a failure of the transport is followed by a pause of
/// `BACKOFF_MILLIS`.
pub fn on_event(event: &Event) -> (r: Action)
    ensures
        r@ == match *event {
            Event::Publish { topic, payload } => action_for(normalized(topic@, payload@)),
            Event::Other => ActionView::Continue,
            Event::Failure => ActionView::Backoff { reason: Error::TransportFailure, millis: 500 },
        },
{
    match event {
        Event::Publish { topic, payload } => {
            match normalize_checked(topic.as_str(), payload.as_slice()) {
                Ok(Some(h)) => Action::Store(h),
                Ok(None) => Action::Continue,
                Err(e) => if e.is_logged() {
                    Action::Report(e)
                } else {
                    Action::Continue
                },
            }
        },
        Event::Other => Action::Continue,
        Event::Failure => Action::Backoff { reason: Error::TransportFailure, millis: BACKOFF_MILLIS },
    }
}

/// Decides what to do when storage has answered: a failure is reported and
/// the consumer goes on with the next event.
pub fn on_stored(ok: bool) -> (r: Action)
    ensures
        r@ == if ok {
            ActionView::Continue
        } else {
            ActionView::Report(Error::StorageFailure)
        },
{
    if ok {
        Action::Continue
    } else {
        Action::Report(Error::StorageFailure)
    }
}

/// Whatever is stored keeps the invariant of positions, and every message
/// gives at most one position.
pub proof fn lemma_stored_position_is_in_range(topic: Seq<char>, payload: Seq<u8>)
    ensures
        normalized(topic, payload) matches Ok(Some(h)) ==> in_range(h.position.lat, h.position.lon),
{
}

} // verus!

//! Normalisation of device location telemetry and reconstruction of tracks.
//!
//! Positions arrive as OwnTracks JSON or as Meshtastic packets, are brought
//! into one canonical record, and are later assembled into per-device tracks
//! that can be rendered as GeoJSON, GPX or CSV.
//!
//! Coordinates are held as fixed-point numbers of 1e-7 degree, so every
//! computation on them is exact.
//!
//! Ingestion: [`ingest`] decides what a message hands to storage, with the
//! decoders of [`owntracks`] and [`meshtastic`], the topic grammars of
//! [`mqtt`] and the coordinate codec of [`geo`]; the result is a
//! [`position::Position`].
//!
//! Export: [`track`] filters and groups the stored points of [`db`],
//! [`stats`] summarises them, and [`geojson`], [`gpx`] and [`csv`] render
//! them.
//!
//! Outside code is called in three places: `prost` reads the keys and
//! lengths of the Protobuf wire format in [`meshtastic::wire`], `serde_json`
//! reads and writes JSON in [`json`], and the standard library converts
//! between bytes, characters and strings in [`text`].

pub mod config;
pub mod csv;
pub mod db;
pub mod error;
pub mod geo;
pub mod geojson;
pub mod gpx;
pub mod http;
pub mod ingest;
pub mod json;
pub mod meshtastic;
pub mod mqtt;
pub mod owntracks;
pub mod position;
pub mod stats;
pub mod text;
pub mod track;

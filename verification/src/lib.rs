//! Storage and downsampling engine for drone flight telemetry.
//!
//! The engine keeps the flights that were imported and the samples of each,
//! and serves them in the shapes that charts and maps need: a flight's
//! telemetry whole or in time buckets, its track thinned to a budget, the
//! flight list and the totals over all flights. It also holds the rules that
//! surround the store: how a decoded log becomes a flight, how a store file
//! that does not open is recovered, and how a telemetry table of an older
//! layout is rebuilt.
//!
//! The engine does no input or output. Reading files, decoding logs, the
//! database file and the clock are its callers'; they hand it plain values.
//! Measurements are values of a type parameter that the engine never computes
//! with.
//!
//! - [`models`]: the data carried in and out.
//! - [`database`]: the store and its operations.
//! - [`series`], [`registry`]: the stored samples of a flight; the flight
//!   registry.
//! - [`query`], [`downsample`], [`aggregate`], [`track`]: telemetry and track
//!   queries.
//! - [`parser`], [`hashing`]: from a decoded log to the rows of an import.
//! - [`commands`]: what an import and a flight's page come to.
//! - [`recovery`], [`schema`], [`clock`]: opening the store file and keeping
//!   its layout.
//! - [`text`], [`sequences`]: trimming, prefixes and numerals; facts about
//!   filtered sequences.

pub mod aggregate;
pub mod clock;
pub mod commands;
pub mod database;
pub mod downsample;
pub mod hashing;
pub mod models;
pub mod parser;
pub mod query;
pub mod recovery;
pub mod registry;
pub mod schema;
pub mod sequences;
pub mod series;
pub mod text;
pub mod track;

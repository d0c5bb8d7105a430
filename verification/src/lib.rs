//! Verified core of a media ingestion and analysis service.
//!
//! The library stores uploaded originals in an append-only blob store,
//! tracks each asset in a catalog ordered by upload time, and runs a
//! derived-asset pipeline (thumbnails for video, transient markers and a
//! waveform envelope for audio) whose state machine and results are
//! specified and proved here.

pub mod analysis;
pub mod catalog;
pub mod laws;
pub mod models;
pub mod service;
pub mod store;
pub mod thumbs;

//! Core of a small events backend: a schema-driven decoder that turns sparse,
//! string-keyed attribute records into typed domain entities, and an image
//! ingestion pipeline that validates, resizes and re-encodes uploads.
//!
//! Transport, storage clients and process bootstrapping live outside this
//! crate; the functions here are pure transformations with explicit error
//! taxonomies, and their contracts are checked by Verus.

pub mod attr;
pub mod auth;
pub mod errors;
pub mod event;
pub mod images;
pub mod json;
pub mod queries;
pub mod rfc3339;
pub mod text;
pub mod uid;
pub mod upload;

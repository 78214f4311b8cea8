//! A logger that writes each event as one line of JSON in the shape of the
//! Elastic Common Schema, with process-wide extra fields merged into every
//! event.
//!
//! - `json`: the JSON documents, their deep merge and their text.
//! - `ecs`: the event of a log call and its document.
//! - `extra_fields`: the store of extra fields and its merge into a document.
//! - `logger`: the filter, the builder and the line written for each event.
pub mod ecs;
pub mod extra_fields;
pub mod json;
pub mod logger;

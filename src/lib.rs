//! Conversion between RFC 5545 RRULE text and a typed field set, and
//! validation of a field set against a start timestamp.

pub mod fields;
pub mod text;
pub mod time;
pub mod codec;
pub mod validate;
pub mod laws;
pub mod engine;

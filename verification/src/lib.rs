//! Turns text lines into flat records with one regular expression.
//!
//! A [`config::Config`] holds a pattern, a mapping from its capture groups to
//! field names, an output format and a policy for faults. For each line it
//! makes a [`record::Record`] of what the pattern captured, merges in the
//! JSON object that one group may hold, and writes the record as JSON or one
//! of its fields.

pub mod config;
pub mod error;
pub mod format;
pub mod fragment;
pub mod mapping;
pub mod names;
pub mod pattern;
pub mod record;
pub mod text;

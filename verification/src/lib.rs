//! Imports a wide-format spreadsheet of event attendance into a relational
//! plan: people are resolved against a pre-fetched directory, events are
//! created at most once per (name, event band, attendee band) key, and one
//! association is emitted per non-empty cell.

pub mod cache;
pub mod error;
pub mod header;
pub mod person;
pub mod pipeline;
pub mod text;
pub mod year;

//! Weekend CTF announcement pipeline.
//!
//! The library computes the upcoming weekend window in UTC epoch seconds,
//! builds the catalog query for events in that window, resolves organizer
//! icons out of profile pages, formats events as chat embeds, and plans the
//! batched delivery to webhook destinations.

pub mod config;
pub mod digits;
pub mod embeds;
pub mod events;
pub mod icons;
pub mod window;

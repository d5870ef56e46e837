//! A note-taking store: notes, uniquely named tags and the associations
//! between them, with tag resolution, cascading deletion, per-tag counts and
//! regular-expression search with highlighted excerpts.

pub mod clock;
pub mod error;
pub mod excerpt;
pub mod properties;
pub mod search;
pub mod store;
pub mod tags;

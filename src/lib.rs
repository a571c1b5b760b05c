//! An in-memory store of self-destructing notes: each note is read a limited
//! number of times or for a limited time, and the store keeps within a fixed
//! memory budget by evicting its oldest notes.
pub mod db;
pub mod expiry;
pub mod laws;
pub mod model;
pub mod note_id;

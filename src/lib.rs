//! Picks the capture time of a media file out of conflicting metadata tags and
//! the file's name, and turns it into a sortable rename prefix.

pub mod correct;
pub mod datetime;
pub mod engine;
pub mod error;
pub mod filename;
pub mod offset;
pub mod prefix;
pub mod reconcile;
pub mod score;
pub mod settings;
pub mod store;
pub mod zone;

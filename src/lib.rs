//! Resolution and orchestration logic of a music-acquisition command-line tool.

pub mod text;
pub mod sanitize;
pub mod query;
pub mod error;
pub mod musicbrainz;
pub mod playlist;
pub mod jobs;
pub mod aliases;
pub mod resolve;

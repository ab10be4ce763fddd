//! Core logic of a terminal music player: time-stamped lyrics, podcast feed
//! handling, the music catalog's rules and the playback event vocabulary.

pub mod collation;
pub mod convert;
pub mod library;
pub mod model;
pub mod lrc;
pub mod natural;
pub mod player;
pub mod podcast;
pub mod text;
pub mod wire;

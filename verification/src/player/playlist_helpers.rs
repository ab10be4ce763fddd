//! What a client sends to have the playlist changed.

use vstd::prelude::*;

verus! {

/// Where a track comes from; this is what identifies a playlist entry.
#[derive(Debug, Clone, PartialEq)]
pub enum PlaylistTrackSource {
    Path(String),
    Url(String),
    PodcastUrl(String),
}

/// A request to add tracks to the playlist.
#[derive(Debug, Clone, PartialEq)]
pub struct PlaylistAddTrack {
    pub at_index: u64,
    pub tracks: Vec<PlaylistTrackSource>,
}

impl PlaylistAddTrack {
    /// A request to add the one track `track` at `at_index`.
    pub fn new_single(at_index: u64, track: PlaylistTrackSource) -> (r: Self)
        ensures
            r.at_index == at_index,
            r.tracks@ == seq![track],
    {
        let mut tracks = Vec::new();
        tracks.push(track);
        Self { at_index, tracks }
    }

    /// A request to add `tracks`, in their order, from `at_index` on.
    pub fn new_vec(at_index: u64, tracks: Vec<PlaylistTrackSource>) -> (r: Self)
        ensures
            r.at_index == at_index,
            r.tracks == tracks,
    {
        Self { at_index, tracks }
    }
}

/// A request to remove the tracks that stand from an index on.
#[derive(Debug, Clone, PartialEq)]
pub struct PlaylistRemoveTrackIndexed {
    pub at_index: u64,
    pub tracks: Vec<PlaylistTrackSource>,
}

impl PlaylistRemoveTrackIndexed {
    /// A request to remove the one track `track` at `at_index`.
    pub fn new_single(at_index: u64, track: PlaylistTrackSource) -> (r: Self)
        ensures
            r.at_index == at_index,
            r.tracks@ == seq![track],
    {
        let mut tracks = Vec::new();
        tracks.push(track);
        Self { at_index, tracks }
    }

    /// A request to remove `tracks`, which stand from `at_index` on.
    pub fn new_vec(at_index: u64, tracks: Vec<PlaylistTrackSource>) -> (r: Self)
        ensures
            r.at_index == at_index,
            r.tracks == tracks,
    {
        Self { at_index, tracks }
    }
}

/// A request to remove tracks: some of them, or all.
#[derive(Debug, Clone, PartialEq)]
pub enum PlaylistRemoveTrackType {
    Indexed(PlaylistRemoveTrackIndexed),
    Clear,
}

/// A request to let two tracks change places.
#[derive(Debug, Clone, PartialEq)]
pub struct PlaylistSwapTrack {
    pub index_a: u64,
    pub index_b: u64,
}

/// A request to play one given track.
#[derive(Debug, Clone, PartialEq)]
pub struct PlaylistPlaySpecific {
    pub track_index: u64,
    pub id: PlaylistTrackSource,
}

} // verus!

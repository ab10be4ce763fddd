//! The messages in which events and requests travel between the playback
//! daemon and its clients. A field that the sender may leave out is an
//! `Option`.

use vstd::prelude::*;
use vstd::string::StringExecFns;

verus! {

/// A span of time.
#[derive(Debug, Clone, Copy, PartialEq, Eq, Structural)]
pub struct Duration {
    pub secs: u64,
    pub nanos: u32,
}

/// A position in a track and the track's length.
#[derive(Debug, Clone, Copy, PartialEq, Eq, Structural)]
pub struct PlayerTime {
    pub position: Option<Duration>,
    pub total_duration: Option<Duration>,
}

#[derive(Debug, Clone, Copy, PartialEq, Eq, Structural)]
pub struct UpdateProgress {
    pub progress: Option<PlayerTime>,
}

#[derive(Debug, Clone, Copy, PartialEq, Eq, Structural)]
pub struct UpdateMissedEvents {
    pub amount: u64,
}

#[derive(Debug, Clone, Copy, PartialEq, Eq, Structural)]
pub struct VolumeReply {
    pub volume: u32,
}

#[derive(Debug, Clone, Copy, PartialEq, Eq, Structural)]
pub struct UpdateVolumeChanged {
    pub msg: Option<VolumeReply>,
}

#[derive(Debug, Clone, Copy, PartialEq, Eq, Structural)]
pub struct SpeedReply {
    pub speed: i32,
}

#[derive(Debug, Clone, Copy, PartialEq, Eq, Structural)]
pub struct UpdateSpeedChanged {
    pub msg: Option<SpeedReply>,
}

#[derive(Debug, Clone, Copy, PartialEq, Eq, Structural)]
pub struct PlayState {
    pub status: u32,
}

#[derive(Debug, Clone, Copy, PartialEq, Eq, Structural)]
pub struct UpdatePlayStateChanged {
    pub msg: Option<PlayState>,
}

#[derive(Debug, Clone, Copy, PartialEq, Eq, Structural)]
pub struct GaplessState {
    pub gapless: bool,
}

#[derive(Debug, Clone, Copy, PartialEq, Eq, Structural)]
pub struct UpdateGaplessChanged {
    pub msg: Option<GaplessState>,
}

#[derive(Debug, Clone, PartialEq, Eq)]
pub struct UpdateTrackChanged {
    pub current_track_index: u64,
    pub current_track_updated: bool,
    pub optional_title: Option<String>,
    pub progress: Option<PlayerTime>,
}

/// Where a track comes from.
#[derive(Debug, Clone, PartialEq, Eq)]
pub enum Source {
    Path(String),
    Url(String),
    PodcastUrl(String),
}

#[derive(Debug, Clone, PartialEq, Eq)]
pub struct TrackId {
    pub source: Option<Source>,
}

/// A track was added to the playlist.
#[derive(Debug, Clone, PartialEq, Eq)]
pub struct AddTrack {
    pub at_index: u64,
    pub optional_title: Option<String>,
    pub duration: Option<Duration>,
    pub id: Option<TrackId>,
}

/// A track was removed from the playlist.
#[derive(Debug, Clone, PartialEq, Eq)]
pub struct RemoveTrack {
    pub at_index: u64,
    pub id: Option<TrackId>,
}

#[derive(Debug, Clone, Copy, PartialEq, Eq, Structural)]
pub struct Cleared {
}

#[derive(Debug, Clone, Copy, PartialEq, Eq, Structural)]
pub struct LoopMode {
    pub mode: u32,
}

#[derive(Debug, Clone, Copy, PartialEq, Eq, Structural)]
pub struct SwapTracks {
    pub index_a: u64,
    pub index_b: u64,
}

/// The whole playlist.
#[derive(Debug, Clone, PartialEq, Eq)]
pub struct PlaylistTracks {
    pub current_track_index: u64,
    pub tracks: Vec<AddTrack>,
}

#[derive(Debug, Clone, PartialEq, Eq)]
pub struct Shuffled {
    pub shuffled: Option<PlaylistTracks>,
}

/// The kinds of change to the playlist.
#[derive(Debug, Clone, PartialEq, Eq)]
pub enum PlaylistKind {
    AddTrack(AddTrack),
    RemoveTrack(RemoveTrack),
    Cleared(Cleared),
    LoopMode(LoopMode),
    SwapTracks(SwapTracks),
    Shuffled(Shuffled),
}

#[derive(Debug, Clone, PartialEq, Eq)]
pub struct UpdatePlaylist {
    pub kind: Option<PlaylistKind>,
}

/// The kinds of update.
#[derive(Debug, Clone, PartialEq, Eq)]
pub enum StreamKind {
    VolumeChanged(UpdateVolumeChanged),
    SpeedChanged(UpdateSpeedChanged),
    PlayStateChanged(UpdatePlayStateChanged),
    MissedEvents(UpdateMissedEvents),
    TrackChanged(UpdateTrackChanged),
    GaplessChanged(UpdateGaplessChanged),
    PlaylistChanged(UpdatePlaylist),
    ProgressChanged(UpdateProgress),
}

#[derive(Debug, Clone, PartialEq, Eq)]
pub struct StreamUpdates {
    pub kind: Option<StreamKind>,
}

#[derive(Debug, Clone, PartialEq, Eq)]
pub struct TracksToAdd {
    pub at_index: u64,
    pub tracks: Vec<TrackId>,
}

#[derive(Debug, Clone, PartialEq, Eq)]
pub struct TracksToRemoveIndexed {
    pub at_index: u64,
    pub tracks: Vec<TrackId>,
}

#[derive(Debug, Clone, Copy, PartialEq, Eq, Structural)]
pub struct TracksToRemoveClear {
}

#[derive(Debug, Clone, PartialEq, Eq)]
pub enum RemoveKind {
    Indexed(TracksToRemoveIndexed),
    Clear(TracksToRemoveClear),
}

#[derive(Debug, Clone, PartialEq, Eq)]
pub struct TracksToRemove {
    pub kind: Option<RemoveKind>,
}

#[derive(Debug, Clone, Copy, PartialEq, Eq, Structural)]
pub struct SwapRequest {
    pub index_a: u64,
    pub index_b: u64,
}

#[derive(Debug, Clone, PartialEq, Eq)]
pub struct PlaySpecific {
    pub track_index: u64,
    pub id: Option<TrackId>,
}

/// The field of a message that was left out though it is needed.
#[derive(Debug, Clone, Copy, PartialEq, Eq, Structural)]
pub enum Place {
    StreamUpdatesType,
    VolumeChangedMsg,
    SpeedChangedMsg,
    PlayStateChangedMsg,
    GaplessChangedMsg,
    UpdateProgressProgress,
    UpdatePlaylistType,
    AddTrackDuration,
    AddTrackId,
    AddTrackIdSource,
    RemoveTrackId,
    RemoveTrackIdSource,
    ShuffledShuffled,
    TrackIdSource,
    TracksToRemoveType,
    PlaySpecificId,
}

/// The name of the field `place`.
pub open spec fn place_name(place: Place) -> Seq<char> {
    match place {
        Place::StreamUpdatesType => "StreamUpdates.type"@,
        Place::VolumeChangedMsg => "StreamUpdates.types.volume_changed.msg"@,
        Place::SpeedChangedMsg => "StreamUpdates.types.speed_changed.msg"@,
        Place::PlayStateChangedMsg => "StreamUpdates.types.play_state_changed.msg"@,
        Place::GaplessChangedMsg => "StreamUpdates.types.gapless_changed.msg"@,
        Place::UpdateProgressProgress => "UpdateProgress.progress"@,
        Place::UpdatePlaylistType => "UpdatePlaylist.type"@,
        Place::AddTrackDuration => "UpdatePlaylist.type.add_track.duration"@,
        Place::AddTrackId => "UpdatePlaylist.type.add_track.id"@,
        Place::AddTrackIdSource => "UpdatePlaylist.type.add_track.id.source"@,
        Place::RemoveTrackId => "UpdatePlaylist.type.remove_track.id"@,
        Place::RemoveTrackIdSource => "UpdatePlaylist.type.remove_track.id.source"@,
        Place::ShuffledShuffled => "UpdatePlaylist.type.shuffled.shuffled"@,
        Place::TrackIdSource => "TrackId.source"@,
        Place::TracksToRemoveType => "PlaylistTracksToRemove.type"@,
        Place::PlaySpecificId => "PlaylistPlaySpecific.id"@,
    }
}

impl Place {
    /// The name of the field.
    pub fn as_str(&self) -> (r: &'static str)
        ensures
            r@ == place_name(*self),
    {
        match self {
            Place::StreamUpdatesType => "StreamUpdates.type",
            Place::VolumeChangedMsg => "StreamUpdates.types.volume_changed.msg",
            Place::SpeedChangedMsg => "StreamUpdates.types.speed_changed.msg",
            Place::PlayStateChangedMsg => "StreamUpdates.types.play_state_changed.msg",
            Place::GaplessChangedMsg => "StreamUpdates.types.gapless_changed.msg",
            Place::UpdateProgressProgress => "UpdateProgress.progress",
            Place::UpdatePlaylistType => "UpdatePlaylist.type",
            Place::AddTrackDuration => "UpdatePlaylist.type.add_track.duration",
            Place::AddTrackId => "UpdatePlaylist.type.add_track.id",
            Place::AddTrackIdSource => "UpdatePlaylist.type.add_track.id.source",
            Place::RemoveTrackId => "UpdatePlaylist.type.remove_track.id",
            Place::RemoveTrackIdSource => "UpdatePlaylist.type.remove_track.id.source",
            Place::ShuffledShuffled => "UpdatePlaylist.type.shuffled.shuffled",
            Place::TrackIdSource => "TrackId.source",
            Place::TracksToRemoveType => "PlaylistTracksToRemove.type",
            Place::PlaySpecificId => "PlaylistPlaySpecific.id",
        }
    }
}

/// Why a message could not be taken for an event or a request.
#[derive(Debug, Clone, Copy, PartialEq, Eq, Structural)]
pub enum WireError {
    /// A field that is needed was left out.
    Missing(Place),
    /// A span of time is longer than a span can be.
    DurationOutOfRange,
}

impl WireError {
    /// The error in words.
    pub fn to_string(&self) -> (r: String)
        ensures
            r@ == match *self {
                WireError::Missing(place) => "Got \"None\" in grpc \""@ + place_name(place)
                    + "\"!"@,
                WireError::DurationOutOfRange => "overflow in Duration::new"@,
            },
    {
        match self {
            WireError::Missing(place) => {
                let mut out = String::from_str("Got \"None\" in grpc \"");
                out.append(place.as_str());
                out.append("\"!");
                out
            },
            WireError::DurationOutOfRange => String::from_str("overflow in Duration::new"),
        }
    }
}

/// The value of a field, or the error that the field `place` was left out.
pub fn unwrap_msg<T>(opt: Option<T>, place: Place) -> (r: Result<T, WireError>)
    ensures
        r == match opt {
            Some(val) => Ok::<T, WireError>(val),
            None => Err::<T, WireError>(WireError::Missing(place)),
        },
{
    match opt {
        Some(val) => Ok(val),
        None => Err(WireError::Missing(place)),
    }
}

} // verus!

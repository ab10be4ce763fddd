//! Events and requests as messages, and messages as events and requests.

use crate::player::playlist_helpers::{
    PlaylistAddTrack, PlaylistPlaySpecific, PlaylistRemoveTrackIndexed, PlaylistRemoveTrackType,
    PlaylistSwapTrack, PlaylistTrackSource,
};
use crate::player::{
    clamp_u16, PlayerProgress, PlayerTimeUnit, PlaylistAddTrackInfo, PlaylistLoopModeInfo,
    PlaylistRemoveTrackInfo, PlaylistShuffledInfo, PlaylistSwapInfo, TrackChangedInfo,
    UpdateEvents, UpdatePlaylistEvents,
};
use crate::wire::{unwrap_msg, Place, WireError};
use vstd::prelude::*;

verus! {

/// The message for the span `t`.
pub open spec fn duration_of(t: PlayerTimeUnit) -> crate::wire::Duration {
    crate::wire::Duration { secs: t.secs(), nanos: t.nanos() }
}

/// The span that the message `d` holds, or an error where it is too long.
pub open spec fn time_from(d: crate::wire::Duration) -> Result<PlayerTimeUnit, WireError> {
    if d.secs + d.nanos / 1_000_000_000 <= u64::MAX {
        Ok(PlayerTimeUnit::of(d.secs, d.nanos))
    } else {
        Err(WireError::DurationOutOfRange)
    }
}

/// The message for the optional span `t`.
pub open spec fn optional_duration_of(t: Option<PlayerTimeUnit>) -> Option<crate::wire::Duration> {
    match t {
        Some(t) => Some(duration_of(t)),
        None => None,
    }
}

/// The optional span that the message `d` holds.
pub open spec fn optional_time_from(d: Option<crate::wire::Duration>) -> Result<
    Option<PlayerTimeUnit>,
    WireError,
> {
    match d {
        Some(d) => match time_from(d) {
            Ok(t) => Ok(Some(t)),
            Err(e) => Err(e),
        },
        None => Ok(None),
    }
}

/// The message for the progress `p`.
pub open spec fn player_time_of(p: PlayerProgress) -> crate::wire::PlayerTime {
    crate::wire::PlayerTime {
        position: optional_duration_of(p.position),
        total_duration: optional_duration_of(p.total_duration),
    }
}

/// The progress that the message `t` holds.
pub open spec fn progress_from(t: crate::wire::PlayerTime) -> Result<PlayerProgress, WireError> {
    match optional_time_from(t.position) {
        Ok(position) => match optional_time_from(t.total_duration) {
            Ok(total_duration) => Ok(PlayerProgress { position, total_duration }),
            Err(e) => Err(e),
        },
        Err(e) => Err(e),
    }
}

/// The optional progress that the message `t` holds.
pub open spec fn optional_progress_from(t: Option<crate::wire::PlayerTime>) -> Result<
    Option<PlayerProgress>,
    WireError,
> {
    match t {
        Some(t) => match progress_from(t) {
            Ok(p) => Ok(Some(p)),
            Err(e) => Err(e),
        },
        None => Ok(None),
    }
}

/// The message for the source `s`.
pub open spec fn source_of(s: PlaylistTrackSource) -> crate::wire::Source {
    match s {
        PlaylistTrackSource::Path(v) => crate::wire::Source::Path(v),
        PlaylistTrackSource::Url(v) => crate::wire::Source::Url(v),
        PlaylistTrackSource::PodcastUrl(v) => crate::wire::Source::PodcastUrl(v),
    }
}

/// The source that the message `s` holds.
pub open spec fn source_from(s: crate::wire::Source) -> PlaylistTrackSource {
    match s {
        crate::wire::Source::Path(v) => PlaylistTrackSource::Path(v),
        crate::wire::Source::Url(v) => PlaylistTrackSource::Url(v),
        crate::wire::Source::PodcastUrl(v) => PlaylistTrackSource::PodcastUrl(v),
    }
}

/// The id message for the source `s`.
pub open spec fn track_id_of(s: PlaylistTrackSource) -> crate::wire::TrackId {
    crate::wire::TrackId { source: Some(source_of(s)) }
}

/// The source that the optional id message `id` holds; `id_place` and
/// `source_place` name the fields for the errors.
pub open spec fn track_source_from(
    id: Option<crate::wire::TrackId>,
    id_place: Place,
    source_place: Place,
) -> Result<PlaylistTrackSource, WireError> {
    match id {
        Some(id) => match id.source {
            Some(s) => Ok(source_from(s)),
            None => Err(WireError::Missing(source_place)),
        },
        None => Err(WireError::Missing(id_place)),
    }
}

/// The message for the change `ev` to the playlist.
pub open spec fn playlist_update_of(ev: UpdatePlaylistEvents) -> crate::wire::UpdatePlaylist {
    crate::wire::UpdatePlaylist {
        kind: Some(
            match ev {
                UpdatePlaylistEvents::PlaylistAddTrack(vals) => crate::wire::PlaylistKind::AddTrack(
                    crate::wire::AddTrack {
                        at_index: vals.at_index,
                        optional_title: vals.title,
                        duration: Some(duration_of(vals.duration)),
                        id: Some(track_id_of(vals.trackid)),
                    },
                ),
                UpdatePlaylistEvents::PlaylistRemoveTrack(vals) => crate::wire::PlaylistKind::RemoveTrack(
                    crate::wire::RemoveTrack {
                        at_index: vals.at_index,
                        id: Some(track_id_of(vals.trackid)),
                    },
                ),
                UpdatePlaylistEvents::PlaylistCleared => crate::wire::PlaylistKind::Cleared(
                    crate::wire::Cleared {  },
                ),
                UpdatePlaylistEvents::PlaylistLoopMode(vals) => crate::wire::PlaylistKind::LoopMode(
                    crate::wire::LoopMode { mode: vals.mode },
                ),
                UpdatePlaylistEvents::PlaylistSwapTracks(vals) => crate::wire::PlaylistKind::SwapTracks(
                    crate::wire::SwapTracks { index_a: vals.index_a, index_b: vals.index_b },
                ),
                UpdatePlaylistEvents::PlaylistShuffled(vals) => crate::wire::PlaylistKind::Shuffled(
                    crate::wire::Shuffled { shuffled: Some(vals.tracks) },
                ),
            },
        ),
    }
}

/// The change to the playlist that the message `u` holds, or the error for
/// the first field that is missing.
pub open spec fn playlist_event_from(u: crate::wire::UpdatePlaylist) -> Result<
    UpdatePlaylistEvents,
    WireError,
> {
    match u.kind {
        None => Err(WireError::Missing(Place::UpdatePlaylistType)),
        Some(crate::wire::PlaylistKind::AddTrack(ev)) => match ev.duration {
            None => Err(WireError::Missing(Place::AddTrackDuration)),
            Some(d) => match time_from(d) {
                Err(e) => Err(e),
                Ok(duration) => match track_source_from(
                    ev.id,
                    Place::AddTrackId,
                    Place::AddTrackIdSource,
                ) {
                    Err(e) => Err(e),
                    Ok(trackid) => Ok(
                        UpdatePlaylistEvents::PlaylistAddTrack(
                            PlaylistAddTrackInfo {
                                at_index: ev.at_index,
                                title: ev.optional_title,
                                duration,
                                trackid,
                            },
                        ),
                    ),
                },
            },
        },
        Some(crate::wire::PlaylistKind::RemoveTrack(ev)) => match track_source_from(
            ev.id,
            Place::RemoveTrackId,
            Place::RemoveTrackIdSource,
        ) {
            Err(e) => Err(e),
            Ok(trackid) => Ok(
                UpdatePlaylistEvents::PlaylistRemoveTrack(
                    PlaylistRemoveTrackInfo { at_index: ev.at_index, trackid },
                ),
            ),
        },
        Some(crate::wire::PlaylistKind::Cleared(_)) => Ok(UpdatePlaylistEvents::PlaylistCleared),
        Some(crate::wire::PlaylistKind::LoopMode(ev)) => Ok(
            UpdatePlaylistEvents::PlaylistLoopMode(PlaylistLoopModeInfo { mode: ev.mode }),
        ),
        Some(crate::wire::PlaylistKind::SwapTracks(ev)) => Ok(
            UpdatePlaylistEvents::PlaylistSwapTracks(
                PlaylistSwapInfo { index_a: ev.index_a, index_b: ev.index_b },
            ),
        ),
        Some(crate::wire::PlaylistKind::Shuffled(ev)) => match ev.shuffled {
            None => Err(WireError::Missing(Place::ShuffledShuffled)),
            Some(tracks) => Ok(
                UpdatePlaylistEvents::PlaylistShuffled(PlaylistShuffledInfo { tracks }),
            ),
        },
    }
}

/// The message for the update `ev`.
pub open spec fn stream_update_of(ev: UpdateEvents) -> crate::wire::StreamUpdates {
    crate::wire::StreamUpdates {
        kind: Some(
            match ev {
                UpdateEvents::MissedEvents { amount } => crate::wire::StreamKind::MissedEvents(
                    crate::wire::UpdateMissedEvents { amount },
                ),
                UpdateEvents::VolumeChanged { volume } => crate::wire::StreamKind::VolumeChanged(
                    crate::wire::UpdateVolumeChanged {
                        msg: Some(crate::wire::VolumeReply { volume: volume as u32 }),
                    },
                ),
                UpdateEvents::SpeedChanged { speed } => crate::wire::StreamKind::SpeedChanged(
                    crate::wire::UpdateSpeedChanged { msg: Some(crate::wire::SpeedReply { speed }) },
                ),
                UpdateEvents::PlayStateChanged { playing } => crate::wire::StreamKind::PlayStateChanged(
                    crate::wire::UpdatePlayStateChanged {
                        msg: Some(crate::wire::PlayState { status: playing }),
                    },
                ),
                UpdateEvents::TrackChanged(info) => crate::wire::StreamKind::TrackChanged(
                    crate::wire::UpdateTrackChanged {
                        current_track_index: info.current_track_index,
                        current_track_updated: info.current_track_updated,
                        optional_title: info.title,
                        progress: match info.progress {
                            Some(p) => Some(player_time_of(p)),
                            None => None,
                        },
                    },
                ),
                UpdateEvents::GaplessChanged { gapless } => crate::wire::StreamKind::GaplessChanged(
                    crate::wire::UpdateGaplessChanged {
                        msg: Some(crate::wire::GaplessState { gapless }),
                    },
                ),
                UpdateEvents::PlaylistChanged(ev) => crate::wire::StreamKind::PlaylistChanged(
                    playlist_update_of(ev),
                ),
                UpdateEvents::Progress(p) => crate::wire::StreamKind::ProgressChanged(
                    crate::wire::UpdateProgress { progress: Some(player_time_of(p)) },
                ),
            },
        ),
    }
}

/// The volume that the number `volume` of a message stands for.
pub open spec fn volume_from(volume: u32) -> u16 {
    if volume > u16::MAX {
        u16::MAX
    } else {
        volume as u16
    }
}

/// The update that the message `u` holds, or the error for the first field
/// that is missing.
pub open spec fn event_from(u: crate::wire::StreamUpdates) -> Result<UpdateEvents, WireError> {
    match u.kind {
        None => Err(WireError::Missing(Place::StreamUpdatesType)),
        Some(crate::wire::StreamKind::VolumeChanged(ev)) => match ev.msg {
            Some(m) => Ok(UpdateEvents::VolumeChanged { volume: volume_from(m.volume) }),
            None => Err(WireError::Missing(Place::VolumeChangedMsg)),
        },
        Some(crate::wire::StreamKind::SpeedChanged(ev)) => match ev.msg {
            Some(m) => Ok(UpdateEvents::SpeedChanged { speed: m.speed }),
            None => Err(WireError::Missing(Place::SpeedChangedMsg)),
        },
        Some(crate::wire::StreamKind::PlayStateChanged(ev)) => match ev.msg {
            Some(m) => Ok(UpdateEvents::PlayStateChanged { playing: m.status }),
            None => Err(WireError::Missing(Place::PlayStateChangedMsg)),
        },
        Some(crate::wire::StreamKind::MissedEvents(ev)) => Ok(
            UpdateEvents::MissedEvents { amount: ev.amount },
        ),
        Some(crate::wire::StreamKind::TrackChanged(ev)) => match optional_progress_from(
            ev.progress,
        ) {
            Ok(progress) => Ok(
                UpdateEvents::TrackChanged(
                    TrackChangedInfo {
                        current_track_index: ev.current_track_index,
                        current_track_updated: ev.current_track_updated,
                        title: ev.optional_title,
                        progress,
                    },
                ),
            ),
            Err(e) => Err(e),
        },
        Some(crate::wire::StreamKind::GaplessChanged(ev)) => match ev.msg {
            Some(m) => Ok(UpdateEvents::GaplessChanged { gapless: m.gapless }),
            None => Err(WireError::Missing(Place::GaplessChangedMsg)),
        },
        Some(crate::wire::StreamKind::PlaylistChanged(ev)) => match playlist_event_from(ev) {
            Ok(e) => Ok(UpdateEvents::PlaylistChanged(e)),
            Err(e) => Err(e),
        },
        Some(crate::wire::StreamKind::ProgressChanged(ev)) => match ev.progress {
            None => Err(WireError::Missing(Place::UpdateProgressProgress)),
            Some(t) => match progress_from(t) {
                Ok(p) => Ok(UpdateEvents::Progress(p)),
                Err(e) => Err(e),
            },
        },
    }
}

/// Whether every span of the progress `p` has a rest below a second.
pub open spec fn normal_progress(p: PlayerProgress) -> bool {
    &&& p.position is Some ==> p.position->0.is_normal()
    &&& p.total_duration is Some ==> p.total_duration->0.is_normal()
}

/// Whether every span of the update `ev` has a rest below a second, as
/// every span that a program holds has.
pub open spec fn normal_event(ev: UpdateEvents) -> bool {
    match ev {
        UpdateEvents::TrackChanged(info) => info.progress is Some ==> normal_progress(
            info.progress->0,
        ),
        UpdateEvents::PlaylistChanged(UpdatePlaylistEvents::PlaylistAddTrack(vals)) => vals.duration.is_normal(),
        UpdateEvents::Progress(p) => normal_progress(p),
        _ => true,
    }
}

/// A progress that is sent as a message and read back is the same
/// progress.
pub proof fn lemma_progress_round_trip(p: PlayerProgress)
    requires
        normal_progress(p),
    ensures
        progress_from(player_time_of(p)) == Ok::<PlayerProgress, WireError>(p),
{
    if p.position is Some {
        p.position->0.lemma_normal();
    }
    if p.total_duration is Some {
        p.total_duration->0.lemma_normal();
    }
}

/// A source that is sent as a message and read back is the same source.
pub proof fn lemma_source_round_trip(s: PlaylistTrackSource, id_place: Place, source_place: Place)
    ensures
        source_from(source_of(s)) == s,
        track_source_from(Some(track_id_of(s)), id_place, source_place) == Ok::<
            PlaylistTrackSource,
            WireError,
        >(s),
{
}

/// An update that is sent as a message and read back is the same update.
pub proof fn lemma_event_round_trip(ev: UpdateEvents)
    requires
        normal_event(ev),
    ensures
        event_from(stream_update_of(ev)) == Ok::<UpdateEvents, WireError>(ev),
{
    match ev {
        UpdateEvents::TrackChanged(info) => {
            if info.progress is Some {
                lemma_progress_round_trip(info.progress->0);
            }
        },
        UpdateEvents::Progress(p) => {
            lemma_progress_round_trip(p);
        },
        UpdateEvents::PlaylistChanged(pe) => {
            match pe {
                UpdatePlaylistEvents::PlaylistAddTrack(vals) => {
                    vals.duration.lemma_normal();
                    lemma_source_round_trip(
                        vals.trackid,
                        Place::AddTrackId,
                        Place::AddTrackIdSource,
                    );
                },
                UpdatePlaylistEvents::PlaylistRemoveTrack(vals) => {
                    lemma_source_round_trip(
                        vals.trackid,
                        Place::RemoveTrackId,
                        Place::RemoveTrackIdSource,
                    );
                },
                _ => {},
            }
        },
        _ => {},
    }
}

impl crate::wire::Duration {
    /// The message for the span `value`.
    pub fn from(value: PlayerTimeUnit) -> (r: Self)
        ensures
            r == duration_of(value),
    {
        crate::wire::Duration { secs: value.as_secs(), nanos: value.subsec_nanos() }
    }
}

impl PlayerTimeUnit {
    /// The span that the message `value` holds, or the error
    /// `DurationOutOfRange` where it is longer than a span can be.
    pub fn try_from(value: crate::wire::Duration) -> (r: Result<Self, WireError>)
        ensures
            r == time_from(value),
    {
        match PlayerTimeUnit::checked_new(value.secs, value.nanos) {
            Some(t) => Ok(t),
            None => Err(WireError::DurationOutOfRange),
        }
    }
}

/// The message for the optional span `t`.
fn optional_duration(t: Option<PlayerTimeUnit>) -> (r: Option<crate::wire::Duration>)
    ensures
        r == optional_duration_of(t),
{
    match t {
        Some(t) => Some(crate::wire::Duration::from(t)),
        None => None,
    }
}

/// The optional span that the message `d` holds.
fn optional_time(d: Option<crate::wire::Duration>) -> (r: Result<Option<PlayerTimeUnit>, WireError>)
    ensures
        r == optional_time_from(d),
{
    match d {
        Some(d) => match PlayerTimeUnit::try_from(d) {
            Ok(t) => Ok(Some(t)),
            Err(e) => Err(e),
        },
        None => Ok(None),
    }
}

impl crate::wire::PlayerTime {
    /// The message for the progress `value`.
    pub fn from(value: PlayerProgress) -> (r: Self)
        ensures
            r == player_time_of(value),
    {
        crate::wire::PlayerTime {
            position: optional_duration(value.position),
            total_duration: optional_duration(value.total_duration),
        }
    }
}

impl crate::wire::UpdateProgress {
    /// The message that reports the progress `value`.
    pub fn from(value: PlayerProgress) -> (r: Self)
        ensures
            r == (crate::wire::UpdateProgress { progress: Some(player_time_of(value)) }),
    {
        crate::wire::UpdateProgress { progress: Some(crate::wire::PlayerTime::from(value)) }
    }
}

impl PlayerProgress {
    /// The progress that the message `value` holds.
    pub fn from_player_time(value: crate::wire::PlayerTime) -> (r: Result<Self, WireError>)
        ensures
            r == progress_from(value),
    {
        let position = match optional_time(value.position) {
            Ok(t) => t,
            Err(e) => {
                return Err(e);
            },
        };
        let total_duration = match optional_time(value.total_duration) {
            Ok(t) => t,
            Err(e) => {
                return Err(e);
            },
        };
        Ok(PlayerProgress { position, total_duration })
    }

    /// The progress that the message `value` reports, or an error where it
    /// reports none.
    pub fn try_from(value: crate::wire::UpdateProgress) -> (r: Result<Self, WireError>)
        ensures
            r == match value.progress {
                Some(t) => progress_from(t),
                None => Err::<PlayerProgress, WireError>(
                    WireError::Missing(Place::UpdateProgressProgress),
                ),
            },
    {
        match value.progress {
            Some(t) => PlayerProgress::from_player_time(t),
            None => Err(WireError::Missing(Place::UpdateProgressProgress)),
        }
    }
}

impl crate::wire::Source {
    /// The message for the source `value`.
    pub fn from(value: PlaylistTrackSource) -> (r: Self)
        ensures
            r == source_of(value),
    {
        match value {
            PlaylistTrackSource::Path(v) => crate::wire::Source::Path(v),
            PlaylistTrackSource::Url(v) => crate::wire::Source::Url(v),
            PlaylistTrackSource::PodcastUrl(v) => crate::wire::Source::PodcastUrl(v),
        }
    }
}

impl crate::wire::TrackId {
    /// The id message for the source `value`.
    pub fn from(value: PlaylistTrackSource) -> (r: Self)
        ensures
            r == track_id_of(value),
    {
        crate::wire::TrackId { source: Some(crate::wire::Source::from(value)) }
    }
}

impl PlaylistTrackSource {
    /// The source that the message `value` holds.
    pub fn from_source(value: crate::wire::Source) -> (r: Self)
        ensures
            r == source_from(value),
    {
        match value {
            crate::wire::Source::Path(v) => PlaylistTrackSource::Path(v),
            crate::wire::Source::Url(v) => PlaylistTrackSource::Url(v),
            crate::wire::Source::PodcastUrl(v) => PlaylistTrackSource::PodcastUrl(v),
        }
    }

    /// The source that the id message `value` holds, or an error where it
    /// holds none.
    pub fn try_from(value: crate::wire::TrackId) -> (r: Result<Self, WireError>)
        ensures
            r == track_source_from(Some(value), Place::TrackIdSource, Place::TrackIdSource),
    {
        match unwrap_msg(value.source, Place::TrackIdSource) {
            Ok(s) => Ok(PlaylistTrackSource::from_source(s)),
            Err(e) => Err(e),
        }
    }
}

/// The source that the optional id message `id` holds.
fn track_source(id: Option<crate::wire::TrackId>, id_place: Place, source_place: Place) -> (r:
    Result<PlaylistTrackSource, WireError>)
    ensures
        r == track_source_from(id, id_place, source_place),
{
    let id = match unwrap_msg(id, id_place) {
        Ok(id) => id,
        Err(e) => {
            return Err(e);
        },
    };
    match unwrap_msg(id.source, source_place) {
        Ok(s) => Ok(PlaylistTrackSource::from_source(s)),
        Err(e) => Err(e),
    }
}

impl crate::wire::UpdatePlaylist {
    /// The message for the change `value` to the playlist.
    pub fn from(value: UpdatePlaylistEvents) -> (r: Self)
        ensures
            r == playlist_update_of(value),
    {
        let val = match value {
            UpdatePlaylistEvents::PlaylistAddTrack(vals) => crate::wire::PlaylistKind::AddTrack(
                crate::wire::AddTrack {
                    at_index: vals.at_index,
                    optional_title: vals.title,
                    duration: Some(crate::wire::Duration::from(vals.duration)),
                    id: Some(crate::wire::TrackId::from(vals.trackid)),
                },
            ),
            UpdatePlaylistEvents::PlaylistRemoveTrack(vals) => crate::wire::PlaylistKind::RemoveTrack(
                crate::wire::RemoveTrack {
                    at_index: vals.at_index,
                    id: Some(crate::wire::TrackId::from(vals.trackid)),
                },
            ),
            UpdatePlaylistEvents::PlaylistCleared => crate::wire::PlaylistKind::Cleared(
                crate::wire::Cleared {  },
            ),
            UpdatePlaylistEvents::PlaylistLoopMode(vals) => crate::wire::PlaylistKind::LoopMode(
                crate::wire::LoopMode { mode: vals.mode },
            ),
            UpdatePlaylistEvents::PlaylistSwapTracks(vals) => crate::wire::PlaylistKind::SwapTracks(
                crate::wire::SwapTracks { index_a: vals.index_a, index_b: vals.index_b },
            ),
            UpdatePlaylistEvents::PlaylistShuffled(vals) => crate::wire::PlaylistKind::Shuffled(
                crate::wire::Shuffled { shuffled: Some(vals.tracks) },
            ),
        };
        crate::wire::UpdatePlaylist { kind: Some(val) }
    }
}

impl UpdatePlaylistEvents {
    /// The change to the playlist that the message `value` holds, or the
    /// error for the first field that is missing.
    pub fn try_from(value: crate::wire::UpdatePlaylist) -> (r: Result<Self, WireError>)
        ensures
            r == playlist_event_from(value),
    {
        let kind = match unwrap_msg(value.kind, Place::UpdatePlaylistType) {
            Ok(k) => k,
            Err(e) => {
                return Err(e);
            },
        };
        match kind {
            crate::wire::PlaylistKind::AddTrack(ev) => {
                let d = match unwrap_msg(ev.duration, Place::AddTrackDuration) {
                    Ok(d) => d,
                    Err(e) => {
                        return Err(e);
                    },
                };
                let duration = match PlayerTimeUnit::try_from(d) {
                    Ok(t) => t,
                    Err(e) => {
                        return Err(e);
                    },
                };
                let trackid = match track_source(
                    ev.id,
                    Place::AddTrackId,
                    Place::AddTrackIdSource,
                ) {
                    Ok(s) => s,
                    Err(e) => {
                        return Err(e);
                    },
                };
                Ok(
                    UpdatePlaylistEvents::PlaylistAddTrack(
                        PlaylistAddTrackInfo {
                            at_index: ev.at_index,
                            title: ev.optional_title,
                            duration,
                            trackid,
                        },
                    ),
                )
            },
            crate::wire::PlaylistKind::RemoveTrack(ev) => {
                match track_source(ev.id, Place::RemoveTrackId, Place::RemoveTrackIdSource) {
                    Ok(trackid) => Ok(
                        UpdatePlaylistEvents::PlaylistRemoveTrack(
                            PlaylistRemoveTrackInfo { at_index: ev.at_index, trackid },
                        ),
                    ),
                    Err(e) => Err(e),
                }
            },
            crate::wire::PlaylistKind::Cleared(_) => Ok(UpdatePlaylistEvents::PlaylistCleared),
            crate::wire::PlaylistKind::LoopMode(ev) => Ok(
                UpdatePlaylistEvents::PlaylistLoopMode(PlaylistLoopModeInfo { mode: ev.mode }),
            ),
            crate::wire::PlaylistKind::SwapTracks(ev) => Ok(
                UpdatePlaylistEvents::PlaylistSwapTracks(
                    PlaylistSwapInfo { index_a: ev.index_a, index_b: ev.index_b },
                ),
            ),
            crate::wire::PlaylistKind::Shuffled(ev) => {
                match unwrap_msg(ev.shuffled, Place::ShuffledShuffled) {
                    Ok(tracks) => Ok(
                        UpdatePlaylistEvents::PlaylistShuffled(PlaylistShuffledInfo { tracks }),
                    ),
                    Err(e) => Err(e),
                }
            },
        }
    }
}

impl crate::wire::StreamUpdates {
    /// The message for the update `value`.
    pub fn from(value: UpdateEvents) -> (r: Self)
        ensures
            r == stream_update_of(value),
    {
        let val = match value {
            UpdateEvents::MissedEvents { amount } => crate::wire::StreamKind::MissedEvents(
                crate::wire::UpdateMissedEvents { amount },
            ),
            UpdateEvents::VolumeChanged { volume } => crate::wire::StreamKind::VolumeChanged(
                crate::wire::UpdateVolumeChanged {
                    msg: Some(crate::wire::VolumeReply { volume: volume as u32 }),
                },
            ),
            UpdateEvents::SpeedChanged { speed } => crate::wire::StreamKind::SpeedChanged(
                crate::wire::UpdateSpeedChanged { msg: Some(crate::wire::SpeedReply { speed }) },
            ),
            UpdateEvents::PlayStateChanged { playing } => crate::wire::StreamKind::PlayStateChanged(
                crate::wire::UpdatePlayStateChanged {
                    msg: Some(crate::wire::PlayState { status: playing }),
                },
            ),
            UpdateEvents::TrackChanged(info) => crate::wire::StreamKind::TrackChanged(
                crate::wire::UpdateTrackChanged {
                    current_track_index: info.current_track_index,
                    current_track_updated: info.current_track_updated,
                    optional_title: info.title,
                    progress: match info.progress {
                        Some(p) => Some(crate::wire::PlayerTime::from(p)),
                        None => None,
                    },
                },
            ),
            UpdateEvents::GaplessChanged { gapless } => crate::wire::StreamKind::GaplessChanged(
                crate::wire::UpdateGaplessChanged {
                    msg: Some(crate::wire::GaplessState { gapless }),
                },
            ),
            UpdateEvents::PlaylistChanged(ev) => crate::wire::StreamKind::PlaylistChanged(
                crate::wire::UpdatePlaylist::from(ev),
            ),
            UpdateEvents::Progress(ev) => crate::wire::StreamKind::ProgressChanged(
                crate::wire::UpdateProgress::from(ev),
            ),
        };
        crate::wire::StreamUpdates { kind: Some(val) }
    }
}

impl UpdateEvents {
    /// The update that the message `value` holds, or the error for the
    /// first field that is missing.
    pub fn try_from(value: crate::wire::StreamUpdates) -> (r: Result<Self, WireError>)
        ensures
            r == event_from(value),
    {
        let kind = match unwrap_msg(value.kind, Place::StreamUpdatesType) {
            Ok(k) => k,
            Err(e) => {
                return Err(e);
            },
        };
        match kind {
            crate::wire::StreamKind::VolumeChanged(ev) => match unwrap_msg(
                ev.msg,
                Place::VolumeChangedMsg,
            ) {
                Ok(m) => Ok(UpdateEvents::VolumeChanged { volume: clamp_u16(m.volume) }),
                Err(e) => Err(e),
            },
            crate::wire::StreamKind::SpeedChanged(ev) => match unwrap_msg(
                ev.msg,
                Place::SpeedChangedMsg,
            ) {
                Ok(m) => Ok(UpdateEvents::SpeedChanged { speed: m.speed }),
                Err(e) => Err(e),
            },
            crate::wire::StreamKind::PlayStateChanged(ev) => match unwrap_msg(
                ev.msg,
                Place::PlayStateChangedMsg,
            ) {
                Ok(m) => Ok(UpdateEvents::PlayStateChanged { playing: m.status }),
                Err(e) => Err(e),
            },
            crate::wire::StreamKind::MissedEvents(ev) => Ok(
                UpdateEvents::MissedEvents { amount: ev.amount },
            ),
            crate::wire::StreamKind::TrackChanged(ev) => {
                let progress = match ev.progress {
                    Some(t) => match PlayerProgress::from_player_time(t) {
                        Ok(p) => Some(p),
                        Err(e) => {
                            return Err(e);
                        },
                    },
                    None => None,
                };
                Ok(
                    UpdateEvents::TrackChanged(
                        TrackChangedInfo {
                            current_track_index: ev.current_track_index,
                            current_track_updated: ev.current_track_updated,
                            title: ev.optional_title,
                            progress,
                        },
                    ),
                )
            },
            crate::wire::StreamKind::GaplessChanged(ev) => match unwrap_msg(
                ev.msg,
                Place::GaplessChangedMsg,
            ) {
                Ok(m) => Ok(UpdateEvents::GaplessChanged { gapless: m.gapless }),
                Err(e) => Err(e),
            },
            crate::wire::StreamKind::PlaylistChanged(ev) => match UpdatePlaylistEvents::try_from(
                ev,
            ) {
                Ok(e) => Ok(UpdateEvents::PlaylistChanged(e)),
                Err(e) => Err(e),
            },
            crate::wire::StreamKind::ProgressChanged(ev) => match PlayerProgress::try_from(ev) {
                Ok(p) => Ok(UpdateEvents::Progress(p)),
                Err(e) => Err(e),
            },
        }
    }
}

/// The id messages for the sources `tracks`, in their order.
pub open spec fn ids_of(tracks: Seq<PlaylistTrackSource>) -> Seq<crate::wire::TrackId> {
    Seq::new(tracks.len(), |i: int| track_id_of(tracks[i]))
}

/// Whether each of the id messages `ids` holds a source.
pub open spec fn all_have_source(ids: Seq<crate::wire::TrackId>) -> bool {
    forall|i: int| 0 <= i < ids.len() ==> (#[trigger] ids[i]).source is Some
}

/// The sources that the id messages `ids` hold, in their order.
pub open spec fn sources_from(ids: Seq<crate::wire::TrackId>) -> Seq<PlaylistTrackSource> {
    Seq::new(ids.len(), |i: int| source_from(ids[i].source->0))
}

/// Sources that are sent as id messages and read back are the same sources.
pub proof fn lemma_sources_round_trip(tracks: Seq<PlaylistTrackSource>)
    ensures
        all_have_source(ids_of(tracks)),
        sources_from(ids_of(tracks)) == tracks,
{
    assert(sources_from(ids_of(tracks)) =~= tracks);
}

/// A copy of `s`.
pub fn clone_source(s: &PlaylistTrackSource) -> (r: PlaylistTrackSource)
    ensures
        r == *s,
{
    match s {
        PlaylistTrackSource::Path(v) => PlaylistTrackSource::Path(v.clone()),
        PlaylistTrackSource::Url(v) => PlaylistTrackSource::Url(v.clone()),
        PlaylistTrackSource::PodcastUrl(v) => PlaylistTrackSource::PodcastUrl(v.clone()),
    }
}

/// The id messages for the sources `tracks`.
fn ids_for(tracks: &Vec<PlaylistTrackSource>) -> (r: Vec<crate::wire::TrackId>)
    ensures
        r@ == ids_of(tracks@),
{
    let mut out: Vec<crate::wire::TrackId> = Vec::new();
    let mut i: usize = 0;
    while i < tracks.len()
        invariant
            i <= tracks@.len(),
            out@.len() == i,
            forall|j: int| 0 <= j < i ==> #[trigger] out@[j] == track_id_of(tracks@[j]),
        decreases tracks@.len() - i,
    {
        out.push(crate::wire::TrackId::from(clone_source(&tracks[i])));
        i += 1;
    }
    assert(out@ =~= ids_of(tracks@));
    out
}

/// A copy of the message `s`.
fn clone_wire_source(s: &crate::wire::Source) -> (r: crate::wire::Source)
    ensures
        r == *s,
{
    match s {
        crate::wire::Source::Path(v) => crate::wire::Source::Path(v.clone()),
        crate::wire::Source::Url(v) => crate::wire::Source::Url(v.clone()),
        crate::wire::Source::PodcastUrl(v) => crate::wire::Source::PodcastUrl(v.clone()),
    }
}

/// The sources that the id messages `ids` hold, or an error where one of
/// them holds none.
fn sources_for(ids: &Vec<crate::wire::TrackId>) -> (r: Result<Vec<PlaylistTrackSource>, WireError>)
    ensures
        match r {
            Ok(v) => all_have_source(ids@) && v@ == sources_from(ids@),
            Err(e) => !all_have_source(ids@) && e == WireError::Missing(Place::TrackIdSource),
        },
{
    let mut out: Vec<PlaylistTrackSource> = Vec::new();
    let mut i: usize = 0;
    while i < ids.len()
        invariant
            i <= ids@.len(),
            out@.len() == i,
            forall|j: int| 0 <= j < i ==> (#[trigger] ids@[j]).source is Some,
            forall|j: int| 0 <= j < i ==> #[trigger] out@[j] == source_from(ids@[j].source->0),
        decreases ids@.len() - i,
    {
        match &ids[i].source {
            Some(s) => {
                out.push(PlaylistTrackSource::from_source(clone_wire_source(s)));
            },
            None => {
                return Err(WireError::Missing(Place::TrackIdSource));
            },
        }
        i += 1;
    }
    assert(out@ =~= sources_from(ids@));
    Ok(out)
}

impl crate::wire::TracksToAdd {
    /// The message for the request `value`.
    pub fn from(value: PlaylistAddTrack) -> (r: Self)
        ensures
            r.at_index == value.at_index,
            r.tracks@ == ids_of(value.tracks@),
    {
        crate::wire::TracksToAdd { at_index: value.at_index, tracks: ids_for(&value.tracks) }
    }
}

impl PlaylistAddTrack {
    /// The request that the message `value` holds, or an error where one of
    /// its tracks has no source.
    pub fn try_from(value: crate::wire::TracksToAdd) -> (r: Result<Self, WireError>)
        ensures
            match r {
                Ok(v) => all_have_source(value.tracks@) && v.at_index == value.at_index
                    && v.tracks@ == sources_from(value.tracks@),
                Err(e) => !all_have_source(value.tracks@) && e == WireError::Missing(
                    Place::TrackIdSource,
                ),
            },
    {
        match sources_for(&value.tracks) {
            Ok(tracks) => Ok(PlaylistAddTrack { at_index: value.at_index, tracks }),
            Err(e) => Err(e),
        }
    }
}

impl crate::wire::TracksToRemoveIndexed {
    /// The message for the request `value`.
    pub fn from(value: PlaylistRemoveTrackIndexed) -> (r: Self)
        ensures
            r.at_index == value.at_index,
            r.tracks@ == ids_of(value.tracks@),
    {
        crate::wire::TracksToRemoveIndexed {
            at_index: value.at_index,
            tracks: ids_for(&value.tracks),
        }
    }
}

impl PlaylistRemoveTrackIndexed {
    /// The request that the message `value` holds, or an error where one of
    /// its tracks has no source.
    pub fn try_from(value: crate::wire::TracksToRemoveIndexed) -> (r: Result<Self, WireError>)
        ensures
            match r {
                Ok(v) => all_have_source(value.tracks@) && v.at_index == value.at_index
                    && v.tracks@ == sources_from(value.tracks@),
                Err(e) => !all_have_source(value.tracks@) && e == WireError::Missing(
                    Place::TrackIdSource,
                ),
            },
    {
        match sources_for(&value.tracks) {
            Ok(tracks) => Ok(PlaylistRemoveTrackIndexed { at_index: value.at_index, tracks }),
            Err(e) => Err(e),
        }
    }
}

impl crate::wire::TracksToRemove {
    /// The message for the request `value`.
    pub fn from(value: PlaylistRemoveTrackType) -> (r: Self)
        ensures
            match value {
                PlaylistRemoveTrackType::Indexed(v) => r.kind is Some && r.kind->0 is Indexed
                    && r.kind->0->Indexed_0.at_index == v.at_index
                    && r.kind->0->Indexed_0.tracks@ == ids_of(v.tracks@),
                PlaylistRemoveTrackType::Clear => r.kind == Some(
                    crate::wire::RemoveKind::Clear(crate::wire::TracksToRemoveClear {  }),
                ),
            },
    {
        crate::wire::TracksToRemove {
            kind: Some(
                match value {
                    PlaylistRemoveTrackType::Indexed(v) => crate::wire::RemoveKind::Indexed(
                        crate::wire::TracksToRemoveIndexed::from(v),
                    ),
                    PlaylistRemoveTrackType::Clear => crate::wire::RemoveKind::Clear(
                        crate::wire::TracksToRemoveClear {  },
                    ),
                },
            ),
        }
    }
}

impl PlaylistRemoveTrackType {
    /// The request that the message `value` holds, or the error for the
    /// first field that is missing.
    pub fn try_from(value: crate::wire::TracksToRemove) -> (r: Result<Self, WireError>)
        ensures
            match value.kind {
                None => r == Err::<PlaylistRemoveTrackType, WireError>(
                    WireError::Missing(Place::TracksToRemoveType),
                ),
                Some(crate::wire::RemoveKind::Clear(_)) => r == Ok::<
                    PlaylistRemoveTrackType,
                    WireError,
                >(PlaylistRemoveTrackType::Clear),
                Some(crate::wire::RemoveKind::Indexed(v)) => if all_have_source(v.tracks@) {
                    r is Ok && r->Ok_0 is Indexed && r->Ok_0->Indexed_0.at_index == v.at_index
                        && r->Ok_0->Indexed_0.tracks@ == sources_from(v.tracks@)
                } else {
                    r == Err::<PlaylistRemoveTrackType, WireError>(
                        WireError::Missing(Place::TrackIdSource),
                    )
                },
            },
    {
        let kind = match unwrap_msg(value.kind, Place::TracksToRemoveType) {
            Ok(k) => k,
            Err(e) => {
                return Err(e);
            },
        };
        match kind {
            crate::wire::RemoveKind::Indexed(v) => match PlaylistRemoveTrackIndexed::try_from(v) {
                Ok(v) => Ok(PlaylistRemoveTrackType::Indexed(v)),
                Err(e) => Err(e),
            },
            crate::wire::RemoveKind::Clear(_) => Ok(PlaylistRemoveTrackType::Clear),
        }
    }
}

impl crate::wire::SwapRequest {
    /// The message for the request `value`.
    pub fn from(value: PlaylistSwapTrack) -> (r: Self)
        ensures
            r == (crate::wire::SwapRequest { index_a: value.index_a, index_b: value.index_b }),
    {
        crate::wire::SwapRequest { index_a: value.index_a, index_b: value.index_b }
    }
}

impl PlaylistSwapTrack {
    /// The request that the message `value` holds.
    pub fn try_from(value: crate::wire::SwapRequest) -> (r: Result<Self, WireError>)
        ensures
            r == Ok::<PlaylistSwapTrack, WireError>(
                PlaylistSwapTrack { index_a: value.index_a, index_b: value.index_b },
            ),
    {
        Ok(PlaylistSwapTrack { index_a: value.index_a, index_b: value.index_b })
    }
}

impl crate::wire::PlaySpecific {
    /// The message for the request `value`.
    pub fn from(value: PlaylistPlaySpecific) -> (r: Self)
        ensures
            r == (crate::wire::PlaySpecific {
                track_index: value.track_index,
                id: Some(track_id_of(value.id)),
            }),
    {
        crate::wire::PlaySpecific {
            track_index: value.track_index,
            id: Some(crate::wire::TrackId::from(value.id)),
        }
    }
}

impl PlaylistPlaySpecific {
    /// The request that the message `value` holds, or the error for the
    /// first field that is missing.
    pub fn try_from(value: crate::wire::PlaySpecific) -> (r: Result<Self, WireError>)
        ensures
            r == match track_source_from(value.id, Place::PlaySpecificId, Place::TrackIdSource) {
                Ok(id) => Ok::<PlaylistPlaySpecific, WireError>(
                    PlaylistPlaySpecific { track_index: value.track_index, id },
                ),
                Err(e) => Err::<PlaylistPlaySpecific, WireError>(e),
            },
    {
        match track_source(value.id, Place::PlaySpecificId, Place::TrackIdSource) {
            Ok(id) => Ok(PlaylistPlaySpecific { track_index: value.track_index, id }),
            Err(e) => Err(e),
        }
    }
}

} // verus!

use termusic_core::player::playlist_helpers::{
    PlaylistAddTrack, PlaylistPlaySpecific, PlaylistRemoveTrackIndexed, PlaylistRemoveTrackType,
    PlaylistSwapTrack, PlaylistTrackSource,
};
use termusic_core::player::{
    PlayerProgress, PlayerTimeUnit, PlaylistAddTrackInfo, PlaylistLoopModeInfo,
    PlaylistRemoveTrackInfo, PlaylistShuffledInfo, PlaylistSwapInfo, TrackChangedInfo,
    UpdateEvents, UpdatePlaylistEvents,
};
use termusic_core::wire;
use termusic_core::wire::{unwrap_msg, Place, WireError};

fn missing<T>(place: Place) -> Result<T, WireError> {
    Err(WireError::Missing(place))
}

fn progress() -> PlayerProgress {
    PlayerProgress {
        position: Some(PlayerTimeUnit::new(3, 500)),
        total_duration: Some(PlayerTimeUnit::from_secs(200)),
    }
}

fn source(n: u8) -> PlaylistTrackSource {
    match n % 3 {
        0 => PlaylistTrackSource::Path(format!("/m/{n}.mp3")),
        1 => PlaylistTrackSource::Url(format!("http://radio/{n}")),
        _ => PlaylistTrackSource::PodcastUrl(format!("http://pod/{n}")),
    }
}

fn events() -> Vec<UpdateEvents> {
    vec![
        UpdateEvents::MissedEvents { amount: 7 },
        UpdateEvents::VolumeChanged { volume: 65_535 },
        UpdateEvents::SpeedChanged { speed: -3 },
        UpdateEvents::PlayStateChanged { playing: 2 },
        UpdateEvents::TrackChanged(TrackChangedInfo {
            current_track_index: 4,
            current_track_updated: true,
            title: Some("t".to_string()),
            progress: Some(progress()),
        }),
        UpdateEvents::TrackChanged(TrackChangedInfo {
            current_track_index: 0,
            current_track_updated: false,
            title: None,
            progress: None,
        }),
        UpdateEvents::GaplessChanged { gapless: true },
        UpdateEvents::Progress(PlayerProgress { position: None, total_duration: None }),
        UpdateEvents::Progress(progress()),
        UpdateEvents::PlaylistChanged(UpdatePlaylistEvents::PlaylistAddTrack(PlaylistAddTrackInfo {
            at_index: 1,
            title: Some("song".to_string()),
            duration: PlayerTimeUnit::from_millis(61_500),
            trackid: source(0),
        })),
        UpdateEvents::PlaylistChanged(UpdatePlaylistEvents::PlaylistRemoveTrack(
            PlaylistRemoveTrackInfo { at_index: 2, trackid: source(1) },
        )),
        UpdateEvents::PlaylistChanged(UpdatePlaylistEvents::PlaylistCleared),
        UpdateEvents::PlaylistChanged(UpdatePlaylistEvents::PlaylistLoopMode(
            PlaylistLoopModeInfo { mode: 1 },
        )),
        UpdateEvents::PlaylistChanged(UpdatePlaylistEvents::PlaylistSwapTracks(PlaylistSwapInfo {
            index_a: 5,
            index_b: 6,
        })),
        UpdateEvents::PlaylistChanged(UpdatePlaylistEvents::PlaylistShuffled(
            PlaylistShuffledInfo {
                tracks: wire::PlaylistTracks {
                    current_track_index: 1,
                    tracks: vec![wire::AddTrack {
                        at_index: 0,
                        optional_title: None,
                        duration: None,
                        id: None,
                    }],
                },
            },
        )),
    ]
}

#[test]
fn events_come_back_from_their_messages() {
    for ev in events() {
        assert_eq!(UpdateEvents::try_from(wire::StreamUpdates::from(ev.clone())), Ok(ev));
    }
}

#[test]
fn event_messages_hold_the_fields() {
    assert_eq!(
        wire::StreamUpdates::from(UpdateEvents::VolumeChanged { volume: 9 }),
        wire::StreamUpdates {
            kind: Some(wire::StreamKind::VolumeChanged(wire::UpdateVolumeChanged {
                msg: Some(wire::VolumeReply { volume: 9 })
            }))
        }
    );
    assert_eq!(
        wire::UpdateProgress::from(progress()),
        wire::UpdateProgress {
            progress: Some(wire::PlayerTime {
                position: Some(wire::Duration { secs: 3, nanos: 500 }),
                total_duration: Some(wire::Duration { secs: 200, nanos: 0 }),
            })
        }
    );
    assert_eq!(
        wire::TrackId::from(source(1)),
        wire::TrackId { source: Some(wire::Source::Url("http://radio/1".to_string())) }
    );
}

#[test]
fn volume_of_a_message_is_clamped() {
    let msg = wire::StreamUpdates {
        kind: Some(wire::StreamKind::VolumeChanged(wire::UpdateVolumeChanged {
            msg: Some(wire::VolumeReply { volume: 70_000 }),
        })),
    };
    assert_eq!(UpdateEvents::try_from(msg), Ok(UpdateEvents::VolumeChanged { volume: 65_535 }));
}

#[test]
fn missing_fields_are_named() {
    let stream = |kind| wire::StreamUpdates { kind: Some(kind) };
    assert_eq!(
        UpdateEvents::try_from(wire::StreamUpdates { kind: None }),
        missing(Place::StreamUpdatesType)
    );
    assert_eq!(
        UpdateEvents::try_from(stream(wire::StreamKind::VolumeChanged(
            wire::UpdateVolumeChanged { msg: None }
        ))),
        missing(Place::VolumeChangedMsg)
    );
    assert_eq!(
        UpdateEvents::try_from(stream(wire::StreamKind::SpeedChanged(
            wire::UpdateSpeedChanged { msg: None }
        ))),
        missing(Place::SpeedChangedMsg)
    );
    assert_eq!(
        UpdateEvents::try_from(stream(wire::StreamKind::PlayStateChanged(
            wire::UpdatePlayStateChanged { msg: None }
        ))),
        missing(Place::PlayStateChangedMsg)
    );
    assert_eq!(
        UpdateEvents::try_from(stream(wire::StreamKind::GaplessChanged(
            wire::UpdateGaplessChanged { msg: None }
        ))),
        missing(Place::GaplessChangedMsg)
    );
    assert_eq!(
        UpdateEvents::try_from(stream(wire::StreamKind::ProgressChanged(wire::UpdateProgress {
            progress: None
        }))),
        missing(Place::UpdateProgressProgress)
    );
    assert_eq!(
        UpdateEvents::try_from(stream(wire::StreamKind::PlaylistChanged(wire::UpdatePlaylist {
            kind: None
        }))),
        missing(Place::UpdatePlaylistType)
    );
}

#[test]
fn missing_fields_of_playlist_messages_are_named_in_order() {
    let update = |kind| wire::UpdatePlaylist { kind: Some(kind) };
    let add = |duration, id| {
        update(wire::PlaylistKind::AddTrack(wire::AddTrack {
            at_index: 0,
            optional_title: None,
            duration,
            id,
        }))
    };
    let d = Some(wire::Duration { secs: 1, nanos: 0 });
    assert_eq!(UpdatePlaylistEvents::try_from(add(None, None)), missing(Place::AddTrackDuration));
    assert_eq!(UpdatePlaylistEvents::try_from(add(d, None)), missing(Place::AddTrackId));
    assert_eq!(
        UpdatePlaylistEvents::try_from(add(d, Some(wire::TrackId { source: None }))),
        missing(Place::AddTrackIdSource)
    );
    assert_eq!(
        UpdatePlaylistEvents::try_from(add(
            Some(wire::Duration { secs: u64::MAX, nanos: 1_000_000_000 }),
            None
        )),
        Err(WireError::DurationOutOfRange)
    );
    let remove =
        |id| update(wire::PlaylistKind::RemoveTrack(wire::RemoveTrack { at_index: 0, id }));
    assert_eq!(UpdatePlaylistEvents::try_from(remove(None)), missing(Place::RemoveTrackId));
    assert_eq!(
        UpdatePlaylistEvents::try_from(remove(Some(wire::TrackId { source: None }))),
        missing(Place::RemoveTrackIdSource)
    );
    assert_eq!(
        UpdatePlaylistEvents::try_from(update(wire::PlaylistKind::Shuffled(wire::Shuffled {
            shuffled: None
        }))),
        missing(Place::ShuffledShuffled)
    );
}

#[test]
fn spans_carry_a_long_rest_over() {
    assert_eq!(
        PlayerTimeUnit::try_from(wire::Duration { secs: 1, nanos: 2_500_000_000 }),
        Ok(PlayerTimeUnit::new(3, 500_000_000))
    );
    assert_eq!(
        PlayerTimeUnit::try_from(wire::Duration { secs: u64::MAX, nanos: 999_999_999 })
            .map(|t| t.as_secs()),
        Ok(u64::MAX)
    );
    assert_eq!(
        PlayerTimeUnit::try_from(wire::Duration { secs: u64::MAX - 1, nanos: 2_000_000_000 }),
        Err(WireError::DurationOutOfRange)
    );
    assert_eq!(PlayerTimeUnit::checked_new(u64::MAX, 1_000_000_000), None);
    assert_eq!(
        wire::Duration::from(PlayerTimeUnit::from_millis(1500)),
        wire::Duration { secs: 1, nanos: 500_000_000 }
    );
    assert_eq!(
        PlayerProgress::from_player_time(wire::PlayerTime::from(progress())),
        Ok(progress())
    );
}

#[test]
fn requests_come_back_from_their_messages() {
    let add = PlaylistAddTrack::new_vec(3, vec![source(0), source(1), source(2)]);
    assert_eq!(PlaylistAddTrack::try_from(wire::TracksToAdd::from(add.clone())), Ok(add));
    let remove = PlaylistRemoveTrackIndexed::new_vec(1, vec![source(2), source(4)]);
    assert_eq!(
        PlaylistRemoveTrackIndexed::try_from(wire::TracksToRemoveIndexed::from(remove.clone())),
        Ok(remove.clone())
    );
    for kind in [PlaylistRemoveTrackType::Indexed(remove), PlaylistRemoveTrackType::Clear] {
        assert_eq!(
            PlaylistRemoveTrackType::try_from(wire::TracksToRemove::from(kind.clone())),
            Ok(kind)
        );
    }
    let swap = PlaylistSwapTrack { index_a: 1, index_b: 2 };
    assert_eq!(PlaylistSwapTrack::try_from(wire::SwapRequest::from(swap.clone())), Ok(swap));
    let play = PlaylistPlaySpecific { track_index: 9, id: source(5) };
    assert_eq!(PlaylistPlaySpecific::try_from(wire::PlaySpecific::from(play.clone())), Ok(play));
    for n in 0..3 {
        assert_eq!(PlaylistTrackSource::try_from(wire::TrackId::from(source(n))), Ok(source(n)));
        assert_eq!(PlaylistTrackSource::from_source(wire::Source::from(source(n))), source(n));
    }
}

#[test]
fn requests_without_source_are_refused() {
    let ids = vec![wire::TrackId::from(source(0)), wire::TrackId { source: None }];
    assert_eq!(
        PlaylistAddTrack::try_from(wire::TracksToAdd { at_index: 0, tracks: ids.clone() }),
        missing(Place::TrackIdSource)
    );
    assert_eq!(
        PlaylistRemoveTrackIndexed::try_from(wire::TracksToRemoveIndexed {
            at_index: 0,
            tracks: ids
        }),
        missing(Place::TrackIdSource)
    );
    assert_eq!(
        PlaylistRemoveTrackType::try_from(wire::TracksToRemove { kind: None }),
        missing(Place::TracksToRemoveType)
    );
    assert_eq!(
        PlaylistPlaySpecific::try_from(wire::PlaySpecific { track_index: 0, id: None }),
        missing(Place::PlaySpecificId)
    );
    assert_eq!(
        PlaylistPlaySpecific::try_from(wire::PlaySpecific {
            track_index: 0,
            id: Some(wire::TrackId { source: None })
        }),
        missing(Place::TrackIdSource)
    );
    assert_eq!(
        PlaylistTrackSource::try_from(wire::TrackId { source: None }),
        missing(Place::TrackIdSource)
    );
}

#[test]
fn errors_in_words() {
    assert_eq!(unwrap_msg(Some(5), Place::TrackIdSource), Ok(5));
    assert_eq!(
        unwrap_msg::<u8>(None, Place::TrackIdSource),
        Err(WireError::Missing(Place::TrackIdSource))
    );
    assert_eq!(
        WireError::Missing(Place::StreamUpdatesType).to_string(),
        "Got \"None\" in grpc \"StreamUpdates.type\"!"
    );
    assert_eq!(WireError::DurationOutOfRange.to_string(), "overflow in Duration::new");
    assert_eq!(Place::PlaySpecificId.as_str(), "PlaylistPlaySpecific.id");
}

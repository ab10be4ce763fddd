use termusic_core::player::playlist_helpers::{
    PlaylistAddTrack, PlaylistRemoveTrackIndexed, PlaylistTrackSource,
};
use termusic_core::player::{clamp_u16, PlayerTimeUnit, PlaylistLoopModeInfo, RunningStatus};

#[test]
fn running_status_numbers() {
    assert_eq!(RunningStatus::Stopped.as_u32(), 0);
    assert_eq!(RunningStatus::Running.as_u32(), 1);
    assert_eq!(RunningStatus::Paused.as_u32(), 2);
    assert_eq!(RunningStatus::from_u32(0), RunningStatus::Stopped);
    assert_eq!(RunningStatus::from_u32(1), RunningStatus::Running);
    assert_eq!(RunningStatus::from_u32(2), RunningStatus::Paused);
    assert_eq!(RunningStatus::from_u32(3), RunningStatus::Stopped);
    assert_eq!(RunningStatus::from_u32(u32::MAX), RunningStatus::Stopped);
    assert_eq!(RunningStatus::default(), RunningStatus::Stopped);
}

#[test]
fn running_status_round_trip() {
    for status in [RunningStatus::Stopped, RunningStatus::Running, RunningStatus::Paused] {
        assert_eq!(RunningStatus::from_u32(status.as_u32()), status);
    }
}

#[test]
fn running_status_in_words() {
    assert_eq!(RunningStatus::Running.to_string(), "Running");
    assert_eq!(RunningStatus::Stopped.to_string(), "Stopped");
    assert_eq!(RunningStatus::Paused.to_string(), "Paused");
}

#[test]
fn clamp_to_16_bits() {
    assert_eq!(clamp_u16(0), 0);
    assert_eq!(clamp_u16(65_535), 65_535);
    assert_eq!(clamp_u16(65_536), 65_535);
    assert_eq!(clamp_u16(u32::MAX), 65_535);
}

#[test]
fn time_unit_parts() {
    let t = PlayerTimeUnit::new(3, 1_500_000_000);
    assert_eq!(t.as_secs(), 4);
    assert_eq!(t.subsec_nanos(), 500_000_000);
    assert_eq!(t.as_millis(), 4500);
    assert_eq!(PlayerTimeUnit::from_secs(7).as_millis(), 7000);
    assert_eq!(PlayerTimeUnit::from_millis(1234).as_secs(), 1);
    assert_eq!(PlayerTimeUnit::from_millis(1234).subsec_nanos(), 234_000_000);
    assert_eq!(PlayerTimeUnit::from_millis(1234).as_millis(), 1234);
    assert_eq!(PlayerTimeUnit::from_secs(u64::MAX).as_millis(), u64::MAX as u128 * 1000);
    assert_eq!(PlayerTimeUnit::new(1, 0), PlayerTimeUnit::from_millis(1000));
}

#[test]
fn add_track_requests() {
    let a = PlaylistTrackSource::Path("/a".to_string());
    let b = PlaylistTrackSource::Url("http://b".to_string());
    let single = PlaylistAddTrack::new_single(3, a.clone());
    assert_eq!(single.at_index, 3);
    assert_eq!(single.tracks, vec![a.clone()]);
    let many = PlaylistAddTrack::new_vec(4, vec![a.clone(), b.clone()]);
    assert_eq!(many.at_index, 4);
    assert_eq!(many.tracks, vec![a, b]);
}

#[test]
fn remove_track_requests() {
    let a = PlaylistTrackSource::PodcastUrl("http://a".to_string());
    let single = PlaylistRemoveTrackIndexed::new_single(0, a.clone());
    assert_eq!(single.at_index, 0);
    assert_eq!(single.tracks, vec![a.clone()]);
    let many = PlaylistRemoveTrackIndexed::new_vec(9, vec![]);
    assert_eq!(many.at_index, 9);
    assert_eq!(many.tracks, vec![]);
}

#[test]
fn loop_mode_number() {
    assert_eq!(PlaylistLoopModeInfo::from_discriminant(2).mode, 2);
}

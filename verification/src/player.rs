//! The vocabulary in which the playback daemon and its observers exchange
//! state: time spans, update events, playlist mutations and requests.

use vstd::prelude::*;
use vstd::string::StringExecFns;

pub mod playlist_helpers;

verus! {

/// The unit in which a position in a track, or a track's length, is kept: a
/// span of time of whole seconds and a rest in nanoseconds.
#[derive(Clone, Copy, Debug, PartialEq, Eq)]
pub struct PlayerTimeUnit {
    secs: u64,
    nanos: u32,
}

impl View for PlayerTimeUnit {
    type V = nat;

    /// The span in nanoseconds.
    closed spec fn view(&self) -> nat {
        (self.secs * 1_000_000_000 + self.nanos) as nat
    }
}

impl PlayerTimeUnit {
    /// Whether the rest of the span is below a second. Every span that a
    /// program holds is so.
    #[verifier::type_invariant]
    pub closed spec fn is_normal(self) -> bool {
        self.nanos < 1_000_000_000
    }

    /// The whole seconds of the span.
    pub closed spec fn secs(self) -> u64 {
        self.secs
    }

    /// The rest of the span beyond its whole seconds, in nanoseconds.
    pub closed spec fn nanos(self) -> u32 {
        self.nanos
    }

    /// The span of `secs` seconds and `nanos` nanoseconds, where it is none
    /// too long.
    pub closed spec fn of(secs: u64, nanos: u32) -> Self {
        PlayerTimeUnit {
            secs: (secs + nanos / 1_000_000_000) as u64,
            nanos: nanos % 1_000_000_000,
        }
    }

    /// A span with a rest below a second is the span of its seconds and its
    /// rest.
    pub proof fn lemma_normal(self)
        requires
            self.is_normal(),
        ensures
            Self::of(self.secs(), self.nanos()) == self,
            self.secs() + self.nanos() / 1_000_000_000 <= u64::MAX,
            self@ == self.secs() * 1_000_000_000 + self.nanos(),
    {
    }

    /// Two spans of one length, each with a rest below a second, are the
    /// same span.
    pub proof fn lemma_same_length(self, other: Self)
        requires
            self.is_normal(),
            other.is_normal(),
            self@ == other@,
        ensures
            self == other,
    {
    }

    /// A span of `secs` seconds and `nanos` nanoseconds, or `None` where
    /// that is more than a span can hold.
    pub fn checked_new(secs: u64, nanos: u32) -> (r: Option<Self>)
        ensures
            r == (if secs + nanos / 1_000_000_000 <= u64::MAX {
                Some(Self::of(secs, nanos))
            } else {
                None
            }),
            r is Some ==> r->0@ == secs * 1_000_000_000 + nanos && r->0.is_normal(),
    {
        let carry: u64 = (nanos / 1_000_000_000) as u64;
        if secs > u64::MAX - carry {
            None
        } else {
            Some(Self { secs: secs + carry, nanos: nanos % 1_000_000_000 })
        }
    }

    /// A span of `secs` seconds and `nanos` nanoseconds. A rest of a second
    /// or more is carried over into the seconds.
    pub fn new(secs: u64, nanos: u32) -> (r: Self)
        requires
            secs + nanos / 1_000_000_000 <= u64::MAX,
        ensures
            r@ == secs * 1_000_000_000 + nanos,
    {
        let carry: u64 = (nanos / 1_000_000_000) as u64;
        Self { secs: secs + carry, nanos: nanos % 1_000_000_000 }
    }

    /// A span of `secs` seconds.
    pub fn from_secs(secs: u64) -> (r: Self)
        ensures
            r@ == secs * 1_000_000_000,
    {
        Self { secs, nanos: 0 }
    }

    /// A span of `millis` milliseconds.
    pub fn from_millis(millis: u64) -> (r: Self)
        ensures
            r@ == millis * 1_000_000,
    {
        let rest: u32 = (millis % 1000) as u32;
        Self { secs: millis / 1000, nanos: rest * 1_000_000 }
    }

    /// The whole seconds of the span.
    pub fn as_secs(&self) -> (r: u64)
        ensures
            r == self@ / 1_000_000_000,
            r == self.secs(),
    {
        proof {
            use_type_invariant(self);
        }
        self.secs
    }

    /// The rest of the span beyond its whole seconds, in nanoseconds.
    pub fn subsec_nanos(&self) -> (r: u32)
        ensures
            r == self@ % 1_000_000_000,
            r == self.nanos(),
    {
        proof {
            use_type_invariant(self);
        }
        self.nanos
    }

    /// The whole milliseconds of the span.
    pub fn as_millis(&self) -> (r: u128)
        ensures
            r == self@ / 1_000_000,
    {
        proof {
            use_type_invariant(self);
        }
        let whole: u128 = self.secs as u128 * 1000;
        let rest: u128 = (self.nanos / 1_000_000) as u128;
        whole + rest
    }
}

/// Whether the player is stopped, running or paused.
#[derive(Clone, Copy, Default, PartialEq, Eq, Structural, Debug)]
pub enum RunningStatus {
    #[default]
    Stopped,
    Running,
    Paused,
}

/// The number that stands for `status` on the wire.
pub open spec fn status_number(status: RunningStatus) -> u32 {
    match status {
        RunningStatus::Stopped => 0,
        RunningStatus::Running => 1,
        RunningStatus::Paused => 2,
    }
}

/// The status that the number `n` stands for; any number without a status
/// of its own stands for `Stopped`.
pub open spec fn status_of_number(n: u32) -> RunningStatus {
    if n == 1 {
        RunningStatus::Running
    } else if n == 2 {
        RunningStatus::Paused
    } else {
        RunningStatus::Stopped
    }
}

impl RunningStatus {
    /// The number that stands for the status: 0 stopped, 1 running, 2 paused.
    pub fn as_u32(&self) -> (r: u32)
        ensures
            r == status_number(*self),
            status_of_number(r) == *self,
    {
        match self {
            RunningStatus::Stopped => 0,
            RunningStatus::Running => 1,
            RunningStatus::Paused => 2,
        }
    }

    /// The status that `status` stands for.
    pub fn from_u32(status: u32) -> (r: Self)
        ensures
            r == status_of_number(status),
    {
        match status {
            1 => RunningStatus::Running,
            2 => RunningStatus::Paused,
            _ => RunningStatus::Stopped,
        }
    }

    /// The status in words.
    pub fn to_string(&self) -> (r: String)
        ensures
            r@ == match *self {
                RunningStatus::Running => "Running"@,
                RunningStatus::Stopped => "Stopped"@,
                RunningStatus::Paused => "Paused"@,
            },
    {
        match self {
            RunningStatus::Running => String::from_str("Running"),
            RunningStatus::Stopped => String::from_str("Stopped"),
            RunningStatus::Paused => String::from_str("Paused"),
        }
    }
}

/// Turning a status into its number and back gives the status; a number
/// comes back only where it is 0, 1 or 2.
pub proof fn lemma_status_round_trip(status: RunningStatus, n: u32)
    ensures
        status_of_number(status_number(status)) == status,
        status_number(status_of_number(n)) == n <==> n <= 2,
{
}

/// `val`, or the greatest number of 16 bits where `val` is greater.
pub fn clamp_u16(val: u32) -> (r: u16)
    ensures
        r == (if val > u16::MAX {
            u16::MAX as int
        } else {
            val as int
        }),
{
    if val > 0xffff {
        0xffff
    } else {
        val as u16
    }
}

/// Where playback stands in the current track.
#[derive(Debug, Clone, Copy, PartialEq)]
pub struct PlayerProgress {
    pub position: Option<PlayerTimeUnit>,
    /// Total duration of the currently playing track, where it is known.
    pub total_duration: Option<PlayerTimeUnit>,
}

/// What an observer is told when the current track changes.
#[derive(Debug, Clone, PartialEq)]
pub struct TrackChangedInfo {
    /// Current track index in the playlist.
    pub current_track_index: u64,
    /// Whether the track changed to another track.
    pub current_track_updated: bool,
    /// Title of the current track or radio.
    pub title: Option<String>,
    /// Current progress of the track.
    pub progress: Option<PlayerProgress>,
}

/// The events by which the playback daemon reports its state.
#[derive(Debug, Clone, PartialEq)]
pub enum UpdateEvents {
    /// Events were dropped for this observer; it should read the full state
    /// again instead of applying later changes to a stale copy.
    MissedEvents { amount: u64 },
    VolumeChanged { volume: u16 },
    SpeedChanged { speed: i32 },
    PlayStateChanged { playing: u32 },
    TrackChanged(TrackChangedInfo),
    GaplessChanged { gapless: bool },
    PlaylistChanged(UpdatePlaylistEvents),
    Progress(PlayerProgress),
}

/// A track was added to the playlist.
#[derive(Debug, Clone, PartialEq)]
pub struct PlaylistAddTrackInfo {
    /// The index at which the track was added. Tracks at this index and
    /// beyond move up by one.
    pub at_index: u64,
    pub title: Option<String>,
    /// Duration of the track.
    pub duration: PlayerTimeUnit,
    pub trackid: playlist_helpers::PlaylistTrackSource,
}

/// A track was removed from the playlist.
#[derive(Debug, Clone, PartialEq)]
pub struct PlaylistRemoveTrackInfo {
    /// The index at which the track was removed.
    pub at_index: u64,
    /// The id of the removed track.
    pub trackid: playlist_helpers::PlaylistTrackSource,
}

/// The loop mode changed.
#[derive(Debug, Clone, PartialEq)]
pub struct PlaylistLoopModeInfo {
    /// The number of the new mode.
    pub mode: u32,
}

impl PlaylistLoopModeInfo {
    /// The event for the loop mode with the number `discriminant`.
    pub fn from_discriminant(discriminant: u8) -> (r: Self)
        ensures
            r.mode == discriminant,
    {
        Self { mode: discriminant as u32 }
    }
}

/// Two tracks changed places.
#[derive(Debug, Clone, PartialEq)]
pub struct PlaylistSwapInfo {
    pub index_a: u64,
    pub index_b: u64,
}

/// The playlist was shuffled into a new order.
#[derive(Debug, Clone, PartialEq)]
pub struct PlaylistShuffledInfo {
    /// The playlist in its new order.
    pub tracks: crate::wire::PlaylistTracks,
}

/// The events that tell an observer how to change its copy of the playlist.
#[derive(Debug, Clone, PartialEq)]
pub enum UpdatePlaylistEvents {
    PlaylistAddTrack(PlaylistAddTrackInfo),
    PlaylistRemoveTrack(PlaylistRemoveTrackInfo),
    PlaylistCleared,
    PlaylistLoopMode(PlaylistLoopModeInfo),
    PlaylistSwapTracks(PlaylistSwapInfo),
    PlaylistShuffled(PlaylistShuffledInfo),
}

} // verus!

//! Snapshot of the media player as the remote control sees it, and the
//! decisions taken on each poll: whether the track changed, what the
//! artwork and lyrics fetches are for, and the volume and repeat controls.
use vstd::prelude::*;
use crate::fetch::{FetchKey, key_view};

verus! {

/// The track playing; `duration` and `position` are in milliseconds.
#[derive(Clone, Debug)]
pub struct Track {
    pub name: String,
    pub artist: String,
    pub album: String,
    pub duration: u64,
    pub position: u64,
}

#[derive(Clone, Copy, Debug, PartialEq, Eq, Structural)]
pub enum PlaybackState {
    Playing,
    Paused,
    Stopped,
}

#[derive(Clone, Copy, Debug, PartialEq, Eq, Structural)]
pub enum RepeatMode {
    Off,
    One,
    All,
}

impl RepeatMode {
    /// The mode the repeat control moves to: off, all, one, then off again.
    pub fn next(&self) -> (r: RepeatMode)
        ensures
            r == (match self {
                RepeatMode::Off => RepeatMode::All,
                RepeatMode::All => RepeatMode::One,
                RepeatMode::One => RepeatMode::Off,
            }),
    {
        match self {
            RepeatMode::Off => RepeatMode::All,
            RepeatMode::All => RepeatMode::One,
            RepeatMode::One => RepeatMode::Off,
        }
    }
}

#[derive(Clone, Debug)]
pub struct PlayerStatus {
    pub track: Option<Track>,
    pub volume: u8,
    pub state: PlaybackState,
}

/// Whether a poll that found `new` shows a different track than `current`:
/// a new track appeared, or the title or artist differs.
pub open spec fn changed(current: Option<Track>, new: Option<Track>) -> bool {
    match (current, new) {
        (Some(c), Some(n)) => c.name@ != n.name@ || c.artist@ != n.artist@,
        (None, Some(_)) => true,
        _ => false,
    }
}

pub fn track_changed(current: &Option<Track>, new: &Option<Track>) -> (r: bool)
    ensures
        r == changed(*current, *new),
{
    match (current, new) {
        (Some(c), Some(n)) => !(c.name == n.name) || !(c.artist == n.artist),
        (None, Some(_)) => true,
        _ => false,
    }
}

/// What the lyrics shown should belong to: the title and artist of the track.
pub fn lyrics_key(track: &Option<Track>) -> (r: Option<FetchKey>)
    ensures
        key_view(r) == match track {
            Some(t) => Some((t.name@, t.artist@, 0u64)),
            None => None,
        },
{
    match track {
        Some(t) => Some(FetchKey { lookup: t.name.clone(), qualifier: t.artist.clone(), variant: 0 }),
        None => None,
    }
}

/// What the artwork shown should belong to: its URL under the current theme.
pub fn artwork_key(url: &Option<String>, theme_index: usize) -> (r: Option<FetchKey>)
    ensures
        key_view(r) == match url {
            Some(u) => Some((u@, Seq::<char>::empty(), theme_index as u64)),
            None => None,
        },
{
    match url {
        Some(u) => Some(
            FetchKey { lookup: u.clone(), qualifier: String::new(), variant: theme_index as u64 },
        ),
        None => None,
    }
}

/// Index of the theme after `index` in a palette of `total`, wrapping around.
pub fn next_theme_index(index: usize, total: usize) -> (r: usize)
    requires
        index < total,
    ensures
        r == (index as int + 1) % (total as int),
{
    if index + 1 == total {
        proof {
            vstd::arithmetic::div_mod::lemma_mod_self_0(total as int);
        }
        0
    } else {
        proof {
            vstd::arithmetic::div_mod::lemma_small_mod((index + 1) as nat, total as nat);
        }
        index + 1
    }
}

/// Volume control: the level sent to the player (0 to 100), the level to
/// restore when unmuting, and whether the player is muted.
#[derive(Clone, Copy, Debug)]
pub struct Volume {
    pub level: u8,
    pub saved: u8,
    pub muted: bool,
}

/// Step of the volume keys.
pub const VOLUME_STEP: u8 = 5;

impl Volume {
    /// Unmuted at `level`.
    pub fn new(level: u8) -> (r: Volume)
        ensures
            r.level == level,
            r.saved == level,
            !r.muted,
    {
        Volume { level, saved: level, muted: false }
    }

    /// One step louder, at most 100; unmutes.
    pub fn up(&mut self)
        ensures
            final(self).level == if old(self).level + 5 > 100 {
                100
            } else {
                old(self).level + 5
            },
            final(self).saved == old(self).saved,
            !final(self).muted,
    {
        self.level = if self.level > 95 {
            100
        } else {
            self.level + VOLUME_STEP
        };
        self.muted = false;
    }

    /// One step quieter, at least 0; unmutes.
    pub fn down(&mut self)
        ensures
            final(self).level == if old(self).level < 5 {
                0
            } else {
                old(self).level - 5
            },
            final(self).saved == old(self).saved,
            !final(self).muted,
    {
        self.level = if self.level < VOLUME_STEP {
            0
        } else {
            self.level - VOLUME_STEP
        };
        self.muted = false;
    }

    /// Mutes (remembering the level) or restores the remembered level.
    pub fn toggle_mute(&mut self)
        ensures
            old(self).muted ==> final(self).level == old(self).saved && !final(self).muted
                && final(self).saved == old(self).saved,
            !old(self).muted ==> final(self).level == 0 && final(self).muted && final(self).saved
                == old(self).level,
    {
        if self.muted {
            self.level = self.saved;
            self.muted = false;
        } else {
            self.saved = self.level;
            self.level = 0;
            self.muted = true;
        }
    }

    /// Takes the level the player reported, when it reported one.
    pub fn sync(&mut self, reported: Option<u8>)
        ensures
            final(self).level == match reported {
                Some(v) => v,
                None => old(self).level,
            },
            final(self).saved == old(self).saved,
            final(self).muted == old(self).muted,
    {
        if let Some(v) = reported {
            self.level = v;
        }
    }
}

} // verus!

//! Audio hooks: every gameplay event calls `Audio::play`; the output is mute
//! in this version.

use vstd::prelude::*;

verus! {

#[derive(Clone, Copy, PartialEq, Eq, Debug, Structural)]
pub enum Sfx {
    MeleeSwing,
    MeleeHit,
    Crit,
    BowShoot,
    ArrowHit,
    Roll,
    Potion,
    Chest,
    Emerald,
    EnemyDie,
    PlayerHurt,
    LevelUp,
    Artifact,
    BossRoar,
    Portal,
    UiClick,
    UiOpen,
}

#[derive(Clone, Copy, PartialEq, Eq, Debug, Structural)]
pub enum Music {
    Menu,
    Exploration,
    Combat,
    Boss,
    Victory,
}

/// Whether audio hooks are active.
pub const AUDIO_ENABLED: bool = true;

pub struct Audio;

impl Audio {
    pub fn new() -> (a: Audio)
        ensures
            a == Audio,
    {
        Audio
    }

    /// Plays a sound effect (mute output: nothing observable happens).
    pub fn play(&self, sfx: Sfx) {
        if !AUDIO_ENABLED {
            return;
        }
        let _ = sfx;
    }

    /// Switches the music track (mute output: the state does not change).
    pub fn set_music(&mut self, music: Music)
        ensures
            *final(self) == *old(self),
    {
        if !AUDIO_ENABLED {
            return;
        }
        let _ = music;
    }

    /// Per-frame audio update (nothing to do with a mute output).
    pub fn update(&mut self)
        ensures
            *final(self) == *old(self),
    {
    }
}

impl Default for Audio {
    fn default() -> (a: Audio)
        ensures
            a == Audio,
    {
        Audio::new()
    }
}

} // verus!

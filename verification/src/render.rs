//! What the player shows of its own state: the volume, in steps of five
//! hundredths, and whether sound is muted.

use vstd::prelude::*;

verus! {

/// The full volume, in hundredths.
pub const FULL_VOLUME: u32 = 100;

/// One step of the volume, in hundredths.
pub const VOLUME_STEP: u32 = 5;

/// The state of the player. The volume is held in hundredths of the full
/// volume.
#[derive(Clone, Copy, Debug, PartialEq, Eq, Structural)]
pub struct Packet {
    pub volume: u32,
    pub mute: bool,
}

/// The volume one step up: never above the full volume.
pub open spec fn spec_volume_up(volume: u32) -> u32 {
    if volume + VOLUME_STEP > FULL_VOLUME {
        FULL_VOLUME
    } else {
        (volume + VOLUME_STEP) as u32
    }
}

/// The volume one step down: never under zero.
pub open spec fn spec_volume_down(volume: u32) -> u32 {
    if volume < VOLUME_STEP {
        0
    } else {
        (volume - VOLUME_STEP) as u32
    }
}

impl Packet {
    pub fn new(volume: u32, mute: bool) -> (p: Packet)
        ensures
            p.volume == volume,
            p.mute == mute,
    {
        Packet { volume, mute }
    }

    /// Turns the volume up by one step, to the full volume at most.
    pub fn volume_up(&mut self)
        ensures
            final(self).volume == spec_volume_up(old(self).volume),
            final(self).volume <= FULL_VOLUME,
            final(self).mute == old(self).mute,
    {
        if self.volume > FULL_VOLUME - VOLUME_STEP {
            self.volume = FULL_VOLUME;
        } else {
            self.volume = self.volume + VOLUME_STEP;
        }
    }

    /// Turns the volume down by one step, to zero at least.
    pub fn volume_down(&mut self)
        ensures
            final(self).volume == spec_volume_down(old(self).volume),
            final(self).volume <= old(self).volume,
            final(self).mute == old(self).mute,
    {
        if self.volume < VOLUME_STEP {
            self.volume = 0;
        } else {
            self.volume = self.volume - VOLUME_STEP;
        }
    }
}

} // verus!

//! The animated sprite of the study screen.
use vstd::prelude::*;
use std::time::Instant;

verus! {

/// After this many milliseconds the sprite opens or closes its eyes.
pub const BLINK_PERIOD_MS: u128 = 500;

/// The moods the sprite can show.
pub enum SpriteState {
    Idle,
}

/// A sprite that blinks while idle.
pub struct Sprite {
    state: SpriteState,
    last_frame_time: Instant,
    is_blinking: bool,
}

impl Sprite {
    pub closed spec fn blinking(&self) -> bool {
        self.is_blinking
    }

    /// An idle sprite with open eyes.
    pub fn new() -> (r: Sprite)
        ensures
            !r.blinking(),
    {
        Sprite { state: SpriteState::Idle, last_frame_time: Instant::now(), is_blinking: false }
    }

    /// Whether the eyes are closed now.
    pub fn is_blinking(&self) -> (r: bool)
        ensures
            r == self.blinking(),
    {
        self.is_blinking
    }

    /// Whether the sprite is idle.
    pub fn is_idle(&self) -> (r: bool)
        ensures
            r,
    {
        match self.state {
            SpriteState::Idle => true,
        }
    }

    /// Advances the animation by `elapsed_ms` since the last change: past
    /// the blink period the eyes open or close. Returns whether they did.
    pub fn blink_step(&mut self, elapsed_ms: u128) -> (toggled: bool)
        ensures
            toggled == (elapsed_ms > BLINK_PERIOD_MS),
            final(self).blinking() == (if toggled { !old(self).blinking() } else { old(self).blinking() }),
    {
        if elapsed_ms > BLINK_PERIOD_MS {
            self.is_blinking = !self.is_blinking;
            true
        } else {
            false
        }
    }

    /// Updates the animation; called once per frame. The eyes change at most
    /// once per call.
    pub fn update(&mut self)
        ensures
            final(self).blinking() == old(self).blinking() || final(self).blinking() == !old(self).blinking(),
    {
        let elapsed = self.last_frame_time.elapsed().as_millis();
        if self.blink_step(elapsed) {
            self.last_frame_time = Instant::now();
        }
    }
}

} // verus!

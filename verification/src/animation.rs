//! Which frame of a sprite sheet comes next.

use vstd::prelude::*;

verus! {

/// The frames that an animation runs through, by their index in the atlas.
#[derive(Clone, Copy, Debug, Default, PartialEq, Eq, Structural)]
pub struct AnimationConfig {
    pub start_idx: usize,
    pub stop_idx: usize,
}

/// What to do with a sprite when its frame timer has finished.
#[derive(Clone, Copy, Debug, PartialEq, Eq, Structural)]
pub struct FrameStep {
    /// The atlas index to show next.
    pub index: usize,
    /// Whether the frame timer starts over.
    pub restart_timer: bool,
}

impl AnimationConfig {
    /// The frame after `index`: the first frame after the last one, the
    /// next index otherwise.
    pub open spec fn spec_next_frame(self, index: usize) -> int {
        if index == self.stop_idx {
            self.start_idx as int
        } else {
            index + 1
        }
    }

    /// The atlas index that follows `index` in a looping animation.
    pub fn next_frame(&self, index: usize) -> (next: usize)
        requires
            index == self.stop_idx || index < usize::MAX,
        ensures
            next == self.spec_next_frame(index),
    {
        if index == self.stop_idx {
            self.start_idx
        } else {
            index + 1
        }
    }

    /// The step of an animation whose timer is set anew for every frame
    /// but the first: after the last frame it goes back to the first one
    /// and lets the timer run, otherwise it moves on by one and restarts
    /// the timer.
    pub fn next_step(&self, index: usize) -> (step: FrameStep)
        requires
            index == self.stop_idx || index < usize::MAX,
        ensures
            step.index == self.spec_next_frame(index),
            step.restart_timer == (index != self.stop_idx),
    {
        if index == self.stop_idx {
            FrameStep { index: self.start_idx, restart_timer: false }
        } else {
            FrameStep { index: index + 1, restart_timer: true }
        }
    }

    /// The frame to show after a tick of the frame timer: the next one if
    /// the timer just finished, the same one if not. `None` if there is no
    /// next index.
    pub fn animate(&self, index: usize, just_finished: bool) -> (next: Option<usize>)
        ensures
            next == if !just_finished {
                Some(index)
            } else if index == self.stop_idx || index < usize::MAX {
                Some(self.spec_next_frame(index) as usize)
            } else {
                None
            },
    {
        if !just_finished {
            Some(index)
        } else if index == self.stop_idx || index < usize::MAX {
            Some(self.next_frame(index))
        } else {
            None
        }
    }
}

} // verus!

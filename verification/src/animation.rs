//! Frame-by-frame sprite animation over a named sequence of frames.
//!
//! Time is handed in explicitly as milliseconds, so stepping an
//! animation is a pure function of its state and the clock value.

use vstd::prelude::*;

verus! {

/// Something that can say which animation frame to show now.
pub trait AnimationProvider {
    /// The frame to show at `now_ms`, or none when a non-repeating
    /// sequence has run out.
    fn get_current_frame(&mut self, now_ms: u64) -> Option<usize>;
}

/// A named sequence of frame indices shown in order, each for a fixed
/// duration, optionally repeating.
#[derive(Clone, Debug)]
pub struct AnimationSequence {
    /// The sequence's name.
    pub name: String,
    frames: Vec<usize>,
    frame_duration_ms: u64,
    current_frame_index: usize,
    repeat: bool,
    last_update_ms: u64,
}

impl AnimationSequence {
    /// The sequence's name, as characters.
    pub closed spec fn name_spec(self) -> Seq<char> {
        self.name@
    }

    /// The frame indices of this sequence.
    pub closed spec fn frames_spec(self) -> Seq<usize> {
        self.frames@
    }

    /// The position within the sequence.
    pub closed spec fn index_spec(self) -> int {
        self.current_frame_index as int
    }

    /// The clock value of the last frame advance.
    pub closed spec fn last_update_spec(self) -> u64 {
        self.last_update_ms
    }

    /// Whether the sequence restarts after its last frame.
    pub closed spec fn repeat_spec(self) -> bool {
        self.repeat
    }

    /// How long each frame is shown, in milliseconds.
    pub closed spec fn duration_spec(self) -> u64 {
        self.frame_duration_ms
    }

    /// A sequence at its first frame, last updated at clock zero.
    pub fn new(name: String, frames: Vec<usize>, frame_duration_ms: u64, repeat: bool) -> (r:
        AnimationSequence)
        ensures
            r.frames_spec() == frames@,
            r.duration_spec() == frame_duration_ms,
            r.index_spec() == 0,
            r.repeat_spec() == repeat,
            r.last_update_spec() == 0,
            r.name_spec() == name@,
    {
        AnimationSequence {
            name,
            frames,
            frame_duration_ms,
            current_frame_index: 0,
            repeat,
            last_update_ms: 0,
        }
    }

    /// Rewind to the first frame and restart timing from `now_ms`.
    pub fn reset(&mut self, now_ms: u64)
        ensures
            final(self).index_spec() == 0,
            final(self).last_update_spec() == now_ms,
            final(self).frames_spec() == old(self).frames_spec(),
            final(self).duration_spec() == old(self).duration_spec(),
            final(self).repeat_spec() == old(self).repeat_spec(),
    {
        self.current_frame_index = 0;
        self.last_update_ms = now_ms;
    }
}

impl AnimationProvider for AnimationSequence {
    /// Step the animation: a sequence past its end restarts when it
    /// repeats and otherwise yields nothing; once a frame has been shown
    /// for its duration the position advances and timing restarts at
    /// `now_ms`; otherwise the current frame is shown again.
    fn get_current_frame(&mut self, now_ms: u64) -> (r: Option<usize>)
        ensures
            final(self).frames_spec() == old(self).frames_spec(),
            final(self).duration_spec() == old(self).duration_spec(),
            final(self).repeat_spec() == old(self).repeat_spec(),
            ({
                let wrapped: int = if old(self).index_spec() >= old(self).frames_spec().len()
                    && old(self).repeat_spec() {
                    0
                } else {
                    old(self).index_spec()
                };
                if old(self).frames_spec().len() == 0 {
                    &&& r is None
                    &&& final(self).last_update_spec() == old(self).last_update_spec()
                    &&& final(self).index_spec() == (if old(self).repeat_spec() {
                        0int
                    } else {
                        old(self).index_spec()
                    })
                } else if old(self).index_spec() >= old(self).frames_spec().len() && !old(
                    self,
                ).repeat_spec() {
                    r is None && *final(self) == *old(self)
                } else if now_ms >= old(self).last_update_spec() && now_ms - old(
                    self,
                ).last_update_spec() >= old(self).duration_spec() {
                    &&& r == Some(old(self).frames_spec()[wrapped] as usize)
                    &&& final(self).index_spec() == wrapped + 1
                    &&& final(self).last_update_spec() == now_ms
                } else {
                    &&& r == Some(old(self).frames_spec()[wrapped] as usize)
                    &&& final(self).index_spec() == wrapped
                    &&& final(self).last_update_spec() == old(self).last_update_spec()
                }
            }),
    {
        if self.current_frame_index >= self.frames.len() {
            if self.repeat {
                self.current_frame_index = 0;
            } else {
                return None;
            }
        }
        if self.frames.len() == 0 {
            return None;
        }
        if now_ms >= self.last_update_ms && now_ms - self.last_update_ms
            >= self.frame_duration_ms {
            self.last_update_ms = now_ms;
            let frame = self.frames[self.current_frame_index];
            self.current_frame_index = self.current_frame_index + 1;
            Some(frame)
        } else {
            Some(self.frames[self.current_frame_index])
        }
    }
}

} // verus!

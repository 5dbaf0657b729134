//! The frame that a playback of a recording shows.

use vstd::prelude::*;

verus! {

/// The index of the frame on show, among a fixed number of frames.  Playback
/// begins at frame 0 and wraps around behind the last frame.
#[derive(Clone, Copy, Debug)]
pub struct FrameCursor {
    current_frame: usize,
    number_of_images: usize,
}

impl FrameCursor {
    #[verifier::type_invariant]
    spec fn inv(self) -> bool {
        if self.number_of_images == 0 {
            self.current_frame == 0
        } else {
            self.current_frame < self.number_of_images
        }
    }

    /// The index of the frame on show.
    pub closed spec fn frame(self) -> usize {
        self.current_frame
    }

    /// The number of frames of the recording.
    pub closed spec fn frames(self) -> usize {
        self.number_of_images
    }

    /// A cursor on the first of `number_of_images` frames.
    pub fn of(number_of_images: usize) -> (cursor: FrameCursor)
        ensures
            cursor.frame() == 0,
            cursor.frames() == number_of_images,
    {
        FrameCursor { current_frame: 0, number_of_images }
    }

    /// Moves on to the next frame, and from the last frame back to the first.
    pub fn update(&mut self)
        requires
            old(self).frames() > 0,
        ensures
            final(self).frames() == old(self).frames(),
            final(self).frame() == (old(self).frame() + 1) % (old(self).frames() as int),
    {
        proof {
            use_type_invariant(&*self);
        }
        self.current_frame = (self.current_frame + 1) % self.number_of_images;
    }

    /// The index of the frame on show.
    pub fn current_frame(&self) -> (frame: usize)
        ensures
            frame == self.frame(),
            self.frames() > 0 ==> frame < self.frames(),
    {
        proof {
            use_type_invariant(self);
        }
        self.current_frame
    }
}

} // verus!

//! Audio tracks captured alongside the video.
use crate::ringbuffer::EncodedFrame;
use vstd::prelude::*;

verus! {

/// Which encoded audio tracks a saved clip carries.
pub struct AudioTracks {
    pub game: Vec<EncodedFrame>,
    pub mic: Vec<EncodedFrame>,
}

} // verus!

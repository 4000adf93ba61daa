//! Hardware video encoding (NVENC HEVC / H.264) session handle.
//!
//! The hardware encoder is not wired in yet: opening a session always fails
//! with [`EncoderError::NotImplemented`], and a session yields no frames.
use crate::config::EncoderConfig;
use crate::ringbuffer::EncodedFrame;
use vstd::prelude::*;

verus! {

/// Why an encoder session could not be used.
#[derive(Debug, Clone, Copy, PartialEq, Eq, Structural)]
pub enum EncoderError {
    /// The hardware encoder is not implemented yet.
    NotImplemented,
}

/// Handle to a running hardware encoder session.
pub struct VideoEncoder {
    pub width: u32,
    pub height: u32,
    pub cfg: EncoderConfig,
}

impl VideoEncoder {
    /// Create the hardware encoder for the given resolution and settings.
    pub fn new(_width: u32, _height: u32, _cfg: EncoderConfig) -> (r: Result<
        VideoEncoder,
        EncoderError,
    >)
        ensures
            r == Err::<VideoEncoder, EncoderError>(EncoderError::NotImplemented),
    {
        Err(EncoderError::NotImplemented)
    }

    /// Submit a captured GPU frame; returns any encoded frames now ready.
    pub fn submit(&mut self, _timestamp_100ns: i64) -> (r: Result<Vec<EncodedFrame>, EncoderError>)
        ensures
            r matches Ok(v) && v@.len() == 0,
            *final(self) == *old(self),
    {
        Ok(Vec::new())
    }

    /// Flush the encoder and return any remaining buffered output.
    pub fn drain(&mut self) -> (r: Result<Vec<EncodedFrame>, EncoderError>)
        ensures
            r matches Ok(v) && v@.len() == 0,
            *final(self) == *old(self),
    {
        Ok(Vec::new())
    }
}

} // verus!

//! Capture engine decisions.
//!
//! The engine owns the capture -> encode -> ring-buffer pipeline and services
//! "save the last N seconds" requests. The thread and its command channel are
//! plumbing outside the library; here is what the engine does with each
//! command: a step from state and command to next state and action.
use crate::config::{Config, ConfigView};
use crate::ringbuffer::{extract_spec, EncodedFrame, FrameView, RingBuffer, HNS_PER_SEC};
use vstd::prelude::*;

verus! {

/// Commands sent to the engine thread.
pub enum EngineCommand {
    /// Save the last `seconds` of buffered footage. `label` is the preset name.
    SaveClip { seconds: u32, label: String },
    /// A game became active — begin capturing this window/process.
    StartCapture { window_title: String },
    /// The active game exited — stop capturing and free GPU resources.
    StopCapture,
    /// Reload settings (hotkeys are re-registered by the caller).
    ReloadConfig(Box<Config>),
    /// Shut the engine down.
    Shutdown,
}

/// What the engine thread must do after handling a command.
pub enum EngineAction {
    /// Capture was idle and now starts on this window.
    CaptureStarted { window_title: String },
    /// Capture was running and now stops; the buffer is kept.
    CaptureStopped,
    /// Nothing to do (start while capturing, stop while idle).
    Unchanged,
    /// A clip was requested but the buffer holds nothing to save.
    NothingToSave { seconds: u32, label: String },
    /// These frames are the clip to write; `buffered_kb` is the buffer's size.
    SaveFrames { seconds: u32, label: String, frames: Vec<EncodedFrame>, buffered_kb: usize },
    /// The configuration was replaced and the buffer rebuilt to its sizing.
    ConfigReloaded,
    /// The engine loop must end.
    Exit,
}

/// The engine's state between commands.
pub struct EngineState {
    pub config: Config,
    pub ring: RingBuffer,
    pub capturing: bool,
}

/// A ring buffer sized as `cfg` says, holding nothing.
pub open spec fn fresh_ring(ring: RingBuffer, cfg: ConfigView) -> bool {
    &&& ring.wf()
    &&& ring@ == Seq::<FrameView>::empty()
    &&& ring.window() == cfg.buffer.max_seconds * HNS_PER_SEC
    &&& ring.max_bytes() == cfg.buffer.max_ram_mb * 1024 * 1024
}

impl EngineState {
    /// Well-formed: the buffer's bookkeeping is consistent, and its frames
    /// are far enough from the clock's minimum for any clip request.
    pub open spec fn wf(&self) -> bool {
        &&& self.ring.wf()
        &&& self.ring@.len() > 0 ==> self.ring@.last().pts >= i64::MIN + u32::MAX * HNS_PER_SEC
    }

    /// An idle engine with an empty buffer sized by `config`.
    pub fn new(config: Config) -> (st: EngineState)
        ensures
            st.wf(),
            st.config@ == config@,
            !st.capturing,
            fresh_ring(st.ring, config@),
    {
        let ring = RingBuffer::new(config.buffer.max_seconds, config.buffer.max_ram_mb);
        EngineState { config, ring, capturing: false }
    }

    /// Handle one command.
    pub fn handle(&mut self, cmd: EngineCommand) -> (action: EngineAction)
        requires
            old(self).wf(),
        ensures
            final(self).wf(),
            match cmd {
                EngineCommand::StartCapture { window_title } => {
                    &&& final(self).capturing
                    &&& final(self).config@ == old(self).config@
                    &&& final(self).ring@ == old(self).ring@
                    &&& if old(self).capturing {
                        action is Unchanged
                    } else {
                        action matches EngineAction::CaptureStarted { window_title: t }
                            && t@ == window_title@
                    }
                },
                EngineCommand::StopCapture => {
                    &&& !final(self).capturing
                    &&& final(self).config@ == old(self).config@
                    &&& final(self).ring@ == old(self).ring@
                    &&& if old(self).capturing {
                        action is CaptureStopped
                    } else {
                        action is Unchanged
                    }
                },
                EngineCommand::SaveClip { seconds, label } => {
                    let clip = extract_spec(old(self).ring@, seconds as int);
                    &&& final(self).capturing == old(self).capturing
                    &&& final(self).config@ == old(self).config@
                    &&& final(self).ring@ == old(self).ring@
                    &&& if clip.len() == 0 {
                        action matches EngineAction::NothingToSave { seconds: s, label: l }
                            && s == seconds && l@ == label@
                    } else {
                        action matches EngineAction::SaveFrames {
                            seconds: s,
                            label: l,
                            frames,
                            buffered_kb,
                        } && s == seconds && l@ == label@ && frames@.map_values(
                            |f: EncodedFrame| f@,
                        ) == clip && buffered_kb == crate::ringbuffer::frames_bytes(
                            old(self).ring@,
                        ) / 1024
                    }
                },
                EngineCommand::ReloadConfig(new_cfg) => {
                    &&& action is ConfigReloaded
                    &&& final(self).capturing == old(self).capturing
                    &&& final(self).config@ == new_cfg@
                    &&& fresh_ring(final(self).ring, new_cfg@)
                },
                EngineCommand::Shutdown => {
                    &&& action is Exit
                    &&& final(self).capturing == old(self).capturing
                    &&& final(self).config@ == old(self).config@
                    &&& final(self).ring@ == old(self).ring@
                },
            },
    {
        match cmd {
            EngineCommand::StartCapture { window_title } => {
                if !self.capturing {
                    self.capturing = true;
                    EngineAction::CaptureStarted { window_title }
                } else {
                    EngineAction::Unchanged
                }
            },
            EngineCommand::StopCapture => {
                if self.capturing {
                    self.capturing = false;
                    EngineAction::CaptureStopped
                } else {
                    EngineAction::Unchanged
                }
            },
            EngineCommand::SaveClip { seconds, label } => {
                let frames = self.ring.extract_last(seconds);
                if frames.len() == 0 {
                    EngineAction::NothingToSave { seconds, label }
                } else {
                    let buffered_kb = self.ring.bytes_used() / 1024;
                    EngineAction::SaveFrames { seconds, label, frames, buffered_kb }
                }
            },
            EngineCommand::ReloadConfig(new_cfg) => {
                self.config = *new_cfg;
                self.ring = RingBuffer::new(self.config.buffer.max_seconds, self.config.buffer.max_ram_mb);
                EngineAction::ConfigReloaded
            },
            EngineCommand::Shutdown => EngineAction::Exit,
        }
    }
}

} // verus!

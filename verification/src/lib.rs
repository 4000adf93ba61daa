//! LowResourceCapture: the verified core of a retroactive game-clip recorder
//! and its offline clip analyzer.
//!
//! The recorder keeps the last N seconds of *encoded* frames in RAM and saves
//! them on a hotkey; the analyzer turns a recording into reviewed events.
//! Everything here is platform-independent logic with contracts; the
//! Windows capture pipeline, the windows and the disk live in `app/`.

pub mod ringbuffer;
pub mod text;
pub mod config;
pub mod paths;
pub mod game_detect;
pub mod audio;
pub mod encoder;
pub mod engine;
pub mod event;
pub mod dataset;
pub mod labels;
pub mod model;
pub mod training;
pub mod cli;
pub mod review;
pub mod clips;
pub mod listing;
pub mod media;
pub mod logline;
pub mod stats;
pub mod classifier;
pub mod detect;
pub mod winui;
pub mod hotkeys;
pub mod profile;
pub mod frames;
pub mod muxer;

use lowresourcecapture::config::{Codec, Config, EncoderConfig};
use lowresourcecapture::encoder::{EncoderError, VideoEncoder};
use lowresourcecapture::engine::{EngineAction, EngineCommand, EngineState};
use lowresourcecapture::muxer::{mux_plan, MuxItem};
use lowresourcecapture::ringbuffer::{EncodedFrame, HNS_PER_SEC};
use lowresourcecapture::winui::wide;

fn cfg() -> Config {
    Config::with_output_dir("clips".to_string())
}

#[test]
fn hardware_encoder_is_not_available_yet() {
    let e = EncoderConfig { codec: Codec::H264, bitrate_mbps: 10, fps: 30 };
    assert!(matches!(VideoEncoder::new(1920, 1080, e), Err(EncoderError::NotImplemented)));
    let mut v = VideoEncoder { width: 1, height: 1, cfg: e };
    assert!(v.submit(0).unwrap().is_empty());
    assert!(v.drain().unwrap().is_empty());
}

#[test]
fn engine_toggles_capture_idempotently() {
    let mut st = EngineState::new(cfg());
    assert!(!st.capturing);
    let a = st.handle(EngineCommand::StartCapture { window_title: "game".into() });
    assert!(matches!(a, EngineAction::CaptureStarted { ref window_title } if window_title == "game"));
    assert!(matches!(st.handle(EngineCommand::StartCapture { window_title: "x".into() }), EngineAction::Unchanged));
    assert!(matches!(st.handle(EngineCommand::StopCapture), EngineAction::CaptureStopped));
    assert!(matches!(st.handle(EngineCommand::StopCapture), EngineAction::Unchanged));
    assert!(!st.capturing);
}

#[test]
fn engine_save_with_empty_buffer_reports_nothing() {
    let mut st = EngineState::new(cfg());
    let a = st.handle(EngineCommand::SaveClip { seconds: 15, label: "Short".into() });
    assert!(matches!(a, EngineAction::NothingToSave { seconds: 15, ref label } if label == "Short"));
}

#[test]
fn engine_saves_buffered_frames() {
    let mut st = EngineState::new(cfg());
    for s in 0..4i64 {
        st.ring.push(EncodedFrame {
            data: vec![1u8; 2048],
            pts_100ns: s * HNS_PER_SEC,
            dur_100ns: HNS_PER_SEC,
            keyframe: true,
        });
    }
    match st.handle(EngineCommand::SaveClip { seconds: 2, label: "L".into() }) {
        EngineAction::SaveFrames { seconds, label, frames, buffered_kb } => {
            assert_eq!(seconds, 2);
            assert_eq!(label, "L");
            assert_eq!(frames.len(), 3);
            assert_eq!(frames[0].pts_100ns, HNS_PER_SEC);
            assert_eq!(buffered_kb, 8);
        }
        _ => panic!("expected frames to save"),
    }
}

#[test]
fn engine_reload_rebuilds_the_buffer_and_shutdown_exits() {
    let mut st = EngineState::new(cfg());
    st.ring.push(EncodedFrame { data: vec![1u8; 10], pts_100ns: 0, dur_100ns: 1, keyframe: true });
    let mut c = cfg();
    c.buffer.max_seconds = 300;
    assert!(matches!(st.handle(EngineCommand::ReloadConfig(Box::new(c))), EngineAction::ConfigReloaded));
    assert_eq!(st.config.buffer.max_seconds, 300);
    assert!(st.ring.is_empty());
    assert!(matches!(st.handle(EngineCommand::Shutdown), EngineAction::Exit));
}

#[test]
fn wide_strings_are_nul_terminated_utf16() {
    assert_eq!(wide("ab"), vec![97, 98, 0]);
    assert_eq!(wide(""), vec![0]);
    let s = "é😀x";
    let mut expect: Vec<u16> = s.encode_utf16().collect();
    expect.push(0);
    assert_eq!(wide(s), expect);
}

fn at(pts: i64) -> EncodedFrame {
    EncodedFrame { data: vec![0; 4], pts_100ns: pts, dur_100ns: 100, keyframe: false }
}

fn item(pts: i64, stream: usize, frame: usize) -> MuxItem {
    MuxItem { pts, stream, frame }
}

#[test]
fn samples_are_written_in_one_rebased_timestamp_order() {
    let video = vec![at(1000), at(1100), at(1200)];
    let audio = vec![vec![at(900), at(1000), at(1150)], vec![at(1100)]];
    assert_eq!(
        mux_plan(&video, &audio),
        vec![item(0, 0, 0), item(0, 1, 1), item(100, 0, 1), item(100, 2, 0), item(150, 1, 2), item(200, 0, 2)],
        "audio before the first video frame is dropped; equal times keep stream order"
    );
    assert_eq!(mux_plan(&video, &Vec::new()), vec![item(0, 0, 0), item(100, 0, 1), item(200, 0, 2)]);
    let shuffled = vec![at(50), at(20), at(80)];
    assert_eq!(
        mux_plan(&shuffled, &vec![vec![at(60)]]),
        vec![item(-30, 0, 1), item(0, 0, 0), item(10, 1, 0), item(30, 0, 2)]
    );
}

use lowresourcecapture::event::Kind;
use lowresourcecapture::frames::{duration_field, parse_dimensions};
use lowresourcecapture::labels::{LabelSet, Origin};
use lowresourcecapture::review::{handle_request, highlights_path, ReviewAction, ReviewRequest};

fn msg(cmd: &str) -> ReviewRequest {
    ReviewRequest::from_message(cmd, 0, false, String::new(), 0, String::new(), String::new())
}

fn set_with_two() -> LabelSet<f64> {
    let mut s: LabelSet<f64> = LabelSet::new("vod.mp4", "2026.08.06");
    s.fold_detection(Kind::Death, 100_000_000, 0.9, None);
    s.fold_detection(Kind::Death, 200_000_000, 0.8, None);
    s
}

#[test]
fn a_verdict_rules_on_the_named_label_only() {
    let mut s = set_with_two();
    let r = ReviewRequest::from_message("verdict", 1, true, String::new(), 0, String::new(), String::new());
    assert_eq!(handle_request(&mut s, r, 1.0), ReviewAction::SaveAndRefresh);
    assert_eq!(s.labels[1].confirmed, Some(true));
    assert_eq!(s.labels[0].confirmed, None);
    assert_eq!(s.labels[1].at, 200_000_000);
    let r = ReviewRequest::from_message("verdict", 0, false, String::new(), 0, String::new(), String::new());
    handle_request(&mut s, r, 1.0);
    assert_eq!(s.tally(), (1, 1, 0));
}

#[test]
fn a_verdict_on_a_missing_label_does_nothing() {
    let mut s = set_with_two();
    let r = ReviewRequest::from_message("verdict", 2, true, String::new(), 0, String::new(), String::new());
    assert_eq!(handle_request(&mut s, r, 1.0), ReviewAction::Nothing);
    assert_eq!(s.tally(), (0, 0, 2));
}

#[test]
fn a_hand_mark_is_stored_by_its_wire_name() {
    let mut s = set_with_two();
    let r = ReviewRequest::from_message("mark", 0, false, "monsterkill".into(), 42_500_000, String::new(), String::new());
    assert_eq!(handle_request(&mut s, r, 1.0), ReviewAction::SaveAndRefresh);
    // 42.5 s comes before the detections at 100 s and 200 s.
    let l = s.labels[0];
    assert_eq!(l.kind, Kind::MonsterKill);
    assert_eq!(l.origin, Origin::Manual);
    assert_eq!(l.confirmed, Some(true));
    assert_eq!((l.at, l.score), (42_500_000, 1.0));
}

#[test]
fn a_hand_mark_of_an_unknown_kind_is_refused() {
    let mut s = set_with_two();
    let r = ReviewRequest::from_message("mark", 0, false, "Death".into(), 42_500_000, String::new(), String::new());
    assert_eq!(handle_request(&mut s, r, 1.0), ReviewAction::RefuseMark { kind: "Death".into() });
    assert_eq!(s.labels.len(), 2);
}

#[test]
fn dataset_export_needs_a_confirmed_event_and_records_the_build() {
    let mut s = set_with_two();
    let r = ReviewRequest::from_message("exportDataset", 0, false, String::new(), 0, String::new(), "2026.08.13".into());
    assert_eq!(handle_request(&mut s, r, 1.0), ReviewAction::NothingConfirmed { save_first: true });
    assert_eq!(s.game_build, "2026.08.13");
    s.labels[0].confirmed = Some(true);
    let r = ReviewRequest::from_message("exportDataset", 0, false, String::new(), 0, "D:/ds".into(), "2026.08.13".into());
    assert_eq!(
        handle_request(&mut s, r, 1.0),
        ReviewAction::ExportDataset { dir: Some("D:/ds".into()), save_first: false }
    );
    let r = ReviewRequest::from_message("exportDataset", 0, false, String::new(), 0, String::new(), String::new());
    assert_eq!(handle_request(&mut s, r, 1.0), ReviewAction::ExportDataset { dir: None, save_first: false });
    assert_eq!(s.game_build, "2026.08.13", "an empty build leaves the recorded one");
}

#[test]
fn other_commands_leave_the_labels_alone() {
    let mut s = set_with_two();
    assert_eq!(handle_request(&mut s, msg("load"), 1.0), ReviewAction::SendReviewData);
    assert_eq!(handle_request(&mut s, msg("export"), 1.0), ReviewAction::ExportClips);
    assert_eq!(handle_request(&mut s, msg("trainingStatus"), 1.0), ReviewAction::SendTrainingStatus);
    assert_eq!(handle_request(&mut s, msg("installDeps"), 1.0), ReviewAction::InstallDependencies);
    assert_eq!(handle_request(&mut s, msg("cancelTraining"), 1.0), ReviewAction::CancelTraining);
    let r = ReviewRequest::from_message("trainModel", 0, false, String::new(), 0, String::new(), "b".into());
    assert_eq!(handle_request(&mut s, r, 1.0), ReviewAction::TrainModel { dir: None, build: "b".into() });
    assert_eq!(handle_request(&mut s, msg("reboot"), 1.0), ReviewAction::UnknownCommand { cmd: "reboot".into() });
    assert_eq!(s.tally(), (0, 0, 2));
    assert_eq!(s.game_build, "2026.08.06");
}

#[test]
fn highlights_sit_beside_the_recording() {
    assert_eq!(highlights_path("d/vod.mp4"), "d/vod_highlights.mp4");
    assert_eq!(highlights_path("vod"), "vod_highlights.mp4");
}

const REPORT: &str = "Input #0, mov,mp4,m4a,3gp,3g2,mj2, from 'clip.mp4':\n  Duration: 00:00:30.03, start: 0.000000, bitrate: 8000 kb/s\n  Stream #0:0[0x1](und): Video: hevc (Main) (hev1 / 0x31766568), yuv420p(tv), 1920x1080 [SAR 1:1 DAR 16:9], 7990 kb/s, 60 fps\n  Stream #0:1[0x2](und): Audio: aac (LC) (mp4a / 0x6134706D), 48000 Hz, stereo, fltp, 128 kb/s\n";

#[test]
fn dimensions_come_from_the_video_stream_line() {
    assert_eq!(parse_dimensions(REPORT), Some((1920, 1080)));
    assert_eq!(parse_dimensions("Stream #0:0: Video: h264, yuv420p, 2560x1440\r\n"), Some((2560, 1440)));
}

#[test]
fn small_or_foreign_sizes_are_not_dimensions() {
    assert_eq!(parse_dimensions("Stream #0:0: Video: h264, 320x100 [SAR 1:1]\n"), None, "below 256x144");
    assert_eq!(parse_dimensions("Stream #0:1: Audio: 1280x720\n"), None, "not a video line");
    assert_eq!(parse_dimensions(""), None);
    assert_eq!(parse_dimensions("Video: 1920x1080x2, 1280x720\n"), Some((1280, 720)));
    assert_eq!(parse_dimensions("Video: 99999999999x1080, 640x360\n"), Some((640, 360)));
    assert_eq!(parse_dimensions("Video: 0x1, 256x144\nVideo: 1920x1080\n"), Some((256, 144)));
}

#[test]
fn duration_comes_from_its_field() {
    assert_eq!(duration_field(REPORT), Some("00:00:30.03".to_string()));
    assert_eq!(duration_field("  Duration:   01:02:03.5\r\n"), Some("01:02:03.5".to_string()));
    assert_eq!(duration_field("Duration: N/A, start: 0\nDuration: 00:00:01.00,"), Some("N/A".to_string()));
    assert_eq!(duration_field("Duration:"), Some(String::new()));
    assert_eq!(duration_field("no length here"), None);
    assert_eq!(duration_field(""), None);
}

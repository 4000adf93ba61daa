use lowresourcecapture::config::{
    output_dir_under,
    apply_settings, AudioMode, BufferConfig, Codec, Config, EncoderConfig, PresetIn, SaveMsg,
};

fn cfg() -> Config {
    Config::with_output_dir("clips".to_string())
}

fn save_msg() -> SaveMsg {
    SaveMsg {
        presets: Vec::new(),
        mic_enabled: None,
        output_dir: None,
        codec: None,
        bitrate_mbps: None,
        fps: None,
        buffer_max_seconds: None,
        buffer_max_ram_mb: None,
    }
}

#[test]
fn defaults_match_the_documented_settings() {
    let c = cfg();
    assert_eq!(c.output_dir, "clips");
    let p: Vec<(&str, u32, &str)> =
        c.presets.iter().map(|p| (p.name.as_str(), p.seconds, p.hotkey.as_str())).collect();
    assert_eq!(p, vec![("Short", 15, "F9"), ("Medium", 30, "F10"), ("Long", 60, "F11")]);
    assert_eq!(c.encoder, EncoderConfig { codec: Codec::Hevc, bitrate_mbps: 40, fps: 60 });
    assert_eq!(c.buffer, BufferConfig { max_seconds: 120, max_ram_mb: 1024 });
    assert_eq!(c.audio, AudioMode::GameAndMicSeparate);
    assert!(c.auto_detect_games);
    assert!(c.game_allowlist.is_empty() && c.game_blocklist.is_empty());
    assert_eq!(Codec::default(), Codec::Hevc);
    assert_eq!(AudioMode::default(), AudioMode::GameAndMicSeparate);
}

#[test]
fn default_output_dir_is_under_a_lowresourcecapture_folder() {
    let c = Config::default();
    assert!(c.output_dir.ends_with("LowResourceCapture"), "{}", c.output_dir);
}

#[test]
fn required_buffer_seconds_is_the_longest_preset_or_sixty() {
    let mut c = cfg();
    assert_eq!(c.required_buffer_seconds(), 60);
    c.presets[0].seconds = 90;
    assert_eq!(c.required_buffer_seconds(), 90);
    c.presets.clear();
    assert_eq!(c.required_buffer_seconds(), 60);
}

#[test]
fn validate_and_clamp_repairs_nonsense() {
    let mut c = cfg();
    c.encoder.fps = 0;
    c.encoder.bitrate_mbps = 0;
    c.buffer.max_seconds = 10;
    c.validate_and_clamp();
    assert_eq!(c.encoder.fps, 60);
    assert_eq!(c.encoder.bitrate_mbps, 40);
    assert_eq!(c.buffer.max_seconds, 60, "buffer must hold the longest preset");
    let mut d = cfg();
    d.encoder.fps = 30;
    d.buffer.max_seconds = 300;
    d.validate_and_clamp();
    assert_eq!(d.encoder.fps, 30);
    assert_eq!(d.buffer.max_seconds, 300);
}

#[test]
fn settings_save_normalizes_presets() {
    let mut c = cfg();
    let mut m = save_msg();
    m.presets = vec![
        PresetIn { name: "  \t".into(), seconds: 0, hotkey: "F8".into() },
        PresetIn { name: "Huge".into(), seconds: 300, hotkey: "F7".into() },
    ];
    apply_settings(&mut c, m);
    assert_eq!(c.presets.len(), 2);
    assert_eq!(c.presets[0].name, "Clip");
    assert_eq!(c.presets[0].seconds, 1);
    assert_eq!(c.presets[0].hotkey, "F8");
    assert_eq!(c.presets[1].name, "Huge");
    assert_eq!(c.buffer.max_seconds, 300, "buffer grows to the longest preset");
}

#[test]
fn settings_save_mic_toggle_and_codec() {
    let mut c = cfg();
    let mut m = save_msg();
    m.mic_enabled = Some(false);
    m.codec = Some("H264".into());
    apply_settings(&mut c, m);
    assert_eq!(c.audio, AudioMode::GameOnly);
    assert_eq!(c.encoder.codec, Codec::H264);

    let mut m = save_msg();
    m.mic_enabled = Some(true);
    m.codec = Some("av1".into());
    apply_settings(&mut c, m);
    assert_eq!(c.audio, AudioMode::GameAndMicSeparate);
    assert_eq!(c.encoder.codec, Codec::Hevc);

    c.audio = AudioMode::GameAndMicMixed;
    let mut m = save_msg();
    m.mic_enabled = Some(true);
    apply_settings(&mut c, m);
    assert_eq!(c.audio, AudioMode::GameAndMicMixed, "a mixed choice is kept");
}

#[test]
fn settings_save_ignores_zero_and_blank_values() {
    let mut c = cfg();
    let mut m = save_msg();
    m.output_dir = Some("   ".into());
    m.bitrate_mbps = Some(0);
    m.fps = Some(30);
    m.buffer_max_seconds = Some(0);
    m.buffer_max_ram_mb = Some(512);
    apply_settings(&mut c, m);
    assert_eq!(c.output_dir, "clips");
    assert_eq!(c.encoder.bitrate_mbps, 40);
    assert_eq!(c.encoder.fps, 30);
    assert_eq!(c.buffer.max_seconds, 120);
    assert_eq!(c.buffer.max_ram_mb, 512);

    let mut m = save_msg();
    m.output_dir = Some("D:\\Videos".into());
    m.buffer_max_seconds = Some(5);
    apply_settings(&mut c, m);
    assert_eq!(c.output_dir, "D:\\Videos");
    assert_eq!(c.buffer.max_seconds, 60, "never below the longest preset");
}

#[test]
fn clips_go_under_the_videos_folder() {
    let under = output_dir_under(Some("C:/Users/me/Videos".to_string()));
    assert_eq!(under, std::path::Path::new("C:/Users/me/Videos").join("LowResourceCapture").to_string_lossy());
    let fallback = output_dir_under(None);
    assert_eq!(fallback, std::path::Path::new(".").join("LowResourceCapture").to_string_lossy());
}

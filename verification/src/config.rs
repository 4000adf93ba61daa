//! Configuration: hotkeys, clip lengths, output paths, encoder and buffer
//! settings, and the rules that keep a loaded or edited config trustworthy.
//!
//! Reading and writing `config.toml` is I/O and lives outside the library;
//! what is decided about the values lives here.
use crate::paths::{joined_path, path_join};
use crate::text::{eq_ignore_ascii_case, eq_ignore_ascii_case_spec, is_blank, is_blank_spec};
use vstd::prelude::*;
use vstd::string::StringExecFns;

verus! {

/// One clip preset: a hotkey bound to a retroactive save length.
pub struct ClipPreset {
    /// Human label, e.g. "Short".
    pub name: String,
    /// How many seconds back from "now" to save when this hotkey fires.
    pub seconds: u32,
    /// Hotkey string, e.g. "F9", "Ctrl+Shift+F9".
    pub hotkey: String,
}

pub ghost struct ClipPresetView {
    pub name: Seq<char>,
    pub seconds: u32,
    pub hotkey: Seq<char>,
}

impl View for ClipPreset {
    type V = ClipPresetView;

    open spec fn view(&self) -> ClipPresetView {
        ClipPresetView { name: self.name@, seconds: self.seconds, hotkey: self.hotkey@ }
    }
}

impl ClipPreset {
    pub fn duplicate(&self) -> (p: ClipPreset)
        ensures
            p@ == self@,
    {
        ClipPreset { name: self.name.clone(), seconds: self.seconds, hotkey: self.hotkey.clone() }
    }
}

#[derive(Debug, Clone, Copy, PartialEq, Eq, Structural)]
pub enum Codec {
    /// H.265 — smaller files, best quality/bitrate. Default.
    Hevc,
    /// H.264 — maximum editor/upload compatibility.
    H264,
}

impl Default for Codec {
    fn default() -> (c: Codec)
        ensures
            c == Codec::Hevc,
    {
        Codec::Hevc
    }
}

#[derive(Debug, Clone, Copy, PartialEq, Eq, Structural)]
pub enum AudioMode {
    /// Desktop/game audio + mic as two separate tracks. Default.
    GameAndMicSeparate,
    /// Desktop/game audio + mic mixed into one track.
    GameAndMicMixed,
    /// Desktop/game audio only.
    GameOnly,
    /// No audio.
    NoAudio,
}

impl Default for AudioMode {
    fn default() -> (m: AudioMode)
        ensures
            m == AudioMode::GameAndMicSeparate,
    {
        AudioMode::GameAndMicSeparate
    }
}

#[derive(Debug, Clone, Copy, PartialEq, Eq, Structural)]
pub struct EncoderConfig {
    pub codec: Codec,
    /// Target average bitrate in Mbps.
    pub bitrate_mbps: u32,
    /// Capture/encode framerate cap.
    pub fps: u32,
}

impl Default for EncoderConfig {
    fn default() -> (e: EncoderConfig)
        ensures
            e == (EncoderConfig { codec: Codec::Hevc, bitrate_mbps: 40, fps: 60 }),
    {
        EncoderConfig { codec: Codec::Hevc, bitrate_mbps: 40, fps: 60 }
    }
}

#[derive(Debug, Clone, Copy, PartialEq, Eq, Structural)]
pub struct BufferConfig {
    /// Hard cap on how many seconds the ring buffer may hold. The largest
    /// clip preset must be <= this.
    pub max_seconds: u32,
    /// Safety ceiling on RAM the encoded buffer may use, in MB.
    pub max_ram_mb: u32,
}

impl Default for BufferConfig {
    fn default() -> (b: BufferConfig)
        ensures
            b == (BufferConfig { max_seconds: 120, max_ram_mb: 1024 }),
    {
        BufferConfig { max_seconds: 120, max_ram_mb: 1024 }
    }
}

pub struct Config {
    /// Directory where finished clips are written.
    pub output_dir: String,
    /// Clip presets (each is a hotkey + a save length).
    pub presets: Vec<ClipPreset>,
    pub encoder: EncoderConfig,
    pub buffer: BufferConfig,
    pub audio: AudioMode,
    /// If true, only capture when a detected game is in the foreground.
    pub auto_detect_games: bool,
    /// Extra executable names to always treat as games.
    pub game_allowlist: Vec<String>,
    /// Executable names to never capture even if detected as a game.
    pub game_blocklist: Vec<String>,
}

pub ghost struct ConfigView {
    pub output_dir: Seq<char>,
    pub presets: Seq<ClipPresetView>,
    pub encoder: EncoderConfig,
    pub buffer: BufferConfig,
    pub audio: AudioMode,
    pub auto_detect_games: bool,
    pub game_allowlist: Seq<Seq<char>>,
    pub game_blocklist: Seq<Seq<char>>,
}

impl View for Config {
    type V = ConfigView;

    open spec fn view(&self) -> ConfigView {
        ConfigView {
            output_dir: self.output_dir@,
            presets: self.presets@.map_values(|p: ClipPreset| p@),
            encoder: self.encoder,
            buffer: self.buffer,
            audio: self.audio,
            auto_detect_games: self.auto_detect_games,
            game_allowlist: self.game_allowlist.deep_view(),
            game_blocklist: self.game_blocklist.deep_view(),
        }
    }
}

/// The largest save length among `presets`, if there is any preset.
pub open spec fn max_preset_seconds(presets: Seq<ClipPresetView>) -> Option<u32>
    decreases presets.len(),
{
    if presets.len() == 0 {
        None
    } else {
        match max_preset_seconds(presets.drop_last()) {
            Some(m) => Some(if presets.last().seconds > m {
                presets.last().seconds
            } else {
                m
            }),
            None => Some(presets.last().seconds),
        }
    }
}

/// The largest preset length, or 60 s when there are no presets.
pub open spec fn required_seconds(presets: Seq<ClipPresetView>) -> u32 {
    match max_preset_seconds(presets) {
        Some(m) => m,
        None => 60,
    }
}

/// `cfg` with nonsensical values clamped: a zero framerate or bitrate takes
/// its default, and the buffer is grown to hold the largest preset.
pub open spec fn clamped(cfg: ConfigView) -> ConfigView {
    let needed = required_seconds(cfg.presets);
    ConfigView {
        encoder: EncoderConfig {
            fps: if cfg.encoder.fps == 0 {
                60
            } else {
                cfg.encoder.fps
            },
            bitrate_mbps: if cfg.encoder.bitrate_mbps == 0 {
                40
            } else {
                cfg.encoder.bitrate_mbps
            },
            ..cfg.encoder
        },
        buffer: BufferConfig {
            max_seconds: if cfg.buffer.max_seconds < needed {
                needed
            } else {
                cfg.buffer.max_seconds
            },
            ..cfg.buffer
        },
        ..cfg
    }
}

/// The three presets a fresh install starts with.
pub open spec fn default_presets() -> Seq<ClipPresetView> {
    seq![
        ClipPresetView { name: "Short"@, seconds: 15, hotkey: "F9"@ },
        ClipPresetView { name: "Medium"@, seconds: 30, hotkey: "F10"@ },
        ClipPresetView { name: "Long"@, seconds: 60, hotkey: "F11"@ },
    ]
}

/// The default configuration, given where clips are saved by default.
pub open spec fn default_config(output_dir: Seq<char>) -> ConfigView {
    ConfigView {
        output_dir,
        presets: default_presets(),
        encoder: EncoderConfig { codec: Codec::Hevc, bitrate_mbps: 40, fps: 60 },
        buffer: BufferConfig { max_seconds: 120, max_ram_mb: 1024 },
        audio: AudioMode::GameAndMicSeparate,
        auto_detect_games: true,
        game_allowlist: Seq::empty(),
        game_blocklist: Seq::empty(),
    }
}

/// The folder name clips are saved under inside the Videos folder.
pub open spec fn clips_folder_name() -> Seq<char> {
    "LowResourceCapture"@
}

/// `directories::UserDirs::new()` and then `video_dir()`: the user's Videos
/// folder, when the platform reports one. Nothing is stated of the result:
/// it depends on the machine and the user's environment.
#[verifier::external_body]
fn user_videos_dir() -> (dir: Option<String>) {
    directories::UserDirs::new().and_then(
        |d| d.video_dir().map(|v| v.to_string_lossy().into_owned()),
    )
}

/// The folder clips are kept under: the Videos folder, or `.` when none is
/// known.
pub open spec fn videos_base(videos: Option<String>) -> Seq<char> {
    match videos {
        Some(v) => v@,
        None => "."@,
    }
}

/// The clips folder for a Videos folder: `<videos>\LowResourceCapture`, or
/// `.\LowResourceCapture` when no Videos folder is known.
pub fn output_dir_under(videos: Option<String>) -> (dir: String)
    ensures
        dir@ == joined_path(videos_base(videos), clips_folder_name()),
{
    let base = match videos {
        Some(v) => v,
        None => String::from_str("."),
    };
    proof {
        reveal_strlit("LowResourceCapture");
    }
    path_join(base.as_str(), "LowResourceCapture")
}

/// Default clips output directory: `<Videos>\LowResourceCapture`, or
/// `.\LowResourceCapture` when the Videos folder cannot be resolved. Which
/// folder the platform reports as Videos is the environment's; what is done
/// with the answer is `output_dir_under`.
pub fn default_output_dir() -> (dir: String)
    ensures
        exists|base: Seq<char>| dir@ == joined_path(base, clips_folder_name()),
{
    let videos = user_videos_dir();
    let ghost base = videos_base(videos);
    let dir = output_dir_under(videos);
    assert(dir@ == joined_path(base, clips_folder_name()));
    dir
}

impl Config {
    /// The default configuration with clips saved under `output_dir`.
    pub fn with_output_dir(output_dir: String) -> (cfg: Config)
        ensures
            cfg@ == default_config(output_dir@),
    {
        let mut presets: Vec<ClipPreset> = Vec::new();
        presets.push(
            ClipPreset {
                name: String::from_str("Short"),
                seconds: 15,
                hotkey: String::from_str("F9"),
            },
        );
        presets.push(
            ClipPreset {
                name: String::from_str("Medium"),
                seconds: 30,
                hotkey: String::from_str("F10"),
            },
        );
        presets.push(
            ClipPreset {
                name: String::from_str("Long"),
                seconds: 60,
                hotkey: String::from_str("F11"),
            },
        );
        let cfg = Config {
            output_dir,
            presets,
            encoder: EncoderConfig { codec: Codec::Hevc, bitrate_mbps: 40, fps: 60 },
            buffer: BufferConfig { max_seconds: 120, max_ram_mb: 1024 },
            audio: AudioMode::GameAndMicSeparate,
            auto_detect_games: true,
            game_allowlist: Vec::new(),
            game_blocklist: Vec::new(),
        };
        assert(cfg@.presets =~= default_presets());
        assert(cfg@.game_allowlist =~= Seq::<Seq<char>>::empty());
        assert(cfg@.game_blocklist =~= Seq::<Seq<char>>::empty());
        cfg
    }

    /// The largest preset length actually needed by the buffer.
    pub fn required_buffer_seconds(&self) -> (secs: u32)
        ensures
            secs == required_seconds(self@.presets),
    {
        let mut best: Option<u32> = None;
        let mut i: usize = 0;
        while i < self.presets.len()
            invariant
                0 <= i <= self.presets.len(),
                best == max_preset_seconds(self@.presets.subrange(0, i as int)),
            decreases self.presets.len() - i,
        {
            let s = self.presets[i].seconds;
            assert(self@.presets.subrange(0, i + 1).drop_last() =~= self@.presets.subrange(
                0,
                i as int,
            ));
            best = match best {
                Some(m) => Some(
                    if s > m {
                        s
                    } else {
                        m
                    },
                ),
                None => Some(s),
            };
            i = i + 1;
        }
        assert(self@.presets.subrange(0, self.presets.len() as int) =~= self@.presets);
        match best {
            Some(m) => m,
            None => 60,
        }
    }

    /// Clamp nonsensical values so the rest of the app can trust the config.
    pub fn validate_and_clamp(&mut self)
        ensures
            final(self)@ == clamped(old(self)@),
    {
        if self.encoder.fps == 0 {
            self.encoder.fps = 60;
        }
        if self.encoder.bitrate_mbps == 0 {
            self.encoder.bitrate_mbps = 40;
        }
        let needed = self.required_buffer_seconds();
        if self.buffer.max_seconds < needed {
            self.buffer.max_seconds = needed;
        }
    }
}

impl Default for Config {
    /// The built-in defaults, saving clips under the user's Videos folder.
    fn default() -> (cfg: Config)
        ensures
            exists|base: Seq<char>|
                cfg@ == default_config(joined_path(base, clips_folder_name())),
    {
        let dir = default_output_dir();
        Config::with_output_dir(dir)
    }
}

/// One edited preset as the settings page posts it.
pub struct PresetIn {
    pub name: String,
    pub seconds: u32,
    pub hotkey: String,
}

/// The settings page's "save" message: every field it may change.
pub struct SaveMsg {
    pub presets: Vec<PresetIn>,
    pub mic_enabled: Option<bool>,
    pub output_dir: Option<String>,
    pub codec: Option<String>,
    pub bitrate_mbps: Option<u32>,
    pub fps: Option<u32>,
    pub buffer_max_seconds: Option<u32>,
    pub buffer_max_ram_mb: Option<u32>,
}

pub ghost struct SaveMsgView {
    pub presets: Seq<ClipPresetView>,
    pub mic_enabled: Option<bool>,
    pub output_dir: Option<Seq<char>>,
    pub codec: Option<Seq<char>>,
    pub bitrate_mbps: Option<u32>,
    pub fps: Option<u32>,
    pub buffer_max_seconds: Option<u32>,
    pub buffer_max_ram_mb: Option<u32>,
}

pub open spec fn opt_view(o: Option<String>) -> Option<Seq<char>> {
    match o {
        Some(s) => Some(s@),
        None => None,
    }
}

impl View for SaveMsg {
    type V = SaveMsgView;

    open spec fn view(&self) -> SaveMsgView {
        SaveMsgView {
            presets: self.presets@.map_values(|p: PresetIn| preset_in_view(p)),
            mic_enabled: self.mic_enabled,
            output_dir: opt_view(self.output_dir),
            codec: opt_view(self.codec),
            bitrate_mbps: self.bitrate_mbps,
            fps: self.fps,
            buffer_max_seconds: self.buffer_max_seconds,
            buffer_max_ram_mb: self.buffer_max_ram_mb,
        }
    }
}

/// An edited preset as stored: a blank name becomes "Clip" and the length is
/// at least one second.
pub open spec fn normalized_preset(p: ClipPresetView) -> ClipPresetView {
    ClipPresetView {
        name: if is_blank_spec(p.name) {
            "Clip"@
        } else {
            p.name
        },
        seconds: if p.seconds < 1 {
            1
        } else {
            p.seconds
        },
        hotkey: p.hotkey,
    }
}

/// The audio mode after the mic toggle: the mic off keeps game audio only;
/// the mic on keeps a mixed choice and otherwise records separate tracks.
pub open spec fn audio_after_mic(mic: Option<bool>, current: AudioMode) -> AudioMode {
    match mic {
        None => current,
        Some(false) => AudioMode::GameOnly,
        Some(true) => if current == AudioMode::GameAndMicMixed {
            AudioMode::GameAndMicMixed
        } else {
            AudioMode::GameAndMicSeparate
        },
    }
}

/// A positive value replaces the current one; zero or absent keeps it.
pub open spec fn positive_or(v: Option<u32>, current: u32) -> u32 {
    match v {
        Some(x) => if x > 0 {
            x
        } else {
            current
        },
        None => current,
    }
}

/// `cfg` with the edits of `m` merged in, before the buffer is grown.
pub open spec fn merged_settings(cfg: ConfigView, m: SaveMsgView) -> ConfigView {
    ConfigView {
        presets: if m.presets.len() > 0 {
            m.presets.map_values(|p: ClipPresetView| normalized_preset(p))
        } else {
            cfg.presets
        },
        audio: audio_after_mic(m.mic_enabled, cfg.audio),
        output_dir: match m.output_dir {
            Some(d) => if is_blank_spec(d) {
                cfg.output_dir
            } else {
                d
            },
            None => cfg.output_dir,
        },
        encoder: EncoderConfig {
            codec: match m.codec {
                Some(c) => if eq_ignore_ascii_case_spec(c, "h264"@) {
                    Codec::H264
                } else {
                    Codec::Hevc
                },
                None => cfg.encoder.codec,
            },
            bitrate_mbps: positive_or(m.bitrate_mbps, cfg.encoder.bitrate_mbps),
            fps: positive_or(m.fps, cfg.encoder.fps),
        },
        buffer: BufferConfig {
            max_seconds: positive_or(m.buffer_max_seconds, cfg.buffer.max_seconds),
            max_ram_mb: positive_or(m.buffer_max_ram_mb, cfg.buffer.max_ram_mb),
        },
        ..cfg
    }
}

/// `cfg` after the settings page saved `m`: the edits merged in, then the
/// buffer grown so it can hold the largest preset.
pub open spec fn settings_applied(cfg: ConfigView, m: SaveMsgView) -> ConfigView {
    let merged = merged_settings(cfg, m);
    let needed = required_seconds(merged.presets);
    ConfigView {
        buffer: BufferConfig {
            max_seconds: if merged.buffer.max_seconds < needed {
                needed
            } else {
                merged.buffer.max_seconds
            },
            ..merged.buffer
        },
        ..merged
    }
}

pub open spec fn preset_in_view(p: PresetIn) -> ClipPresetView {
    ClipPresetView { name: p.name@, seconds: p.seconds, hotkey: p.hotkey@ }
}

/// The edited presets as they will be stored.
fn normalized_presets(presets: &Vec<PresetIn>) -> (out: Vec<ClipPreset>)
    ensures
        out@.map_values(|p: ClipPreset| p@) =~= presets@.map_values(|p: PresetIn| preset_in_view(p)).map_values(
            |p: ClipPresetView| normalized_preset(p),
        ),
{
    let ghost src = presets@.map_values(|p: PresetIn| preset_in_view(p));
    let mut out: Vec<ClipPreset> = Vec::new();
    let mut i: usize = 0;
    while i < presets.len()
        invariant
            0 <= i <= presets.len(),
            src == presets@.map_values(|p: PresetIn| preset_in_view(p)),
            out@.map_values(|p: ClipPreset| p@) =~= src.subrange(0, i as int).map_values(
                |p: ClipPresetView| normalized_preset(p),
            ),
        decreases presets.len() - i,
    {
        let p = &presets[i];
        let name = if is_blank(p.name.as_str()) {
            proof {
                reveal_strlit("Clip");
            }
            String::from_str("Clip")
        } else {
            p.name.clone()
        };
        let seconds = if p.seconds < 1 {
            1
        } else {
            p.seconds
        };
        let np = ClipPreset { name, seconds, hotkey: p.hotkey.clone() };
        assert(np@ == normalized_preset(src[i as int]));
        let ghost before = out@;
        out.push(np);
        assert(out@.map_values(|p: ClipPreset| p@) =~= before.map_values(|p: ClipPreset| p@).push(
            np@,
        ));
        assert(src.subrange(0, i + 1) =~= src.subrange(0, i as int).push(src[i as int]));
        i = i + 1;
    }
    assert(src.subrange(0, presets.len() as int) =~= src);
    out
}

fn audio_with_mic(mic: Option<bool>, current: AudioMode) -> (a: AudioMode)
    ensures
        a == audio_after_mic(mic, current),
{
    match mic {
        Some(true) => if current == AudioMode::GameAndMicMixed {
            AudioMode::GameAndMicMixed
        } else {
            AudioMode::GameAndMicSeparate
        },
        Some(false) => AudioMode::GameOnly,
        None => current,
    }
}

fn positive_or_exec(v: Option<u32>, current: u32) -> (r: u32)
    ensures
        r == positive_or(v, current),
{
    match v {
        Some(x) => if x > 0 {
            x
        } else {
            current
        },
        None => current,
    }
}

fn codec_choice(c: Option<String>, current: Codec) -> (r: Codec)
    ensures
        r == (match opt_view(c) {
            Some(c) => if eq_ignore_ascii_case_spec(c, "h264"@) {
                Codec::H264
            } else {
                Codec::Hevc
            },
            None => current,
        }),
{
    match c {
        Some(c) => {
            proof {
                reveal_strlit("h264");
            }
            if eq_ignore_ascii_case(c.as_str(), "h264") {
                Codec::H264
            } else {
                Codec::Hevc
            }
        },
        None => current,
    }
}

/// Merge the settings page's edits into `config` (persisting it is the
/// caller's job).
pub fn apply_settings(config: &mut Config, m: SaveMsg)
    ensures
        final(config)@ == settings_applied(old(config)@, m@),
{
    let ghost mv = m@;
    let ghost merged = merged_settings(old(config)@, mv);
    assert(mv.presets =~= m.presets@.map_values(|p: PresetIn| preset_in_view(p)));
    if m.presets.len() > 0 {
        config.presets = normalized_presets(&m.presets);
    }
    config.audio = audio_with_mic(m.mic_enabled, config.audio);
    match m.output_dir {
        Some(d) => {
            if !is_blank(d.as_str()) {
                config.output_dir = d;
            }
        },
        None => {},
    }
    config.encoder.codec = codec_choice(m.codec, config.encoder.codec);
    config.encoder.bitrate_mbps = positive_or_exec(m.bitrate_mbps, config.encoder.bitrate_mbps);
    config.encoder.fps = positive_or_exec(m.fps, config.encoder.fps);
    config.buffer.max_seconds = positive_or_exec(m.buffer_max_seconds, config.buffer.max_seconds);
    config.buffer.max_ram_mb = positive_or_exec(m.buffer_max_ram_mb, config.buffer.max_ram_mb);
    assert(config@ == merged);
    let needed = config.required_buffer_seconds();
    if config.buffer.max_seconds < needed {
        config.buffer.max_seconds = needed;
    }
}

/// After clamping, the buffer can hold every preset and the encoder settings
/// are usable.
pub proof fn law_clamped_config_is_usable(cfg: ConfigView)
    ensures
        clamped(cfg).encoder.fps > 0,
        clamped(cfg).encoder.bitrate_mbps > 0,
        forall|i: int|
            0 <= i < cfg.presets.len() ==> #[trigger] cfg.presets[i].seconds <= clamped(
                cfg,
            ).buffer.max_seconds,
        clamped(clamped(cfg)) == clamped(cfg),
{
    lemma_required_is_upper_bound(cfg.presets);
}

/// After the settings page saves, the buffer can hold every preset.
pub proof fn law_saved_settings_hold_every_preset(cfg: ConfigView, m: SaveMsgView)
    ensures
        forall|i: int|
            0 <= i < settings_applied(cfg, m).presets.len() ==> #[trigger] settings_applied(
                cfg,
                m,
            ).presets[i].seconds <= settings_applied(cfg, m).buffer.max_seconds,
        m.presets.len() > 0 ==> forall|i: int|
            0 <= i < settings_applied(cfg, m).presets.len() ==> #[trigger] settings_applied(
                cfg,
                m,
            ).presets[i].seconds >= 1,
{
    let merged = merged_settings(cfg, m);
    lemma_required_is_upper_bound(merged.presets);
}

/// What a save stores: a positive bitrate, framerate or RAM cap in the
/// message is the value stored, and an absent or zero one keeps the current
/// value; a positive buffer length is stored unless a preset needs longer, in
/// which case the buffer grows to the longest preset; absent or zero, the
/// buffer keeps its length unless a preset needs longer. Nothing else than
/// the edited settings changes.
pub proof fn law_saved_values_are_stored(cfg: ConfigView, m: SaveMsgView)
    ensures
        ({
            let a = settings_applied(cfg, m);
            &&& m.bitrate_mbps is Some && m.bitrate_mbps.unwrap() > 0 ==> a.encoder.bitrate_mbps == m.bitrate_mbps.unwrap()
            &&& !(m.bitrate_mbps is Some && m.bitrate_mbps.unwrap() > 0) ==> a.encoder.bitrate_mbps
                == cfg.encoder.bitrate_mbps
            &&& m.fps is Some && m.fps.unwrap() > 0 ==> a.encoder.fps == m.fps.unwrap()
            &&& !(m.fps is Some && m.fps.unwrap() > 0) ==> a.encoder.fps == cfg.encoder.fps
            &&& m.buffer_max_ram_mb is Some && m.buffer_max_ram_mb.unwrap() > 0 ==> a.buffer.max_ram_mb == m.buffer_max_ram_mb.unwrap()
            &&& !(m.buffer_max_ram_mb is Some && m.buffer_max_ram_mb.unwrap() > 0) ==> a.buffer.max_ram_mb
                == cfg.buffer.max_ram_mb
            &&& m.buffer_max_seconds is Some && m.buffer_max_seconds.unwrap() > 0 ==> {
                &&& a.buffer.max_seconds >= m.buffer_max_seconds.unwrap()
                &&& a.buffer.max_seconds == m.buffer_max_seconds.unwrap() || a.buffer.max_seconds
                    == required_seconds(a.presets)
            }
            &&& !(m.buffer_max_seconds is Some && m.buffer_max_seconds.unwrap() > 0) ==> {
                &&& a.buffer.max_seconds >= cfg.buffer.max_seconds
                &&& a.buffer.max_seconds == cfg.buffer.max_seconds || a.buffer.max_seconds
                    == required_seconds(a.presets)
            }
            &&& a.buffer.max_seconds >= required_seconds(a.presets)
            &&& m.presets.len() == 0 ==> a.presets == cfg.presets
            &&& m.output_dir is None ==> a.output_dir == cfg.output_dir
            &&& m.codec is None ==> a.encoder.codec == cfg.encoder.codec
            &&& m.mic_enabled is None ==> a.audio == cfg.audio
            &&& a.auto_detect_games == cfg.auto_detect_games
            &&& a.game_allowlist == cfg.game_allowlist
            &&& a.game_blocklist == cfg.game_blocklist
        }),
{
}

/// The required length bounds every preset, and is one of them when any exist.
pub proof fn lemma_required_is_upper_bound(presets: Seq<ClipPresetView>)
    ensures
        forall|i: int|
            0 <= i < presets.len() ==> #[trigger] presets[i].seconds <= required_seconds(presets),
        presets.len() > 0 ==> exists|i: int|
            0 <= i < presets.len() && #[trigger] presets[i].seconds == required_seconds(presets),
    decreases presets.len(),
{
    if presets.len() > 0 {
        let init = presets.drop_last();
        lemma_required_is_upper_bound(init);
        assert forall|i: int| 0 <= i < presets.len() implies #[trigger] presets[i].seconds
            <= required_seconds(presets) by {
            if i < presets.len() - 1 {
                assert(presets[i] == init[i]);
            }
        }
        if init.len() > 0 {
            let j = choose|j: int|
                0 <= j < init.len() && #[trigger] init[j].seconds == required_seconds(init);
            assert(presets[j] == init[j]);
        }
        assert(presets[presets.len() - 1] == presets.last());
    }
}

} // verus!

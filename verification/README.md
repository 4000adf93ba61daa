# LowResourceCapture

A retroactive game-clip recorder for Windows (keep the last N seconds of
*encoded* frames in RAM, save them on a hotkey) and its offline analyzer
(find deaths in a recording, review and mark events, export clips and
training frames).

The decisions both apps make are a Verus-verified library; the Windows,
WebView2, ffmpeg and floating-point parts are an ordinary Rust program
around it.

## Layout

- `src/` — the verified library (`lowresourcecapture`), one module per
  concern:
  - `ringbuffer` — the time- and RAM-capped buffer of encoded frames and the
    keyframe-aligned "last N seconds" extraction;
  - `engine` — the capture engine as a step from state and command to next
    state and action;
  - `muxer` — the order a clip's samples are written in;
  - `config`, `hotkeys`, `game_detect` — settings and their clamping, the
    settings page's edits, hotkey routing, what counts as a game;
  - `clips`, `listing` — clip and edit file names, where an edit is saved,
    what the clip library does with each request of its window, and the
    newest-first order it lists clips in;
  - `media`, `logline`, `stats` — data URIs and script strings for the
    embedded browser, ffmpeg's concat list, the layout of a log line, and
    the tray tooltip;
  - `event`, `labels`, `review` — event kinds and their wire names, the label
    store (times in whole microseconds, kept in time order) that never
    discards a ruling or touches a hand mark, and what each request from the
    review page does;
  - `dataset`, `model`, `classifier`, `training`, `profile`, `detect`,
    `frames` — training data (class counts, builds, merging exports), model
    staleness, the classifier's integer side, finding Python and the
    trainer's command lines, profile rules, death-card pixel counts, and
    reading a video's size from ffmpeg's report;
  - `text`, `paths`, `cli`, `winui` — string predicates and parsers, paths,
    command-line flags and the analyzer's reading of its arguments, UTF-16.
- `tests/` — tests run against the compiled library.
- `app/` — the program: tray and message loop, capture and audio, muxing,
  the settings window, clip library and review windows, ffmpeg and Python
  processes, and the analyzer's floating-point detection and training.
  `app/main.rs` runs the recorder; `analyze <video>` runs the analyzer.

The windows load their pages (`settings.html`, `clips.html`, `review.html`)
from the install directory.

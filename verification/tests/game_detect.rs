use lowresourcecapture::config::Config;
use lowresourcecapture::game_detect::{is_game, is_never_game};

#[test]
fn fullscreen_unknown_app_is_game() {
    let cfg = Config::default();
    assert!(is_game("witcher3.exe", true, &cfg));
    assert!(!is_game("witcher3.exe", false, &cfg));
}

#[test]
fn blocklist_wins_over_fullscreen() {
    let mut cfg = Config::default();
    cfg.game_blocklist.push("mpv.exe".into());
    assert!(!is_game("mpv.exe", true, &cfg));
}

#[test]
fn allowlist_forces_windowed_game() {
    let mut cfg = Config::default();
    cfg.game_allowlist.push("osu!.exe".into());
    assert!(is_game("osu!.exe", false, &cfg));
}

#[test]
fn browsers_never_games() {
    let cfg = Config::default();
    assert!(!is_game("chrome.exe", true, &cfg));
}

#[test]
fn lists_match_ignoring_ascii_case() {
    let mut cfg = Config::default();
    cfg.game_blocklist.push("MPV.exe".into());
    cfg.game_allowlist.push("Osu!.EXE".into());
    assert!(!is_game("mpv.exe", true, &cfg));
    assert!(is_game("osu!.exe", false, &cfg));
}

#[test]
fn blocklist_beats_allowlist_and_never_games_beat_allowlist() {
    let mut cfg = Config::default();
    cfg.game_blocklist.push("x.exe".into());
    cfg.game_allowlist.push("x.exe".into());
    cfg.game_allowlist.push("steam.exe".into());
    assert!(!is_game("x.exe", true, &cfg));
    assert!(!is_game("steam.exe", true, &cfg));
}

#[test]
fn never_games_match_exactly() {
    assert!(is_never_game("explorer.exe"));
    assert!(is_never_game("steamwebhelper.exe"));
    assert!(!is_never_game("Chrome.exe"), "the built-in list is matched exactly");
    assert!(!is_never_game("chrome"));
}

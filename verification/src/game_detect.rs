//! Game auto-detection rules.
//!
//! A cheap foreground-window poll reports the foreground executable and
//! whether it covers the primary monitor; these rules decide whether that
//! counts as a game to capture.
use crate::config::Config;
use crate::text::{
    any_eq_ignore_ascii_case, contains_ignore_ascii_case, eq_ignore_ascii_case_spec,
    law_list_membership_is_any_entry, str_eq,
};
use vstd::prelude::*;

verus! {

#[derive(Debug, Clone, PartialEq, Eq)]
pub enum GameEvent {
    Started { title: String, exe: String },
    Stopped,
}

/// Executables never treated as games: the shell, this app, browsers,
/// editors and launchers.
pub open spec fn never_games() -> Seq<Seq<char>> {
    seq![
        "explorer.exe"@,
        "lowresourcecapture.exe"@,
        "chrome.exe"@,
        "firefox.exe"@,
        "msedge.exe"@,
        "devenv.exe"@,
        "code.exe"@,
        "discord.exe"@,
        "steam.exe"@,
        "steamwebhelper.exe"@,
    ]
}

/// The capture decision: the blocklist wins, then the built-in non-games,
/// then the allowlist; otherwise a fullscreen foreground app is a game.
pub open spec fn is_game_spec(
    exe: Seq<char>,
    is_fullscreen: bool,
    allowlist: Seq<Seq<char>>,
    blocklist: Seq<Seq<char>>,
) -> bool {
    if any_eq_ignore_ascii_case(blocklist, exe) {
        false
    } else if never_games().contains(exe) {
        false
    } else if any_eq_ignore_ascii_case(allowlist, exe) {
        true
    } else {
        is_fullscreen
    }
}

/// Whether `exe` is one of the built-in non-games (exact match).
pub fn is_never_game(exe: &str) -> (r: bool)
    ensures
        r == never_games().contains(exe@),
{
    let names = [
        "explorer.exe",
        "lowresourcecapture.exe",
        "chrome.exe",
        "firefox.exe",
        "msedge.exe",
        "devenv.exe",
        "code.exe",
        "discord.exe",
        "steam.exe",
        "steamwebhelper.exe",
    ];
    assert(names@.map_values(|s: &str| s@) =~= never_games());
    let mut i: usize = 0;
    while i < 10
        invariant
            0 <= i <= 10,
            names@.map_values(|s: &str| s@) == never_games(),
            forall|k: int| 0 <= k < i ==> never_games()[k] != exe@,
        decreases 10 - i,
    {
        if str_eq(names[i], exe) {
            assert(never_games()[i as int] == exe@);
            return true;
        }
        i = i + 1;
    }
    false
}

/// Decide, from an observed foreground window, whether it should count as a
/// game to capture.
pub fn is_game(exe_lower: &str, is_fullscreen: bool, cfg: &Config) -> (r: bool)
    ensures
        r == is_game_spec(exe_lower@, is_fullscreen, cfg@.game_allowlist, cfg@.game_blocklist),
{
    if contains_ignore_ascii_case(&cfg.game_blocklist, exe_lower) {
        return false;
    }
    if is_never_game(exe_lower) {
        return false;
    }
    if contains_ignore_ascii_case(&cfg.game_allowlist, exe_lower) {
        return true;
    }
    is_fullscreen
}

/// The blocklist always wins: a blocked executable is never captured, however
/// it is displayed and whatever the allowlist says.
pub proof fn law_blocklist_wins(
    exe: Seq<char>,
    is_fullscreen: bool,
    allowlist: Seq<Seq<char>>,
    blocklist: Seq<Seq<char>>,
)
    requires
        any_eq_ignore_ascii_case(blocklist, exe),
    ensures
        !is_game_spec(exe, is_fullscreen, allowlist, blocklist),
{
}

/// Any blocklist entry that names the executable, up to ASCII case and
/// wherever it stands in the list, keeps it from being captured; an
/// allowlist entry anywhere in the list makes a not-blocked, not built-in
/// executable a game.
pub proof fn law_every_list_entry_counts(
    exe: Seq<char>,
    is_fullscreen: bool,
    allowlist: Seq<Seq<char>>,
    blocklist: Seq<Seq<char>>,
    i: int,
)
    ensures
        0 <= i < blocklist.len() && eq_ignore_ascii_case_spec(blocklist[i], exe) ==> !is_game_spec(
            exe,
            is_fullscreen,
            allowlist,
            blocklist,
        ),
        0 <= i < allowlist.len() && eq_ignore_ascii_case_spec(allowlist[i], exe) && (forall|j: int|
            0 <= j < blocklist.len() ==> !#[trigger] eq_ignore_ascii_case_spec(blocklist[j], exe))
            && !never_games().contains(exe) ==> is_game_spec(
            exe,
            is_fullscreen,
            allowlist,
            blocklist,
        ),
{
    law_list_membership_is_any_entry(blocklist, exe);
    law_list_membership_is_any_entry(allowlist, exe);
}

/// The built-in non-games (browsers, the shell, this app) are never games,
/// even when allowlisted.
pub proof fn law_never_games_are_never_games(
    exe: Seq<char>,
    is_fullscreen: bool,
    allowlist: Seq<Seq<char>>,
    blocklist: Seq<Seq<char>>,
)
    requires
        never_games().contains(exe),
    ensures
        !is_game_spec(exe, is_fullscreen, allowlist, blocklist),
{
}

/// An allowlisted executable that is not blocked or a built-in non-game is a
/// game even when windowed; with no list entry, fullscreen alone decides.
pub proof fn law_allowlist_and_fullscreen(
    exe: Seq<char>,
    is_fullscreen: bool,
    allowlist: Seq<Seq<char>>,
    blocklist: Seq<Seq<char>>,
)
    requires
        !any_eq_ignore_ascii_case(blocklist, exe),
        !never_games().contains(exe),
    ensures
        any_eq_ignore_ascii_case(allowlist, exe) ==> is_game_spec(
            exe,
            is_fullscreen,
            allowlist,
            blocklist,
        ),
        !any_eq_ignore_ascii_case(allowlist, exe) ==> is_game_spec(
            exe,
            is_fullscreen,
            allowlist,
            blocklist,
        ) == is_fullscreen,
{
}

} // verus!

//! Parsing of the game-mode choice. The interactive prompts around it
//! live with the caller; the entered text is decided here.

use vstd::prelude::*;

use crate::parse::{eq_ignore_case, matches_fold, trim_of, trim_str};
use crate::types::GameMode;

verus! {

/// The mode named by the entered text, surrounding whitespace ignored
/// and ASCII case folded: several abbreviations and spellings are
/// accepted per mode; anything else names no mode.
pub open spec fn spec_parse_game_mode(value: Seq<char>) -> Option<GameMode> {
    let m = trim_of(value);
    if matches_fold(m, "p"@) || matches_fold(m, "practice"@) {
        Some(GameMode::Practice)
    } else if matches_fold(m, "2"@) || matches_fold(m, "pvp"@) || matches_fold(m, "2p"@)
        || matches_fold(m, "two"@) || matches_fold(m, "two_player"@) || matches_fold(
        m,
        "twoplayer"@,
    ) || matches_fold(m, "2-player"@) {
        Some(GameMode::TwoPlayer)
    } else if matches_fold(m, "b"@) || matches_fold(m, "pvb"@) || matches_fold(m, "vsbot"@)
        || matches_fold(m, "player_vs_bot"@) || matches_fold(m, "player-vs-bot"@) {
        Some(GameMode::PlayerVsBot)
    } else if matches_fold(m, "s"@) || matches_fold(m, "spectate"@) || matches_fold(
        m,
        "spectate_bot"@,
    ) {
        Some(GameMode::SpectateBot)
    } else {
        None
    }
}

/// Parse a game-mode word, in any of its accepted spellings.
pub fn parse_game_mode(value: &str) -> (r: Option<GameMode>)
    ensures
        r == spec_parse_game_mode(value@),
{
    let mode = trim_str(value);

    if eq_ignore_case(mode, "p") || eq_ignore_case(mode, "practice") {
        Some(GameMode::Practice)
    } else if eq_ignore_case(mode, "2") || eq_ignore_case(mode, "pvp") || eq_ignore_case(
        mode,
        "2p",
    ) || eq_ignore_case(mode, "two") || eq_ignore_case(mode, "two_player") || eq_ignore_case(
        mode,
        "twoplayer",
    ) || eq_ignore_case(mode, "2-player") {
        Some(GameMode::TwoPlayer)
    } else if eq_ignore_case(mode, "b") || eq_ignore_case(mode, "pvb") || eq_ignore_case(
        mode,
        "vsbot",
    ) || eq_ignore_case(mode, "player_vs_bot") || eq_ignore_case(mode, "player-vs-bot") {
        Some(GameMode::PlayerVsBot)
    } else if eq_ignore_case(mode, "s") || eq_ignore_case(mode, "spectate") || eq_ignore_case(
        mode,
        "spectate_bot",
    ) {
        Some(GameMode::SpectateBot)
    } else {
        None
    }
}

} // verus!

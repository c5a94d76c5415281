//! Display helpers that are pure computation: which labels name the
//! code maker and the code breaker in the round summary.

use vstd::prelude::*;

use crate::gamestate::Gamestate;
use crate::types::GameMode;

verus! {

/// The display labels `(maker, breaker)` for the current round.
/// Whoever is guessing is the breaker; in player-versus-bot mode the
/// second seat is the bot.
pub fn get_player_strings(gamestate: &Gamestate) -> (r: (&'static str, &'static str))
    ensures
        gamestate.p1s_turn ==> r.1@ == "Player 1"@,
        gamestate.p1s_turn ==> r.0@ == (if gamestate.game_mode == GameMode::PlayerVsBot {
            "BOT"@
        } else {
            "Player 2"@
        }),
        !gamestate.p1s_turn ==> r.0@ == "Player 1"@,
        !gamestate.p1s_turn ==> r.1@ == (if gamestate.game_mode == GameMode::PlayerVsBot {
            "BOT"@
        } else {
            "Player 2"@
        }),
{
    let p2_bot_string = "BOT";
    let is_p2_a_bot = gamestate.game_mode == GameMode::PlayerVsBot;

    if gamestate.p1s_turn {
        let breaker = "Player 1";
        let maker = if is_p2_a_bot {
            p2_bot_string
        } else {
            "Player 2"
        };
        (maker, breaker)
    } else {
        let breaker = if is_p2_a_bot {
            p2_bot_string
        } else {
            "Player 2"
        };
        let maker = "Player 1";
        (maker, breaker)
    }
}

} // verus!

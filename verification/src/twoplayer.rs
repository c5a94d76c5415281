//! Scorekeeping for the two-player and player-versus-bot modes: at
//! the end of a round the code maker gains the breaker's guess count,
//! plus one bonus point when the code held.

use vstd::prelude::*;

use crate::gamelogic::RoundResult;
use crate::gamestate::Gamestate;

verus! {

/// Credit the code maker: player two when player one was breaking,
/// player one otherwise.
pub fn apply_2p_score(gamestate: &mut Gamestate, score_delta: u8)
    requires
        old(gamestate).p1s_turn ==> old(gamestate).p2_score + score_delta <= u8::MAX,
        !old(gamestate).p1s_turn ==> old(gamestate).p1_score + score_delta <= u8::MAX,
    ensures
        old(gamestate).p1s_turn ==> final(gamestate).p2_score == old(gamestate).p2_score
            + score_delta && final(gamestate).p1_score == old(gamestate).p1_score,
        !old(gamestate).p1s_turn ==> final(gamestate).p1_score == old(gamestate).p1_score
            + score_delta && final(gamestate).p2_score == old(gamestate).p2_score,
        final(gamestate).game_mode == old(gamestate).game_mode,
        final(gamestate).round_length == old(gamestate).round_length,
        final(gamestate).is_empty_allowed == old(gamestate).is_empty_allowed,
        final(gamestate).pegs_in_a_line == old(gamestate).pegs_in_a_line,
        final(gamestate).target_line == old(gamestate).target_line,
        final(gamestate).guessed_lines == old(gamestate).guessed_lines,
        final(gamestate).flag_pegs == old(gamestate).flag_pegs,
        final(gamestate).current_round == old(gamestate).current_round,
        final(gamestate).p1s_turn == old(gamestate).p1s_turn,
        final(gamestate).round_status == old(gamestate).round_status,
        final(gamestate).round_over == old(gamestate).round_over,
        final(gamestate).is_bot_guessing_this_round == old(gamestate).is_bot_guessing_this_round,
{
    if gamestate.p1s_turn {
        gamestate.p2_score = gamestate.p2_score + score_delta;
    } else {
        gamestate.p1_score = gamestate.p1_score + score_delta;
    }
}

/// Settle the round for the two-player modes: the maker's score grows
/// by the round's score delta. Rendering the round summary is the
/// caller's part; `crate::prints::get_player_strings` supplies the
/// role labels for it.
pub fn two_player_end_of_round_score_and_prints(
    gamestate: &mut Gamestate,
    round_result: &RoundResult,
)
    requires
        old(gamestate).p1s_turn ==> old(gamestate).p2_score + round_result.score_delta
            <= u8::MAX,
        !old(gamestate).p1s_turn ==> old(gamestate).p1_score + round_result.score_delta
            <= u8::MAX,
    ensures
        old(gamestate).p1s_turn ==> final(gamestate).p2_score == old(gamestate).p2_score
            + round_result.score_delta && final(gamestate).p1_score == old(gamestate).p1_score,
        !old(gamestate).p1s_turn ==> final(gamestate).p1_score == old(gamestate).p1_score
            + round_result.score_delta && final(gamestate).p2_score == old(gamestate).p2_score,
        final(gamestate).game_mode == old(gamestate).game_mode,
        final(gamestate).round_length == old(gamestate).round_length,
        final(gamestate).is_empty_allowed == old(gamestate).is_empty_allowed,
        final(gamestate).pegs_in_a_line == old(gamestate).pegs_in_a_line,
        final(gamestate).target_line == old(gamestate).target_line,
        final(gamestate).guessed_lines == old(gamestate).guessed_lines,
        final(gamestate).flag_pegs == old(gamestate).flag_pegs,
        final(gamestate).current_round == old(gamestate).current_round,
        final(gamestate).p1s_turn == old(gamestate).p1s_turn,
        final(gamestate).round_status == old(gamestate).round_status,
        final(gamestate).round_over == old(gamestate).round_over,
        final(gamestate).is_bot_guessing_this_round == old(gamestate).is_bot_guessing_this_round,
{
    apply_2p_score(gamestate, round_result.score_delta);
}

} // verus!

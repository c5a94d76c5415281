//! Building the initial session state: a fresh board from a
//! configuration, or the restored state of a saved session, together
//! with a solver where the chosen mode needs one.

use vstd::prelude::*;

use crate::bot::{alphabet_size_of, candidate_space, Bot};
use crate::gameconfig::GameConfig;
use crate::gamestate::{Gamestate, RoundStatus};
use crate::types::{GameMode, Line};
use crate::usersetup::StartupAction;

verus! {

/// Whether the given mode plays with a solver.
pub open spec fn mode_needs_bot(mode: GameMode) -> bool {
    mode == GameMode::SpectateBot || mode == GameMode::PlayerVsBot
}

/// The session state and, for the modes that need one, a fresh
/// solver. A restored session is taken as it is; a new one starts
/// with an empty board.
pub fn handle_startup(action: StartupAction) -> (r: (Gamestate, Option<Bot>))
    requires
        action matches StartupAction::NewGame(cfg) ==> cfg.pegs_in_a_line >= 1,
        action matches StartupAction::LoadGame(gs) ==> (mode_needs_bot(gs.game_mode) ==> 1
            <= gs.pegs_in_a_line <= 255),
    ensures
        action matches StartupAction::LoadGame(gs) ==> r.0 == gs,
        action matches StartupAction::NewGame(cfg) ==> {
            &&& r.0.game_mode == cfg.game_mode
            &&& r.0.round_length == cfg.number_of_guesses
            &&& r.0.pegs_in_a_line == cfg.pegs_in_a_line as usize
            &&& r.0.is_empty_allowed == cfg.is_empty_pegs_allowed
            &&& r.0.guessed_lines@.len() == 0
            &&& r.0.current_round == 1
        },
        r.1 is Some <==> mode_needs_bot(r.0.game_mode),
        r.1 matches Some(bot) ==> {
            &&& bot.wf()
            &&& bot.no_of_pegs == r.0.pegs_in_a_line
            &&& bot.alphabet_size() == alphabet_size_of(r.0.is_empty_allowed)
            &&& bot.solutions() == candidate_space(
                alphabet_size_of(r.0.is_empty_allowed),
                r.0.pegs_in_a_line as int,
            )
            &&& bot.is_first_guess
        },
{
    match action {
        StartupAction::LoadGame(gs) => {
            let bot = init_bot(&gs);
            (gs, bot)
        },
        StartupAction::NewGame(cfg) => {
            let gs = init_gamestate(&cfg);
            let bot = init_bot(&gs);
            (gs, bot)
        },
    }
}

/// A fresh session from a configuration: empty board, round one.
pub fn init_gamestate(cfg: &GameConfig) -> (gs: Gamestate)
    ensures
        gs.game_mode == cfg.game_mode,
        gs.round_length == cfg.number_of_guesses,
        gs.is_empty_allowed == cfg.is_empty_pegs_allowed,
        gs.pegs_in_a_line == cfg.pegs_in_a_line as usize,
        gs.target_line@.len() == cfg.pegs_in_a_line as usize,
        gs.guessed_lines@.len() == 0,
        gs.flag_pegs@.len() == 0,
        gs.p1_score == 0,
        gs.p2_score == 0,
        gs.current_round == 1,
        gs.p1s_turn,
        gs.round_status == RoundStatus::Ongoing,
        !gs.round_over,
        !gs.is_bot_guessing_this_round,
{
    let no_of_pegs = cfg.pegs_in_a_line as usize;

    Gamestate::new(
        cfg.game_mode,
        cfg.number_of_guesses,
        no_of_pegs,
        Line::empty(no_of_pegs),
        cfg.is_empty_pegs_allowed,
    )
}

/// A fresh solver for the session, in the modes where the bot plays.
pub fn init_bot(gamestate: &Gamestate) -> (r: Option<Bot>)
    requires
        mode_needs_bot(gamestate.game_mode) ==> 1 <= gamestate.pegs_in_a_line <= 255,
    ensures
        r is Some <==> mode_needs_bot(gamestate.game_mode),
        r matches Some(bot) ==> {
            &&& bot.wf()
            &&& bot.no_of_pegs == gamestate.pegs_in_a_line
            &&& bot.alphabet_size() == alphabet_size_of(gamestate.is_empty_allowed)
            &&& bot.solutions() == candidate_space(
                alphabet_size_of(gamestate.is_empty_allowed),
                gamestate.pegs_in_a_line as int,
            )
            &&& bot.is_first_guess
        },
{
    let needs_bot = gamestate.game_mode == GameMode::SpectateBot || gamestate.game_mode
        == GameMode::PlayerVsBot;
    if needs_bot {
        Some(Bot::new(gamestate.is_empty_allowed, gamestate.pegs_in_a_line))
    } else {
        None
    }
}

} // verus!

//! The state of a play session: parameters of the current round, the
//! target line, the guesses made so far with their flag lines, the two
//! players' scores, and the round status.

use vstd::prelude::*;

use crate::bot::alphabet_size_of;
use crate::types::{color_index, contains_line, lines_views, num_to_color, GameMode, Line};

verus! {

/// Whether the current round is still open, solved, or lost.
#[derive(PartialEq, Eq, Structural, Clone, Copy, Debug)]
pub enum RoundStatus {
    Ongoing,
    Win,
    Loss,
}

/// All session state: the chosen mode and round parameters, and the
/// per-round board with the running scores.
pub struct Gamestate {
    pub game_mode: GameMode,
    pub round_length: u8,
    pub is_empty_allowed: bool,
    pub pegs_in_a_line: usize,
    pub target_line: Line,
    pub guessed_lines: Vec<Line>,
    pub flag_pegs: Vec<Line>,
    pub p1_score: u8,
    pub p2_score: u8,
    pub current_round: u8,
    pub p1s_turn: bool,
    pub round_status: RoundStatus,
    pub round_over: bool,
    pub is_bot_guessing_this_round: bool,
}

impl Gamestate {
    /// The round is won when some guessed line matches the target.
    pub open spec fn spec_win(self) -> bool {
        lines_views(self.guessed_lines@).contains(self.target_line@)
    }

    /// The round is lost when the guess budget is used up.
    pub open spec fn spec_loss(self) -> bool {
        self.guessed_lines@.len() >= self.round_length as int
    }

    /// The status the board currently shows: a win takes precedence
    /// over a loss, and otherwise the round is ongoing.
    pub open spec fn spec_round_status(self) -> RoundStatus {
        if self.spec_win() {
            RoundStatus::Win
        } else if self.spec_loss() {
            RoundStatus::Loss
        } else {
            RoundStatus::Ongoing
        }
    }

    /// A fresh session with the given parameters, an empty board and
    /// zeroed scores, starting at round one with player one guessing.
    pub fn new(
        game_mode: GameMode,
        number_of_guesses: u8,
        pegs_in_a_line: usize,
        target_line: Line,
        is_empty_allowed: bool,
    ) -> (gs: Gamestate)
        ensures
            gs.game_mode == game_mode,
            gs.round_length == number_of_guesses,
            gs.is_empty_allowed == is_empty_allowed,
            gs.pegs_in_a_line == pegs_in_a_line,
            gs.target_line == target_line,
            gs.guessed_lines@.len() == 0,
            gs.flag_pegs@.len() == 0,
            gs.p1_score == 0,
            gs.p2_score == 0,
            gs.current_round == 1,
            gs.p1s_turn,
            gs.round_status == RoundStatus::Ongoing,
            !gs.round_over,
            !gs.is_bot_guessing_this_round,
    {
        Gamestate {
            game_mode,
            round_length: number_of_guesses,
            is_empty_allowed,
            pegs_in_a_line,
            target_line,
            guessed_lines: Vec::new(),
            flag_pegs: Vec::new(),
            p1_score: 0,
            p2_score: 0,
            current_round: 1,
            p1s_turn: true,
            round_status: RoundStatus::Ongoing,
            round_over: false,
            is_bot_guessing_this_round: false,
        }
    }

    /// Whether some guessed line matches the target.
    pub fn check_for_win(&self) -> (r: bool)
        ensures
            r == self.spec_win(),
    {
        contains_line(&self.guessed_lines, &self.target_line)
    }

    /// Whether the guess budget is used up.
    pub fn check_for_loss(&self) -> (r: bool)
        ensures
            r == self.spec_loss(),
    {
        self.guessed_lines.len() >= self.round_length as usize
    }

    /// Reopen the round bookkeeping; the board itself is untouched.
    pub fn reset_round_statuses(&mut self)
        ensures
            final(self).round_status == RoundStatus::Ongoing,
            !final(self).round_over,
            final(self).game_mode == old(self).game_mode,
            final(self).round_length == old(self).round_length,
            final(self).is_empty_allowed == old(self).is_empty_allowed,
            final(self).pegs_in_a_line == old(self).pegs_in_a_line,
            final(self).target_line == old(self).target_line,
            final(self).guessed_lines == old(self).guessed_lines,
            final(self).flag_pegs == old(self).flag_pegs,
            final(self).p1_score == old(self).p1_score,
            final(self).p2_score == old(self).p2_score,
            final(self).current_round == old(self).current_round,
            final(self).p1s_turn == old(self).p1s_turn,
            final(self).is_bot_guessing_this_round == old(self).is_bot_guessing_this_round,
    {
        self.round_status = RoundStatus::Ongoing;
        self.round_over = false;
    }

    /// Clear the board for the next round, advance the round counter,
    /// and swap which player is the code breaker.
    pub fn prepare_next_round(&mut self)
        requires
            old(self).current_round < u8::MAX,
        ensures
            final(self).guessed_lines@.len() == 0,
            final(self).flag_pegs@.len() == 0,
            final(self).current_round == old(self).current_round + 1,
            final(self).p1s_turn == !old(self).p1s_turn,
            final(self).game_mode == old(self).game_mode,
            final(self).round_length == old(self).round_length,
            final(self).is_empty_allowed == old(self).is_empty_allowed,
            final(self).pegs_in_a_line == old(self).pegs_in_a_line,
            final(self).target_line == old(self).target_line,
            final(self).p1_score == old(self).p1_score,
            final(self).p2_score == old(self).p2_score,
            final(self).round_status == old(self).round_status,
            final(self).round_over == old(self).round_over,
            final(self).is_bot_guessing_this_round == old(self).is_bot_guessing_this_round,
    {
        self.guessed_lines.clear();
        self.flag_pegs.clear();
        self.current_round = self.current_round + 1;
        self.p1s_turn = !self.p1s_turn;
    }

    /// In spectate mode the bot always guesses; against the bot it
    /// guesses whenever player one is the code maker; otherwise a
    /// human guesses.
    pub fn is_it_bots_turn_to_guess(&self) -> (r: bool)
        ensures
            r == (self.game_mode == GameMode::SpectateBot || (self.game_mode
                == GameMode::PlayerVsBot && !self.p1s_turn)),
    {
        match self.game_mode {
            GameMode::TwoPlayer => false,
            GameMode::PlayerVsBot => !self.p1s_turn,
            GameMode::Practice => false,
            GameMode::SpectateBot => true,
        }
    }

    /// Store the current status on the state.
    pub fn update_round_status(&mut self)
        ensures
            final(self).round_status == old(self).spec_round_status(),
            final(self).game_mode == old(self).game_mode,
            final(self).round_length == old(self).round_length,
            final(self).is_empty_allowed == old(self).is_empty_allowed,
            final(self).pegs_in_a_line == old(self).pegs_in_a_line,
            final(self).target_line == old(self).target_line,
            final(self).guessed_lines == old(self).guessed_lines,
            final(self).flag_pegs == old(self).flag_pegs,
            final(self).p1_score == old(self).p1_score,
            final(self).p2_score == old(self).p2_score,
            final(self).current_round == old(self).current_round,
            final(self).p1s_turn == old(self).p1s_turn,
            final(self).round_over == old(self).round_over,
            final(self).is_bot_guessing_this_round == old(self).is_bot_guessing_this_round,
    {
        self.round_status = self.get_round_status();
    }

    /// The status the board currently shows.
    pub fn get_round_status(&self) -> (r: RoundStatus)
        ensures
            r == self.spec_round_status(),
    {
        if self.check_for_win() {
            RoundStatus::Win
        } else if self.check_for_loss() {
            RoundStatus::Loss
        } else {
            RoundStatus::Ongoing
        }
    }

    /// Draw a target line uniformly at random over the usable
    /// alphabet: every position gets one of the six real colors, or
    /// one of all seven when empty pegs are allowed.
    pub fn randomize_target_line(&self) -> (l: Line)
        ensures
            l@.len() == self.pegs_in_a_line,
            forall|i: int|
                0 <= i < l@.len() ==> color_index(#[trigger] l@[i]) < alphabet_size_of(
                    self.is_empty_allowed,
                ),
    {
        let limit: usize = if self.is_empty_allowed {
            7
        } else {
            6
        };
        let mut colors: Vec<crate::types::Color> = Vec::new();
        let mut i: usize = 0;
        while i < self.pegs_in_a_line
            invariant
                i <= self.pegs_in_a_line,
                colors@.len() == i,
                limit == alphabet_size_of(self.is_empty_allowed),
                forall|j: int| 0 <= j < i ==> color_index(#[trigger] colors@[j]) < limit,
            decreases self.pegs_in_a_line - i,
        {
            let pick = crate::bot::random_below(limit);
            let color = num_to_color(pick as u8);
            colors.push(color);
            i = i + 1;
        }
        Line::new(colors)
    }
}

} // verus!

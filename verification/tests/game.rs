use mastermind::gameconfig::GameConfig;
use mastermind::gamelogic::{
    calculate_round_result, handle_end_of_round, who_picks_target, LoopAction, TargetProvider,
};
use mastermind::gamestate::{Gamestate, RoundStatus};
use mastermind::prints::get_player_strings;
use mastermind::startup::{handle_startup, init_bot, init_gamestate};
use mastermind::twoplayer::two_player_end_of_round_score_and_prints;
use mastermind::types::{Color, Feedback, GameMode, Line, Peg};
use mastermind::usersetup::StartupAction;

fn line(colors: &[Color]) -> Line {
    Line::new(colors.to_vec())
}

fn fresh_state(mode: GameMode) -> Gamestate {
    Gamestate::new(mode, 10, 2, line(&[Color::Red, Color::Green]), false)
}

#[test]
fn new_state_starts_at_round_one() {
    let gs = fresh_state(GameMode::Practice);
    assert_eq!(gs.round_length, 10);
    assert_eq!(gs.pegs_in_a_line, 2);
    assert_eq!(gs.current_round, 1);
    assert!(gs.p1s_turn);
    assert!(!gs.round_over);
    assert!(gs.guessed_lines.is_empty());
    assert!(matches!(gs.round_status, RoundStatus::Ongoing));
}

#[test]
fn win_is_detected_when_a_guess_hits_the_target() {
    let mut gs = fresh_state(GameMode::Practice);
    assert!(!gs.check_for_win());
    gs.guessed_lines.push(line(&[Color::Red, Color::Blue]));
    assert!(!gs.check_for_win());
    gs.guessed_lines.push(line(&[Color::Red, Color::Green]));
    assert!(gs.check_for_win());
    gs.update_round_status();
    assert!(matches!(gs.round_status, RoundStatus::Win));
}

#[test]
fn loss_is_detected_when_the_budget_is_exhausted() {
    let mut gs = fresh_state(GameMode::Practice);
    gs.round_length = 2;
    gs.guessed_lines.push(line(&[Color::Red, Color::Blue]));
    assert!(!gs.check_for_loss());
    gs.guessed_lines.push(line(&[Color::Blue, Color::Blue]));
    assert!(gs.check_for_loss());
    assert!(matches!(gs.get_round_status(), RoundStatus::Loss));
}

#[test]
fn preparing_the_next_round_clears_the_board_and_swaps_turns() {
    let mut gs = fresh_state(GameMode::TwoPlayer);
    gs.guessed_lines.push(line(&[Color::Red, Color::Red]));
    gs.flag_pegs.push(line(&[Color::Black, Color::Empty]));
    gs.prepare_next_round();
    assert!(gs.guessed_lines.is_empty());
    assert!(gs.flag_pegs.is_empty());
    assert_eq!(gs.current_round, 2);
    assert!(!gs.p1s_turn);
}

#[test]
fn reset_round_statuses_reopens_the_round() {
    let mut gs = fresh_state(GameMode::Practice);
    gs.round_status = RoundStatus::Win;
    gs.round_over = true;
    gs.reset_round_statuses();
    assert!(matches!(gs.round_status, RoundStatus::Ongoing));
    assert!(!gs.round_over);
}

#[test]
fn bot_turn_rules_by_mode() {
    let mut gs = fresh_state(GameMode::TwoPlayer);
    assert!(!gs.is_it_bots_turn_to_guess());
    gs.game_mode = GameMode::Practice;
    assert!(!gs.is_it_bots_turn_to_guess());
    gs.game_mode = GameMode::SpectateBot;
    assert!(gs.is_it_bots_turn_to_guess());
    gs.game_mode = GameMode::PlayerVsBot;
    assert!(!gs.is_it_bots_turn_to_guess());
    gs.p1s_turn = false;
    assert!(gs.is_it_bots_turn_to_guess());
}

#[test]
fn random_target_respects_the_alphabet() {
    let mut gs = fresh_state(GameMode::Practice);
    gs.pegs_in_a_line = 6;
    for _ in 0..20 {
        let t = gs.randomize_target_line();
        assert_eq!(t.pegs.len(), 6);
        assert!(t.pegs.iter().all(|p: &Peg| p.color != Color::Empty));
    }
}

#[test]
fn round_result_scores_a_loss_with_a_bonus() {
    let mut gs = fresh_state(GameMode::TwoPlayer);
    gs.guessed_lines.push(line(&[Color::Red, Color::Blue]));
    gs.guessed_lines.push(line(&[Color::Blue, Color::Blue]));
    let r = calculate_round_result(&gs);
    assert_eq!(r.guesses_used, 2);
    assert!(!r.is_win);
    assert_eq!(r.bonus, 1);
    assert_eq!(r.score_delta, 3);
}

#[test]
fn round_result_scores_a_win_without_bonus() {
    let mut gs = fresh_state(GameMode::TwoPlayer);
    gs.guessed_lines.push(line(&[Color::Red, Color::Green]));
    let r = calculate_round_result(&gs);
    assert_eq!(r.guesses_used, 1);
    assert!(r.is_win);
    assert_eq!(r.bonus, 0);
    assert_eq!(r.score_delta, 1);
}

#[test]
fn the_code_maker_gains_the_score_delta() {
    let mut gs = fresh_state(GameMode::TwoPlayer);
    gs.guessed_lines.push(line(&[Color::Red, Color::Blue]));
    gs.guessed_lines.push(line(&[Color::Blue, Color::Blue]));
    let r = calculate_round_result(&gs);
    // Player one is breaking, so player two (the maker) scores.
    two_player_end_of_round_score_and_prints(&mut gs, &r);
    assert_eq!(gs.p1_score, 0);
    assert_eq!(gs.p2_score, 3);

    gs.p1s_turn = false;
    two_player_end_of_round_score_and_prints(&mut gs, &r);
    assert_eq!(gs.p1_score, 3);
    assert_eq!(gs.p2_score, 3);
}

#[test]
fn end_of_round_stops_or_advances() {
    let mut gs = fresh_state(GameMode::Practice);
    let action = handle_end_of_round(&mut gs, false);
    assert!(matches!(action, LoopAction::Break));
    assert_eq!(gs.current_round, 1);

    let action = handle_end_of_round(&mut gs, true);
    assert!(matches!(action, LoopAction::Continue));
    assert_eq!(gs.current_round, 2);
    assert!(!gs.p1s_turn);
}

#[test]
fn target_provider_by_mode_and_turn() {
    let mut gs = fresh_state(GameMode::TwoPlayer);
    assert_eq!(who_picks_target(&gs), TargetProvider::Human);
    gs.game_mode = GameMode::Practice;
    assert_eq!(who_picks_target(&gs), TargetProvider::Bot);
    gs.game_mode = GameMode::SpectateBot;
    assert_eq!(who_picks_target(&gs), TargetProvider::Bot);
    gs.game_mode = GameMode::PlayerVsBot;
    assert_eq!(who_picks_target(&gs), TargetProvider::Bot);
    gs.p1s_turn = false;
    assert_eq!(who_picks_target(&gs), TargetProvider::Human);
}

#[test]
fn player_labels_follow_mode_and_turn() {
    let mut gs = fresh_state(GameMode::TwoPlayer);
    assert_eq!(get_player_strings(&gs), ("Player 2", "Player 1"));
    gs.p1s_turn = false;
    assert_eq!(get_player_strings(&gs), ("Player 1", "Player 2"));
    gs.game_mode = GameMode::PlayerVsBot;
    assert_eq!(get_player_strings(&gs), ("Player 1", "BOT"));
    gs.p1s_turn = true;
    assert_eq!(get_player_strings(&gs), ("BOT", "Player 1"));
}

#[test]
fn startup_builds_a_bot_only_for_bot_modes() {
    let cfg = GameConfig {
        game_mode: GameMode::Practice,
        number_of_guesses: 10,
        pegs_in_a_line: 2,
        is_empty_pegs_allowed: false,
    };
    let (gs, bot) = handle_startup(StartupAction::NewGame(cfg));
    assert_eq!(gs.pegs_in_a_line, 2);
    assert!(bot.is_none());

    let cfg = GameConfig { game_mode: GameMode::SpectateBot, ..cfg };
    let (gs, bot) = handle_startup(StartupAction::NewGame(cfg));
    assert_eq!(gs.round_length, 10);
    let bot = bot.expect("spectate mode plays with a bot");
    assert_eq!(bot.no_of_pegs, 2);
    assert_eq!(bot.possible_solutions.len(), 36);
}

#[test]
fn startup_from_a_restored_session_keeps_the_state() {
    let mut gs = fresh_state(GameMode::PlayerVsBot);
    gs.p1_score = 5;
    gs.current_round = 3;
    let (restored, bot) = handle_startup(StartupAction::LoadGame(gs));
    assert_eq!(restored.p1_score, 5);
    assert_eq!(restored.current_round, 3);
    assert!(bot.is_some());
}

#[test]
fn init_helpers_mirror_the_config() {
    let cfg = GameConfig {
        game_mode: GameMode::PlayerVsBot,
        number_of_guesses: 8,
        pegs_in_a_line: 3,
        is_empty_pegs_allowed: true,
    };
    let gs = init_gamestate(&cfg);
    assert_eq!(gs.round_length, 8);
    assert_eq!(gs.pegs_in_a_line, 3);
    assert!(gs.is_empty_allowed);
    assert_eq!(gs.target_line.pegs.len(), 3);
    let bot = init_bot(&gs).expect("player-versus-bot plays with a bot");
    assert_eq!(bot.possible_solutions.len(), 343);
}

#[test]
fn feedback_empty_and_type_constructors() {
    assert_eq!(Feedback::empty(), Feedback { correct_position: 0, correct_color: 0 });
    assert_eq!(Peg::new().color, Color::Empty);
    let l = Line::empty(3);
    assert_eq!(l.pegs.len(), 3);
    assert!(l.pegs.iter().all(|p| p.color == Color::Empty));
    let all = Color::all_colors();
    assert_eq!(all.len(), 7);
    assert_eq!(all[0], Color::Empty);
    assert_eq!(all[6], Color::Yellow);
}

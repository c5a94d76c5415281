use std::collections::HashSet;

use mastermind::bot::{checked_space_size, Bot};
use mastermind::gamelogic::check_for_matches;
use mastermind::types::{Color, Line};

fn line(colors: &[Color]) -> Line {
    Line::new(colors.to_vec())
}

fn colors_of(l: &Line) -> Vec<Color> {
    l.pegs.iter().map(|p| p.color).collect()
}

const REAL: [Color; 6] = [
    Color::White,
    Color::Black,
    Color::Red,
    Color::Green,
    Color::Blue,
    Color::Yellow,
];

#[test]
fn candidate_space_has_k_to_the_n_distinct_lines() {
    // k = 6, n = 2: exactly 36 lines, no duplicates, no missing pair.
    let bot = Bot::new(false, 2);
    assert_eq!(bot.possible_solutions.len(), 36);
    let seen: HashSet<Vec<Color>> = bot.possible_solutions.iter().map(colors_of).collect();
    assert_eq!(seen.len(), 36);
    for a in REAL {
        for b in REAL {
            assert!(seen.contains(&vec![a, b]));
        }
    }
}

#[test]
fn candidate_space_with_empty_pegs_allowed() {
    // k = 7, n = 2: 49 lines, the empty sentinel among the colors.
    let bot = Bot::new(true, 2);
    assert_eq!(bot.possible_solutions.len(), 49);
    let seen: HashSet<Vec<Color>> = bot.possible_solutions.iter().map(colors_of).collect();
    assert_eq!(seen.len(), 49);
    assert!(seen.contains(&vec![Color::Empty, Color::Empty]));
}

#[test]
fn candidate_space_of_width_one() {
    let bot = Bot::new(false, 1);
    assert_eq!(bot.possible_solutions.len(), 6);
}

#[test]
fn try_new_rejects_invalid_widths() {
    assert!(Bot::try_new(false, 0).is_none());
    assert!(Bot::try_new(false, 256).is_none());
    assert!(Bot::try_new(false, 4).is_some());
}

#[test]
fn space_size_estimates() {
    assert_eq!(checked_space_size(false, 4), Some(1296));
    assert_eq!(checked_space_size(true, 4), Some(2401));
    assert_eq!(checked_space_size(false, 0), Some(1));
    // 7^23 exceeds u64::MAX.
    assert_eq!(checked_space_size(true, 23), None);
}

#[test]
fn pruning_is_monotone_and_keeps_only_consistent_lines() {
    let mut bot = Bot::new(false, 2);
    let target = line(&[Color::Red, Color::Green]);
    let guess = line(&[Color::Red, Color::Blue]);
    let (_, fb) = check_for_matches(&target, &guess);

    bot.is_first_guess = false;
    bot.record_feedback(guess.clone(), fb);
    let before = bot.possible_solutions.len();
    bot.prune_non_viable_solutions();
    let after = bot.possible_solutions.len();
    assert!(after <= before);
    assert!(after > 0);

    // The true target survives, and every survivor reproduces the feedback.
    let survivors: Vec<Vec<Color>> = bot.possible_solutions.iter().map(colors_of).collect();
    assert!(survivors.contains(&colors_of(&target)));
    for s in &bot.possible_solutions {
        let (_, simulated) = check_for_matches(s, &guess);
        assert_eq!(simulated, fb);
    }
}

#[test]
fn pruning_twice_with_the_same_pair_changes_nothing() {
    let mut bot = Bot::new(false, 2);
    let target = line(&[Color::Yellow, Color::Yellow]);
    let guess = line(&[Color::Yellow, Color::Blue]);
    let (_, fb) = check_for_matches(&target, &guess);

    bot.is_first_guess = false;
    bot.record_feedback(guess, fb);
    bot.prune_non_viable_solutions();
    let once: Vec<Vec<Color>> = bot.possible_solutions.iter().map(colors_of).collect();
    bot.prune_non_viable_solutions();
    let twice: Vec<Vec<Color>> = bot.possible_solutions.iter().map(colors_of).collect();
    assert_eq!(once, twice);
}

#[test]
fn pruning_is_skipped_before_the_first_guess() {
    let mut bot = Bot::new(false, 2);
    let before = bot.possible_solutions.len();
    bot.prune_non_viable_solutions();
    assert_eq!(bot.possible_solutions.len(), before);
}

#[test]
fn first_guess_is_a_two_color_probe() {
    let mut bot = Bot::new(false, 4);
    assert!(bot.is_first_guess);
    let guess = bot.make_educated_guess();
    assert!(!bot.is_first_guess);
    let c = colors_of(&guess);
    assert_eq!(c.len(), 4);
    // First half one color, second half another, and the two differ.
    assert_eq!(c[0], c[1]);
    assert_eq!(c[2], c[3]);
    assert_ne!(c[0], c[2]);
    // Without empty pegs the probe draws real colors only.
    assert!(c.iter().all(|x| *x != Color::Empty));
    // The guess is recorded in the history.
    assert_eq!(colors_of(&bot.guessed_lines[0]), c);
}

#[test]
fn first_guess_of_odd_width_rounds_the_first_color_up() {
    let mut bot = Bot::new(false, 5);
    let guess = bot.make_educated_guess();
    let c = colors_of(&guess);
    assert_eq!(c.len(), 5);
    assert_eq!(c[0], c[1]);
    assert_eq!(c[1], c[2]);
    assert_eq!(c[3], c[4]);
    assert_ne!(c[0], c[3]);
}

#[test]
fn selector_never_repeats_a_guess_while_novel_candidates_remain() {
    let mut bot = Bot::new(false, 2);
    bot.is_first_guess = false;
    let mut issued: HashSet<Vec<Color>> = HashSet::new();
    // 36 candidates; without pruning, each turn must issue a fresh one.
    for _ in 0..10 {
        let guess = bot.make_educated_guess();
        assert!(issued.insert(colors_of(&guess)));
    }
}

#[test]
fn selector_returns_the_single_remaining_candidate() {
    let mut bot = Bot::new(false, 2);
    bot.is_first_guess = false;
    let only = line(&[Color::Blue, Color::Yellow]);
    bot.possible_solutions = vec![only.clone()];
    let guess = bot.make_educated_guess();
    assert_eq!(colors_of(&guess), colors_of(&only));
}

#[test]
fn selector_falls_back_to_a_used_candidate_when_no_novel_one_remains() {
    let mut bot = Bot::new(false, 2);
    bot.is_first_guess = false;
    let only = line(&[Color::Red, Color::Red]);
    bot.possible_solutions = vec![only.clone()];
    bot.guessed_lines = vec![only.clone()];
    let guess = bot.make_educated_guess();
    assert_eq!(colors_of(&guess), colors_of(&only));
}

#[test]
fn solver_converges_on_a_hidden_target() {
    // A full round: the solver must find the target well within the space.
    let target = line(&[Color::Green, Color::Blue, Color::Red, Color::Green]);
    let mut bot = Bot::new(false, 4);
    let mut found = false;
    for _turn in 0..8 {
        bot.prune_non_viable_solutions();
        assert!(!bot.possible_solutions.is_empty());
        let guess = bot.make_educated_guess();
        let (_, fb) = check_for_matches(&target, &guess);
        if fb.correct_position == 4 {
            found = true;
            break;
        }
        bot.record_feedback(guess, fb);
    }
    assert!(found);
}

#[test]
fn reset_restores_the_full_space_and_clears_the_round() {
    let mut bot = Bot::new(false, 2);
    bot.is_first_guess = false;
    let guess = line(&[Color::White, Color::Black]);
    let target = line(&[Color::White, Color::White]);
    let (_, fb) = check_for_matches(&target, &guess);
    bot.record_feedback(guess, fb);
    bot.prune_non_viable_solutions();
    assert!(bot.possible_solutions.len() < 36);

    bot.reset_possible_solutions(false, 3);
    assert_eq!(bot.possible_solutions.len(), 216);
    assert_eq!(bot.no_of_pegs, 3);
    assert!(bot.is_first_guess);
    assert!(bot.guessed_lines.is_empty());
    assert_eq!(bot.current_feedback.correct_position, 0);
    assert_eq!(bot.current_feedback.correct_color, 0);
}

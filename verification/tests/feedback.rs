use mastermind::gamelogic::check_for_matches;
use mastermind::types::{Color, Feedback, Line};

fn line(colors: &[Color]) -> Line {
    Line::new(colors.to_vec())
}

fn colors_of(l: &Line) -> Vec<Color> {
    l.pegs.iter().map(|p| p.color).collect()
}

#[test]
fn exact_match_of_a_line_with_itself() {
    let a = line(&[Color::Red, Color::Green, Color::Blue, Color::Red]);
    let (_, fb) = check_for_matches(&a, &a);
    assert_eq!(fb, Feedback { correct_position: 4, correct_color: 0 });
}

#[test]
fn feedback_counts_never_exceed_length() {
    let lines = [
        line(&[Color::Red, Color::Red, Color::Green, Color::Blue]),
        line(&[Color::Blue, Color::Blue, Color::Blue, Color::Blue]),
        line(&[Color::White, Color::Black, Color::Yellow, Color::Green]),
        line(&[Color::Green, Color::Red, Color::Red, Color::Red]),
    ];
    for t in &lines {
        for g in &lines {
            let (_, fb) = check_for_matches(t, g);
            assert!(fb.correct_position as usize + fb.correct_color as usize <= 4);
        }
    }
}

#[test]
fn exact_count_is_positional_even_with_repeats() {
    // Three positions agree; the repeated color must not inflate the count.
    let t = line(&[Color::Red, Color::Red, Color::Red, Color::Green]);
    let g = line(&[Color::Red, Color::Red, Color::Red, Color::Blue]);
    let (_, fb) = check_for_matches(&t, &g);
    assert_eq!(fb.correct_position, 3);
    assert_eq!(fb.correct_color, 0);
}

#[test]
fn repeated_guess_color_is_credited_once_per_target_occurrence() {
    // Target holds one Black; a guess with two Blacks earns one color credit.
    let t = line(&[Color::White, Color::Black, Color::Red, Color::Green]);
    let g = line(&[Color::Black, Color::Black, Color::Green, Color::Red]);
    let (_, fb) = check_for_matches(&t, &g);
    // Position 1 matches exactly; Green and Red are displaced; the extra
    // Black at position 0 finds no unconsumed Black left.
    assert_eq!(fb, Feedback { correct_position: 1, correct_color: 2 });
}

#[test]
fn two_pass_order_on_the_classic_probe() {
    // Target ABCD, guess AABB in the six-letter alphabet
    // (A=White, B=Black, C=Red, D=Green).
    let t = line(&[Color::White, Color::Black, Color::Red, Color::Green]);
    let g = line(&[Color::White, Color::White, Color::Black, Color::Black]);
    let (_, fb) = check_for_matches(&t, &g);
    // Position 0 is exact. The second A finds the only target A already
    // consumed by that exact match. The first B consumes the target's one
    // B; the second B finds none left.
    assert_eq!(fb, Feedback { correct_position: 1, correct_color: 1 });

    // Re-running the same comparison reproduces identical feedback.
    let (_, again) = check_for_matches(&t, &g);
    assert_eq!(fb, again);
}

#[test]
fn flag_line_shows_black_then_white_then_empty() {
    let t = line(&[Color::White, Color::Black, Color::Red, Color::Green]);
    let g = line(&[Color::White, Color::Red, Color::Yellow, Color::Yellow]);
    let (flags, fb) = check_for_matches(&t, &g);
    assert_eq!(fb, Feedback { correct_position: 1, correct_color: 1 });
    assert_eq!(
        colors_of(&flags),
        vec![Color::Black, Color::White, Color::Empty, Color::Empty]
    );
}

#[test]
fn zero_feedback_when_nothing_matches() {
    let t = line(&[Color::White, Color::White, Color::White]);
    let g = line(&[Color::Black, Color::Black, Color::Black]);
    let (flags, fb) = check_for_matches(&t, &g);
    assert_eq!(fb, Feedback { correct_position: 0, correct_color: 0 });
    assert_eq!(
        colors_of(&flags),
        vec![Color::Empty, Color::Empty, Color::Empty]
    );
}

#[test]
fn empty_lines_give_empty_feedback() {
    let t = line(&[]);
    let g = line(&[]);
    let (flags, fb) = check_for_matches(&t, &g);
    assert_eq!(fb, Feedback::empty());
    assert_eq!(flags.pegs.len(), 0);
}

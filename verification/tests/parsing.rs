use mastermind::gameconfig::{parse_bool, GameConfig};
use mastermind::manualconfig::parse_game_mode;
use mastermind::parse::{parse_guess, parse_line_tokens, parse_u8_str, trim_str};
use mastermind::types::{Color, GameMode};

fn tokens(words: &[&str]) -> Vec<String> {
    words.iter().map(|w| w.to_string()).collect()
}

#[test]
fn color_words_and_letters_parse_in_any_case() {
    assert_eq!(parse_guess("white"), Color::White);
    assert_eq!(parse_guess("W"), Color::White);
    assert_eq!(parse_guess("Black"), Color::Black);
    assert_eq!(parse_guess("r"), Color::Red);
    assert_eq!(parse_guess("GREEN"), Color::Green);
    assert_eq!(parse_guess("u"), Color::Blue);
    assert_eq!(parse_guess("Blue"), Color::Blue);
    assert_eq!(parse_guess("yellow"), Color::Yellow);
    assert_eq!(parse_guess("empty"), Color::Empty);
    assert_eq!(parse_guess("e"), Color::Empty);
    assert_eq!(parse_guess("turquoise"), Color::Empty);
    assert_eq!(parse_guess(""), Color::Empty);
}

#[test]
fn line_tokens_build_a_line_when_all_are_valid() {
    let l = parse_line_tokens(&tokens(&["red", "g", "Blue", "YELLOW"]), 4, false)
        .expect("four valid colors");
    let colors: Vec<Color> = l.pegs.iter().map(|p| p.color).collect();
    assert_eq!(colors, vec![Color::Red, Color::Green, Color::Blue, Color::Yellow]);
}

#[test]
fn line_tokens_reject_wrong_counts_and_bad_words() {
    assert!(parse_line_tokens(&tokens(&["red", "green"]), 3, false).is_none());
    assert!(parse_line_tokens(&tokens(&["red", "green", "mauve"]), 3, false).is_none());
}

#[test]
fn empty_peg_entry_needs_the_full_word_and_the_ruleset() {
    // The word `empty` is accepted only when the ruleset allows it.
    assert!(parse_line_tokens(&tokens(&["empty", "red"]), 2, false).is_none());
    let l = parse_line_tokens(&tokens(&["Empty", "red"]), 2, true).expect("empty peg allowed");
    assert_eq!(l.pegs[0].color, Color::Empty);
    // The single letter parses to the sentinel but is not a valid entry.
    assert!(parse_line_tokens(&tokens(&["e", "red"]), 2, true).is_none());
}

#[test]
fn game_mode_words() {
    assert_eq!(parse_game_mode("p"), Some(GameMode::Practice));
    assert_eq!(parse_game_mode(" Practice "), Some(GameMode::Practice));
    assert_eq!(parse_game_mode("2"), Some(GameMode::TwoPlayer));
    assert_eq!(parse_game_mode("PVP"), Some(GameMode::TwoPlayer));
    assert_eq!(parse_game_mode("two_player"), Some(GameMode::TwoPlayer));
    assert_eq!(parse_game_mode("2-player"), Some(GameMode::TwoPlayer));
    assert_eq!(parse_game_mode("b"), Some(GameMode::PlayerVsBot));
    assert_eq!(parse_game_mode("player_vs_bot"), Some(GameMode::PlayerVsBot));
    assert_eq!(parse_game_mode("Spectate"), Some(GameMode::SpectateBot));
    assert_eq!(parse_game_mode("spectate_bot"), Some(GameMode::SpectateBot));
    assert_eq!(parse_game_mode("chess"), None);
    assert_eq!(parse_game_mode(""), None);
}

#[test]
fn affirmative_words() {
    assert!(parse_bool("true"));
    assert!(parse_bool("Yes"));
    assert!(parse_bool("y"));
    assert!(parse_bool("1"));
    assert!(parse_bool("ON"));
    assert!(!parse_bool("no"));
    assert!(!parse_bool("0"));
    assert!(!parse_bool(""));
}

#[test]
fn decimal_bytes() {
    assert_eq!(parse_u8_str("0"), Some(0));
    assert_eq!(parse_u8_str("12"), Some(12));
    assert_eq!(parse_u8_str("255"), Some(255));
    assert_eq!(parse_u8_str("256"), None);
    assert_eq!(parse_u8_str("999"), None);
    assert_eq!(parse_u8_str(""), None);
    assert_eq!(parse_u8_str("+5"), None);
    assert_eq!(parse_u8_str("1a"), None);
}

#[test]
fn trimming_removes_surrounding_whitespace() {
    assert_eq!(trim_str("  hello \t"), "hello");
    assert_eq!(trim_str("\r\n"), "");
    assert_eq!(trim_str("word"), "word");
}

#[test]
fn config_text_with_comments_and_unknown_keys() {
    let content = "# session setup\n\
                   game_mode = spectate_bot\n\
                   number_of_guesses = 12  # a dozen\n\
                   pegs_in_a_line = 5\n\
                   include_empty_pegs = yes\n\
                   unknown_key = 3\n";
    let cfg = GameConfig::parse_content(content);
    assert_eq!(cfg.game_mode, GameMode::SpectateBot);
    assert_eq!(cfg.number_of_guesses, 12);
    assert_eq!(cfg.pegs_in_a_line, 5);
    assert!(cfg.is_empty_pegs_allowed);
}

#[test]
fn config_defaults_when_lines_are_missing_or_invalid() {
    let cfg = GameConfig::parse_content("");
    assert_eq!(cfg.game_mode, GameMode::Practice);
    assert_eq!(cfg.number_of_guesses, 10);
    assert_eq!(cfg.pegs_in_a_line, 4);
    assert!(!cfg.is_empty_pegs_allowed);

    let cfg = GameConfig::parse_content(
        "game_mode = chess\nnumber_of_guesses = 0\npegs_in_a_line = 300\ninclude_empty_pegs = maybe\n",
    );
    assert_eq!(cfg.game_mode, GameMode::Practice);
    assert_eq!(cfg.number_of_guesses, 10);
    assert_eq!(cfg.pegs_in_a_line, 4);
    assert!(!cfg.is_empty_pegs_allowed);
}

#[test]
fn config_lines_without_an_equals_sign_are_ignored() {
    let cfg = GameConfig::parse_content("just some words\n\npegs_in_a_line = 6\n");
    assert_eq!(cfg.pegs_in_a_line, 6);
    assert_eq!(cfg.number_of_guesses, 10);
}

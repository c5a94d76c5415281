//! The user-configurable game parameters, and the parser for the
//! key/value configuration text. Reading the file from disk is the
//! caller's part; the parser works on the text alone.

use vstd::prelude::*;
use vstd::string::StrSliceExecFns;

use crate::manualconfig::{parse_game_mode, spec_parse_game_mode};
use crate::parse::{
    eq_ignore_case, find_char_from, first_char_at, matches_fold, parse_u8_str, spec_parse_u8,
    str_eq, trim_of, trim_str,
};
use crate::types::GameMode;

verus! {

/// The parameters a session is started with.
#[derive(Clone, Copy, PartialEq, Eq, Structural, Debug)]
pub struct GameConfig {
    pub game_mode: GameMode,
    pub number_of_guesses: u8,
    pub pegs_in_a_line: u8,
    pub is_empty_pegs_allowed: bool,
}

/// Whether the text reads as an affirmative word: `true`, `1`, `y`,
/// `yes` or `on`, ASCII case folded; everything else is negative.
pub open spec fn spec_parse_bool(value: Seq<char>) -> bool {
    ||| matches_fold(value, "true"@)
    ||| matches_fold(value, "1"@)
    ||| matches_fold(value, "y"@)
    ||| matches_fold(value, "yes"@)
    ||| matches_fold(value, "on"@)
}

/// Parse an affirmative word.
pub fn parse_bool(value: &str) -> (r: bool)
    ensures
        r == spec_parse_bool(value@),
{
    eq_ignore_case(value, "true") || eq_ignore_case(value, "1") || eq_ignore_case(value, "y")
        || eq_ignore_case(value, "yes") || eq_ignore_case(value, "on")
}

/// The configuration used when no line overrides a value: practice
/// mode, ten guesses, four pegs, no empty pegs.
pub open spec fn default_config() -> GameConfig {
    GameConfig {
        game_mode: GameMode::Practice,
        number_of_guesses: 10,
        pegs_in_a_line: 4,
        is_empty_pegs_allowed: false,
    }
}

/// One parsed `key = value` entry applied to the configuration. Keys
/// are matched exactly; an unknown key, an unreadable mode word, or a
/// guess or peg count that is not a positive number up to 255 leaves
/// the configuration unchanged.
pub open spec fn apply_config_entry(cfg: GameConfig, key: Seq<char>, value: Seq<char>) -> GameConfig {
    if key == "game_mode"@ {
        match spec_parse_game_mode(value) {
            Some(m) => GameConfig { game_mode: m, ..cfg },
            None => cfg,
        }
    } else if key == "number_of_guesses"@ {
        match spec_parse_u8(value) {
            Some(v) => if v > 0 {
                GameConfig { number_of_guesses: v, ..cfg }
            } else {
                cfg
            },
            None => cfg,
        }
    } else if key == "pegs_in_a_line"@ {
        match spec_parse_u8(value) {
            Some(v) => if v > 0 {
                GameConfig { pegs_in_a_line: v, ..cfg }
            } else {
                cfg
            },
            None => cfg,
        }
    } else if key == "include_empty_pegs"@ {
        GameConfig { is_empty_pegs_allowed: spec_parse_bool(value), ..cfg }
    } else {
        cfg
    }
}

/// One configuration line applied to the configuration: everything
/// from the first `#` on is a comment, surrounding whitespace is
/// trimmed, an empty line or one without `=` changes nothing, and
/// otherwise the trimmed key and value are looked up.
pub open spec fn apply_config_line(cfg: GameConfig, line: Seq<char>) -> GameConfig {
    let body = match first_char_at(line, '#', 0) {
        Some(p) => line.take(p),
        None => line,
    };
    let t = trim_of(body);
    if t.len() == 0 {
        cfg
    } else {
        match first_char_at(t, '=', 0) {
            Some(p) => apply_config_entry(cfg, trim_of(t.take(p)), trim_of(t.skip(p + 1))),
            None => cfg,
        }
    }
}

/// The whole configuration text applied line by line, lines being
/// separated by `\n`.
pub open spec fn config_from(s: Seq<char>, cfg: GameConfig) -> GameConfig
    decreases s.len(),
{
    match first_char_at(s, '\n', 0) {
        Some(p) => if 0 <= p < s.len() {
            config_from(s.skip(p + 1), apply_config_line(cfg, s.take(p)))
        } else {
            apply_config_line(cfg, s)
        },
        None => apply_config_line(cfg, s),
    }
}

/// The configuration a text denotes, starting from the defaults.
pub open spec fn spec_config_of(s: Seq<char>) -> GameConfig {
    config_from(s, default_config())
}

/// Apply one `key = value` entry.
fn apply_config_entry_exec(cfg: GameConfig, key: &str, value: &str) -> (r: GameConfig)
    ensures
        r == apply_config_entry(cfg, key@, value@),
{
    if str_eq(key, "game_mode") {
        match parse_game_mode(value) {
            Some(m) => GameConfig { game_mode: m, ..cfg },
            None => cfg,
        }
    } else if str_eq(key, "number_of_guesses") {
        match parse_u8_str(value) {
            Some(v) => if v > 0 {
                GameConfig { number_of_guesses: v, ..cfg }
            } else {
                cfg
            },
            None => cfg,
        }
    } else if str_eq(key, "pegs_in_a_line") {
        match parse_u8_str(value) {
            Some(v) => if v > 0 {
                GameConfig { pegs_in_a_line: v, ..cfg }
            } else {
                cfg
            },
            None => cfg,
        }
    } else if str_eq(key, "include_empty_pegs") {
        GameConfig { is_empty_pegs_allowed: parse_bool(value), ..cfg }
    } else {
        cfg
    }
}

/// Apply one configuration line.
fn apply_config_line_exec(cfg: GameConfig, line: &str) -> (r: GameConfig)
    ensures
        r == apply_config_line(cfg, line@),
{
    let body = match find_char_from(line, '#', 0) {
        Some(p) => line.substring_char(0, p),
        None => line,
    };
    proof {
        if first_char_at(line@, '#', 0) is Some {
            let pp = first_char_at(line@, '#', 0)->0;
            assert(line@.subrange(0, pp) =~= line@.take(pp));
        }
    }
    let t = trim_str(body);
    let t_len = t.unicode_len();
    if t_len == 0 {
        return cfg;
    }
    match find_char_from(t, '=', 0) {
        Some(p) => {
            let key = trim_str(t.substring_char(0, p));
            let value = trim_str(t.substring_char(p + 1, t_len));
            proof {
                let pp = first_char_at(t@, '=', 0)->0;
                assert(t@.subrange(0, pp) =~= t@.take(pp));
                assert(t@.subrange(pp + 1, t@.len() as int) =~= t@.skip(pp + 1));
            }
            apply_config_entry_exec(cfg, key, value)
        },
        None => cfg,
    }
}

impl GameConfig {
    /// Parse a whole configuration text: key/value lines with `#`
    /// comments, applied to the defaults in order. Missing, unknown
    /// or unreadable entries keep their default or previous value.
    pub fn parse_content(content: &str) -> (cfg: GameConfig)
        ensures
            cfg == spec_config_of(content@),
    {
        let mut cfg = GameConfig {
            game_mode: GameMode::Practice,
            number_of_guesses: 10,
            pegs_in_a_line: 4,
            is_empty_pegs_allowed: false,
        };
        let n = content.unicode_len();
        proof {
            assert(content@.skip(0) =~= content@);
            assert(cfg == default_config());
        }
        let mut pos: usize = 0;
        let mut finished = false;
        while !finished
            invariant
                pos <= n,
                n == content@.len(),
                !finished ==> spec_config_of(content@) == config_from(
                    content@.skip(pos as int),
                    cfg,
                ),
                finished ==> cfg == spec_config_of(content@),
            decreases n - pos + (if finished {
                0int
            } else {
                1int
            }),
        {
            let ghost rest = content@.skip(pos as int);
            match find_char_from(content, '\n', pos) {
                Some(j) => {
                    let line = content.substring_char(pos, j);
                    proof {
                        crate::parse::lemma_first_char_skip(content@, '\n', pos as int);
                        assert(first_char_at(rest, '\n', 0) == Some(j as int - pos as int));
                        assert(rest.take(j as int - pos as int) =~= content@.subrange(
                            pos as int,
                            j as int,
                        ));
                        assert(rest.skip(j as int - pos as int + 1) =~= content@.skip(
                            j as int + 1,
                        ));
                    }
                    cfg = apply_config_line_exec(cfg, line);
                    pos = j + 1;
                },
                None => {
                    let line = content.substring_char(pos, n);
                    proof {
                        crate::parse::lemma_first_char_skip(content@, '\n', pos as int);
                        assert(first_char_at(rest, '\n', 0) is None);
                        assert(rest =~= content@.subrange(pos as int, n as int));
                    }
                    cfg = apply_config_line_exec(cfg, line);
                    finished = true;
                },
            }
        }
        cfg
    }
}

} // verus!

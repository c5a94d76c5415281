//! The feedback evaluator: scoring one guess against one target line,
//! together with the round-result bookkeeping shared by all play modes.
//!
//! Scoring runs in two passes. The exact pass credits every position
//! where guess and target agree and consumes those target positions.
//! The color-only pass then walks the guess again and, for each
//! position that did not match exactly, consumes the first not yet
//! consumed target position of the same color, if any. The pass order
//! is load-bearing for repeated colors: a color occurring twice in the
//! target must not be credited twice for the same occurrence.

use vstd::prelude::*;

use crate::gamestate::Gamestate;
use crate::types::{Color, Feedback, GameMode, Line};

verus! {

/// Number of exact positional matches among the first `n` positions.
pub open spec fn exact_prefix_count(target: Seq<Color>, guess: Seq<Color>, n: int) -> int
    decreases n,
{
    if n <= 0 {
        0
    } else {
        exact_prefix_count(target, guess, n - 1) + if target[n - 1] == guess[n - 1] {
            1int
        } else {
            0int
        }
    }
}

/// Number of positions where guess and target hold the same color.
pub open spec fn exact_count(target: Seq<Color>, guess: Seq<Color>) -> int {
    exact_prefix_count(target, guess, target.len() as int)
}

/// The consumption mask left by the exact pass: precisely the exactly
/// matching positions are consumed.
pub open spec fn exact_pass_mask(target: Seq<Color>, guess: Seq<Color>) -> Seq<bool> {
    Seq::new(target.len(), |i: int| target[i] == guess[i])
}

/// The first position at or after `j` that is not yet consumed and
/// holds color `c`, if any.
pub open spec fn first_unused_match(target: Seq<Color>, used: Seq<bool>, c: Color, j: int) -> Option<
    int,
>
    decreases target.len() - j,
{
    if j < 0 || j >= target.len() {
        None
    } else if !used[j] && target[j] == c {
        Some(j)
    } else {
        first_unused_match(target, used, c, j + 1)
    }
}

/// The color-only pass from guess position `i` on, over the given
/// consumption mask: yields the final mask and the number of
/// color-only credits granted.
pub open spec fn color_pass(
    target: Seq<Color>,
    guess: Seq<Color>,
    used: Seq<bool>,
    i: int,
) -> (Seq<bool>, int)
    decreases guess.len() - i,
{
    if i < 0 || i >= guess.len() {
        (used, 0)
    } else if guess[i] != target[i] {
        match first_unused_match(target, used, guess[i], 0) {
            Some(j) => {
                let rest = color_pass(target, guess, used.update(j, true), i + 1);
                (rest.0, rest.1 + 1)
            },
            None => color_pass(target, guess, used, i + 1),
        }
    } else {
        color_pass(target, guess, used, i + 1)
    }
}

/// The color-only count of the two-pass evaluation.
pub open spec fn color_only_count(target: Seq<Color>, guess: Seq<Color>) -> int {
    color_pass(target, guess, exact_pass_mask(target, guess), 0).1
}

/// The display marker at flag position `p`: one black peg per exact
/// match first, one white peg per color-only match after them, the
/// rest left empty.
pub open spec fn marker_color(target: Seq<Color>, guess: Seq<Color>, p: int) -> Color {
    if p < exact_count(target, guess) {
        Color::Black
    } else if p < exact_count(target, guess) + color_only_count(target, guess) {
        Color::White
    } else {
        Color::Empty
    }
}


/// The set of positions where guess and target hold the same color.
pub open spec fn matching_positions(target: Seq<Color>, guess: Seq<Color>) -> Set<int> {
    Set::new(|i: int| 0 <= i < target.len() && target[i] == guess[i])
}

proof fn lemma_exact_prefix_card(target: Seq<Color>, guess: Seq<Color>, n: int)
    requires
        0 <= n,
    ensures
        Set::new(|i: int| 0 <= i < n && target[i] == guess[i]).finite(),
        exact_prefix_count(target, guess, n) == Set::new(
            |i: int| 0 <= i < n && target[i] == guess[i],
        ).len(),
    decreases n,
{
    let sn = Set::new(|i: int| 0 <= i < n && target[i] == guess[i]);
    if n == 0 {
        assert(sn =~= Set::<int>::empty());
    } else {
        let sp = Set::new(|i: int| 0 <= i < n - 1 && target[i] == guess[i]);
        lemma_exact_prefix_card(target, guess, n - 1);
        if target[n - 1] == guess[n - 1] {
            assert(sn =~= sp.insert(n - 1));
            assert(!sp.contains(n - 1));
            vstd::set::axiom_set_insert_len(sp, n - 1);
        } else {
            assert(sn =~= sp);
        }
    }
}

/// The exact count is positional: it equals the number of positions
/// where target and guess agree, however colors repeat within either
/// line.
pub proof fn lemma_exact_count_is_position_count(target: Seq<Color>, guess: Seq<Color>)
    ensures
        matching_positions(target, guess).finite(),
        exact_count(target, guess) == matching_positions(target, guess).len(),
{
    lemma_exact_prefix_card(target, guess, target.len() as int);
    assert(Set::new(
        |i: int| 0 <= i < target.len() && target[i] == guess[i],
    ) =~= matching_positions(target, guess));
}

/// How many positions of a mask are consumed.
pub open spec fn count_true(s: Seq<bool>) -> int
    decreases s.len(),
{
    if s.len() == 0 {
        0
    } else {
        count_true(s.drop_last()) + if s.last() {
            1int
        } else {
            0int
        }
    }
}

proof fn lemma_count_true_bound(s: Seq<bool>)
    ensures
        0 <= count_true(s) <= s.len(),
    decreases s.len(),
{
    if s.len() > 0 {
        lemma_count_true_bound(s.drop_last());
    }
}

proof fn lemma_count_true_update_true(s: Seq<bool>, j: int)
    requires
        0 <= j < s.len(),
        !s[j],
    ensures
        count_true(s.update(j, true)) == count_true(s) + 1,
    decreases s.len(),
{
    let u = s.update(j, true);
    if j == s.len() - 1 {
        assert(u.drop_last() =~= s.drop_last());
    } else {
        assert(u.drop_last() =~= s.drop_last().update(j, true));
        lemma_count_true_update_true(s.drop_last(), j);
    }
}

proof fn lemma_count_true_open_slot(s: Seq<bool>, j: int)
    requires
        0 <= j < s.len(),
        !s[j],
    ensures
        count_true(s) < s.len(),
{
    lemma_count_true_update_true(s, j);
    lemma_count_true_bound(s.update(j, true));
}

proof fn lemma_exact_prefix_nonneg(target: Seq<Color>, guess: Seq<Color>, n: int)
    ensures
        0 <= exact_prefix_count(target, guess, n),
        n >= 0 ==> exact_prefix_count(target, guess, n) <= n,
    decreases n,
{
    if n > 0 {
        lemma_exact_prefix_nonneg(target, guess, n - 1);
    }
}

/// The exact pass consumes exactly as many positions as it credits.
proof fn lemma_mask_prefix_count(target: Seq<Color>, guess: Seq<Color>, m: Seq<bool>, i: int)
    requires
        0 <= i <= m.len(),
        forall|j: int| 0 <= j < m.len() ==> m[j] == (target[j] == guess[j]),
    ensures
        count_true(m.take(i)) == exact_prefix_count(target, guess, i),
    decreases i,
{
    if i > 0 {
        lemma_mask_prefix_count(target, guess, m, i - 1);
        assert(m.take(i).drop_last() =~= m.take(i - 1));
        assert(m.take(i).last() == m[i - 1]);
    }
}

proof fn lemma_first_unused_found(target: Seq<Color>, used: Seq<bool>, c: Color, j: int)
    requires
        first_unused_match(target, used, c, j) is Some,
    ensures
        0 <= first_unused_match(target, used, c, j)->0 < target.len(),
        !used[first_unused_match(target, used, c, j)->0],
        target[first_unused_match(target, used, c, j)->0] == c,
    decreases target.len() - j,
{
    if !(j < 0 || j >= target.len()) && !(!used[j] && target[j] == c) {
        lemma_first_unused_found(target, used, c, j + 1);
    }
}

/// The color-only pass grants one credit per newly consumed position,
/// keeps the mask length, and never un-consumes a position.
proof fn lemma_color_pass_count(target: Seq<Color>, guess: Seq<Color>, used: Seq<bool>, i: int)
    requires
        used.len() == target.len(),
    ensures
        color_pass(target, guess, used, i).0.len() == used.len(),
        color_pass(target, guess, used, i).1 >= 0,
        color_pass(target, guess, used, i).1 + count_true(used) == count_true(
            color_pass(target, guess, used, i).0,
        ),
    decreases guess.len() - i,
{
    if !(i < 0 || i >= guess.len()) {
        if guess[i] != target[i] {
            match first_unused_match(target, used, guess[i], 0) {
                Some(j) => {
                    lemma_first_unused_found(target, used, guess[i], 0);
                    lemma_count_true_update_true(used, j);
                    lemma_color_pass_count(target, guess, used.update(j, true), i + 1);
                },
                None => {
                    lemma_color_pass_count(target, guess, used, i + 1);
                },
            }
        } else {
            lemma_color_pass_count(target, guess, used, i + 1);
        }
    }
}

/// Exact and color-only credits together never exceed the line length:
/// each credit consumes a distinct target position.
pub proof fn lemma_feedback_total_bound(target: Seq<Color>, guess: Seq<Color>)
    requires
        guess.len() == target.len(),
    ensures
        0 <= exact_count(target, guess),
        0 <= color_only_count(target, guess),
        exact_count(target, guess) + color_only_count(target, guess) <= target.len(),
{
    let m = exact_pass_mask(target, guess);
    lemma_exact_prefix_nonneg(target, guess, target.len() as int);
    lemma_mask_prefix_count(target, guess, m, target.len() as int);
    assert(m.take(target.len() as int) =~= m);
    lemma_color_pass_count(target, guess, m, 0);
    lemma_count_true_bound(color_pass(target, guess, m, 0).0);
}

proof fn lemma_color_pass_all_exact(target: Seq<Color>, used: Seq<bool>, i: int)
    ensures
        color_pass(target, target, used, i) == (used, 0int),
    decreases target.len() - i,
{
    if !(i < 0 || i >= target.len()) {
        lemma_color_pass_all_exact(target, used, i + 1);
    }
}

proof fn lemma_exact_prefix_self(target: Seq<Color>, n: int)
    requires
        0 <= n <= target.len(),
    ensures
        exact_prefix_count(target, target, n) == n,
    decreases n,
{
    if n > 0 {
        lemma_exact_prefix_self(target, n - 1);
    }
}

/// A line scored against itself earns one exact credit per position
/// and no color-only credit.
pub proof fn lemma_feedback_identity(target: Seq<Color>)
    ensures
        exact_count(target, target) == target.len(),
        color_only_count(target, target) == 0,
{
    lemma_exact_prefix_self(target, target.len() as int);
    lemma_color_pass_all_exact(target, exact_pass_mask(target, target), 0);
}

/// The first not yet consumed target position holding color `c`, if any.
fn find_first_unused(target: &Line, used: &Vec<bool>, c: Color) -> (r: Option<usize>)
    requires
        used@.len() == target@.len(),
    ensures
        match r {
            Some(j) => first_unused_match(target@, used@, c, 0) == Some(j as int),
            None => first_unused_match(target@, used@, c, 0) is None,
        },
{
    let width = used.len();
    let mut j: usize = 0;
    while j < width
        invariant
            j <= width,
            used@.len() == target@.len(),
            width == used@.len(),
            first_unused_match(target@, used@, c, 0) == first_unused_match(
                target@,
                used@,
                c,
                j as int,
            ),
        decreases width - j,
    {
        if !used[j] && target.pegs[j].color == c {
            assert(target@[j as int] == c);
            return Some(j);
        }
        assert(!(!used@[j as int] && target@[j as int] == c));
        j = j + 1;
    }
    None
}

/// Score `guess` against `target`: the returned feedback counts the
/// exact positional matches and the color-only matches of the two-pass
/// evaluation, and the returned flag line shows one black peg per
/// exact credit followed by one white peg per color-only credit.
pub fn check_for_matches(target: &Line, guess: &Line) -> (r: (Line, Feedback))
    requires
        guess@.len() == target@.len(),
        target@.len() <= u8::MAX,
    ensures
        r.1.correct_position as int == exact_count(target@, guess@),
        r.1.correct_color as int == color_only_count(target@, guess@),
        r.1.correct_position + r.1.correct_color <= target@.len(),
        r.0@.len() == target@.len(),
        forall|p: int| 0 <= p < target@.len() ==> r.0@[p] == marker_color(target@, guess@, p),
{
    let ghost t = target@;
    let ghost g = guess@;
    let width = target.pegs.len();
    let mut flags = Line::empty(width);
    let mut target_used: Vec<bool> = Vec::new();
    let mut k: usize = 0;
    while k < width
        invariant
            k <= width,
            target_used@.len() == k,
            forall|j: int| 0 <= j < k ==> !target_used@[j],
        decreases width - k,
    {
        target_used.push(false);
        k = k + 1;
    }
    let mut flag_index: usize = 0;
    let mut feedback = Feedback { correct_position: 0, correct_color: 0 };

    let mut i: usize = 0;
    while i < width
        invariant
            i <= width,
            t == target@,
            g == guess@,
            width == t.len(),
            g.len() == t.len(),
            width <= u8::MAX,
            target_used@.len() == width,
            flags@.len() == width,
            feedback.correct_color == 0,
            feedback.correct_position as int == exact_prefix_count(t, g, i as int),
            flag_index == feedback.correct_position,
            forall|j: int| 0 <= j < i ==> target_used@[j] == (t[j] == g[j]),
            forall|j: int| i <= j < width ==> !target_used@[j],
            forall|p: int| 0 <= p < flag_index ==> flags@[p] == Color::Black,
            forall|p: int| flag_index <= p < width ==> flags@[p] == Color::Empty,
        decreases width - i,
    {
        proof {
            lemma_exact_prefix_nonneg(t, g, i as int);
        }
        if guess.pegs[i].color == target.pegs[i].color {
            let ghost fv = flags@;
            flags.pegs[flag_index] = crate::types::Peg { color: Color::Black };
            proof {
                assert(flags@ =~= fv.update(flag_index as int, Color::Black));
            }
            flag_index = flag_index + 1;
            target_used[i] = true;
            feedback.correct_position = feedback.correct_position + 1;
        }
        i = i + 1;
    }
    proof {
        assert(target_used@ =~= exact_pass_mask(t, g));
        lemma_mask_prefix_count(t, g, target_used@, width as int);
        assert(target_used@.take(width as int) =~= target_used@);
    }
    let ghost u0 = target_used@;
    let ghost exact = exact_count(t, g);

    let mut i: usize = 0;
    while i < width
        invariant
            i <= width,
            t == target@,
            g == guess@,
            width == t.len(),
            g.len() == t.len(),
            width <= u8::MAX,
            target_used@.len() == width,
            flags@.len() == width,
            u0 == exact_pass_mask(t, g),
            exact == exact_count(t, g),
            feedback.correct_position as int == exact,
            feedback.correct_color as int <= i,
            flag_index as int == exact + feedback.correct_color,
            count_true(target_used@) == flag_index as int,
            color_pass(t, g, u0, 0).1 == feedback.correct_color + color_pass(
                t,
                g,
                target_used@,
                i as int,
            ).1,
            forall|p: int| 0 <= p < exact ==> flags@[p] == Color::Black,
            forall|p: int| exact <= p < flag_index ==> flags@[p] == Color::White,
            forall|p: int| flag_index <= p < width ==> flags@[p] == Color::Empty,
        decreases width - i,
    {
        if guess.pegs[i].color != target.pegs[i].color {
            let ghost u_before = target_used@;
            match find_first_unused(target, &target_used, guess.pegs[i].color) {
                Some(j) => {
                    proof {
                        lemma_first_unused_found(t, u_before, g[i as int], 0);
                        lemma_count_true_open_slot(u_before, j as int);
                    }
                    let ghost fv = flags@;
                    flags.pegs[flag_index] = crate::types::Peg { color: Color::White };
                    proof {
                        assert(flags@ =~= fv.update(flag_index as int, Color::White));
                    }
                    flag_index = flag_index + 1;
                    target_used[j] = true;
                    feedback.correct_color = feedback.correct_color + 1;
                    proof {
                        assert(target_used@ =~= u_before.update(j as int, true));
                        lemma_count_true_update_true(u_before, j as int);
                        assert(color_pass(t, g, u_before, i as int).1 == color_pass(
                            t,
                            g,
                            target_used@,
                            i as int + 1,
                        ).1 + 1);
                    }
                },
                None => {
                    proof {
                        assert(color_pass(t, g, target_used@, i as int).1 == color_pass(
                            t,
                            g,
                            target_used@,
                            i as int + 1,
                        ).1);
                    }
                },
            }
        } else {
            proof {
                assert(color_pass(t, g, target_used@, i as int).1 == color_pass(
                    t,
                    g,
                    target_used@,
                    i as int + 1,
                ).1);
            }
        }
        i = i + 1;
    }
    proof {
        assert(color_pass(t, g, target_used@, width as int).1 == 0);
        lemma_feedback_total_bound(t, g);
    }
    (flags, feedback)
}


/// Whether the main session loop should run another round or stop.
pub enum LoopAction {
    Continue,
    Break,
}

/// Who provides the next target line: a human code maker, or the
/// program drawing one at random.
#[derive(PartialEq, Eq, Structural, Clone, Copy, Debug)]
pub enum TargetProvider {
    Human,
    Bot,
}

/// The outcome of a finished round: how many guesses the breaker
/// used, whether the code was solved, the one-point bonus for an
/// unsolved code, and the total the maker scores.
pub struct RoundResult {
    pub guesses_used: u8,
    pub is_win: bool,
    pub bonus: u8,
    pub score_delta: u8,
}

/// The outcome of the round on the given board: the guesses used, a
/// solved flag, one bonus point for the maker when the code held, and
/// their sum as the maker's score delta.
pub fn calculate_round_result(gamestate: &Gamestate) -> (r: RoundResult)
    requires
        gamestate.guessed_lines@.len() <= u8::MAX,
        gamestate.spec_win() || gamestate.guessed_lines@.len() < u8::MAX,
    ensures
        r.guesses_used as int == gamestate.guessed_lines@.len(),
        r.is_win == gamestate.spec_win(),
        r.bonus == (if gamestate.spec_win() {
            0int
        } else {
            1int
        }),
        r.score_delta == r.guesses_used + r.bonus,
{
    let guesses_used = gamestate.guessed_lines.len() as u8;
    let is_win = gamestate.check_for_win();
    let bonus: u8 = if !is_win {
        1
    } else {
        0
    };

    RoundResult { guesses_used, is_win, bonus, score_delta: guesses_used + bonus }
}

/// Which side provides the target of the coming round: the human code
/// maker in the two-player modes (in player-versus-bot only when the
/// bot is about to guess), the program everywhere else.
pub fn who_picks_target(gamestate: &Gamestate) -> (r: TargetProvider)
    ensures
        r == (match gamestate.game_mode {
            GameMode::TwoPlayer => TargetProvider::Human,
            GameMode::PlayerVsBot => {
                if gamestate.p1s_turn {
                    TargetProvider::Bot
                } else {
                    TargetProvider::Human
                }
            },
            GameMode::Practice => TargetProvider::Bot,
            GameMode::SpectateBot => TargetProvider::Bot,
        }),
{
    match gamestate.game_mode {
        GameMode::TwoPlayer => TargetProvider::Human,
        GameMode::PlayerVsBot => {
            if gamestate.p1s_turn {
                TargetProvider::Bot
            } else {
                TargetProvider::Human
            }
        },
        GameMode::Practice => TargetProvider::Bot,
        GameMode::SpectateBot => TargetProvider::Bot,
    }
}

/// The decision at the end of a round. The caller reports the result,
/// settles two-player scores, saves and asks whether to go on; this
/// function then either stops the session, or clears the board for
/// the next round and swaps the breaker. The caller picks the next
/// target afterwards, as `who_picks_target` directs, and resets the
/// solver's candidate store.
pub fn handle_end_of_round(gamestate: &mut Gamestate, keep_playing: bool) -> (r: LoopAction)
    requires
        keep_playing ==> old(gamestate).current_round < u8::MAX,
    ensures
        !keep_playing ==> r is Break && *final(gamestate) == *old(gamestate),
        keep_playing ==> {
            &&& r is Continue
            &&& final(gamestate).guessed_lines@.len() == 0
            &&& final(gamestate).flag_pegs@.len() == 0
            &&& final(gamestate).current_round == old(gamestate).current_round + 1
            &&& final(gamestate).p1s_turn == !old(gamestate).p1s_turn
            &&& final(gamestate).game_mode == old(gamestate).game_mode
            &&& final(gamestate).round_length == old(gamestate).round_length
            &&& final(gamestate).is_empty_allowed == old(gamestate).is_empty_allowed
            &&& final(gamestate).pegs_in_a_line == old(gamestate).pegs_in_a_line
            &&& final(gamestate).target_line == old(gamestate).target_line
            &&& final(gamestate).p1_score == old(gamestate).p1_score
            &&& final(gamestate).p2_score == old(gamestate).p2_score
        },
{
    if !keep_playing {
        return LoopAction::Break;
    }
    gamestate.prepare_next_round();
    LoopAction::Continue
}

} // verus!

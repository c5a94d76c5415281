//! The automated solver: candidate-space generation, pruning against
//! observed feedback, and minimax guess selection.
//!
//! The candidate store is a duplicate-free vector of lines in the
//! enumeration order of the generator (lexicographic in the canonical
//! color numbering). A hash-based set would serve as well, but its
//! iteration order is unspecified and the selector's tie-break
//! depends on that order; keeping the enumeration order makes the
//! tie-break deterministic.

use vstd::prelude::*;
use vstd::arithmetic::power::pow;
use rand::Rng;

use crate::gamelogic::{check_for_matches, color_only_count, exact_count};
use crate::types::{color_index, contains_line, lines_views, nth_color, valid_line, Color, Feedback, Line};

verus! {

/// The alphabet size of a ruleset: the six real colors, plus the
/// `Empty` sentinel when empty pegs are allowed.
pub open spec fn alphabet_size_of(is_empty_allowed: bool) -> int {
    if is_empty_allowed {
        7
    } else {
        6
    }
}

/// Every line of length `width` that starts with `prefix` and draws
/// the remaining positions from the first `k` colors, enumerated in
/// lexicographic order of the canonical color numbering.
pub open spec fn all_extensions(prefix: Seq<Color>, k: int, width: int) -> Seq<Seq<Color>>
    decreases width - prefix.len(), k + 1,
{
    if prefix.len() >= width {
        seq![prefix]
    } else if k <= 0 {
        Seq::empty()
    } else {
        extensions_from(prefix, k, width, 0)
    }
}

/// The extensions whose next color has index at least `j`.
pub open spec fn extensions_from(prefix: Seq<Color>, k: int, width: int, j: int) -> Seq<Seq<Color>>
    decreases width - prefix.len(), k - j,
{
    if prefix.len() >= width || j >= k || j < 0 {
        Seq::empty()
    } else {
        all_extensions(prefix.push(nth_color(j)), k, width) + extensions_from(
            prefix,
            k,
            width,
            j + 1,
        )
    }
}

/// The full candidate universe for alphabet size `k` and line length
/// `width`.
pub open spec fn candidate_space(k: int, width: int) -> Seq<Seq<Color>> {
    all_extensions(Seq::empty(), k, width)
}

/// The generator yields exactly `k^(width - |prefix|)` extensions.
pub proof fn lemma_all_extensions_len(prefix: Seq<Color>, k: int, width: int)
    requires
        0 <= k,
        prefix.len() <= width,
    ensures
        all_extensions(prefix, k, width).len() == pow(k, (width - prefix.len()) as nat),
    decreases width - prefix.len(), k + 1,
{
    let e = (width - prefix.len()) as nat;
    if prefix.len() >= width {
        assert(pow(k, 0) == 1) by {
            vstd::arithmetic::power::lemma_pow0(k);
        }
    } else {
        assert(e >= 1);
        assert(pow(k, e) == k * pow(k, (e - 1) as nat)) by {
            reveal(pow);
        }
        if k == 0 {
            assert(all_extensions(prefix, k, width).len() == 0);
            assert(0 * pow(k, (e - 1) as nat) == 0) by (nonlinear_arith);
            assert(pow(k, e) == 0);
        } else {
            lemma_extensions_from_len(prefix, k, width, 0);
            assert(all_extensions(prefix, k, width) == extensions_from(prefix, k, width, 0));
            assert(extensions_from(prefix, k, width, 0).len() == (k - 0) * pow(
                k,
                (width - prefix.len() - 1) as nat,
            ));
        }
    }
}

proof fn lemma_extensions_from_len(prefix: Seq<Color>, k: int, width: int, j: int)
    requires
        0 <= j <= k,
        prefix.len() < width,
    ensures
        extensions_from(prefix, k, width, j).len() == (k - j) * pow(
            k,
            (width - prefix.len() - 1) as nat,
        ),
    decreases width - prefix.len(), k - j,
{
    let p = pow(k, (width - prefix.len() - 1) as nat);
    if j >= k {
        assert((k - j) * p == 0) by (nonlinear_arith)
            requires
                k == j,
        ;
    } else {
        lemma_all_extensions_len(prefix.push(nth_color(j)), k, width);
        lemma_extensions_from_len(prefix, k, width, j + 1);
        assert((k - j) * p == p + (k - j - 1) * p) by (nonlinear_arith);
    }
}

/// Every generated extension is a legal line over the first `k`
/// colors that starts with `prefix`.
pub proof fn lemma_all_extensions_elems(prefix: Seq<Color>, k: int, width: int)
    requires
        0 <= k <= 7,
        prefix.len() <= width,
    ensures
        forall|idx: int|
            0 <= idx < all_extensions(prefix, k, width).len() ==> {
                let l = #[trigger] all_extensions(prefix, k, width)[idx];
                &&& l.len() == width
                &&& l.take(prefix.len() as int) == prefix
                &&& forall|p: int|
                    prefix.len() <= p < width ==> color_index(#[trigger] l[p]) < k
            },
    decreases width - prefix.len(), k + 1,
{
    if prefix.len() >= width {
        assert(all_extensions(prefix, k, width)[0] == prefix);
        assert(prefix.take(prefix.len() as int) =~= prefix);
    } else if k > 0 {
        lemma_extensions_from_elems(prefix, k, width, 0);
        assert forall|idx: int|
            0 <= idx < all_extensions(prefix, k, width).len() implies {
            let l = #[trigger] all_extensions(prefix, k, width)[idx];
            &&& l.len() == width
            &&& l.take(prefix.len() as int) == prefix
            &&& forall|p: int| prefix.len() <= p < width ==> color_index(#[trigger] l[p]) < k
        } by {
            assert(all_extensions(prefix, k, width)[idx] == extensions_from(
                prefix,
                k,
                width,
                0,
            )[idx]);
        }
    }
}

proof fn lemma_extensions_from_elems(prefix: Seq<Color>, k: int, width: int, j: int)
    requires
        0 <= k <= 7,
        0 <= j,
        prefix.len() < width,
    ensures
        forall|idx: int|
            0 <= idx < extensions_from(prefix, k, width, j).len() ==> {
                let l = #[trigger] extensions_from(prefix, k, width, j)[idx];
                &&& l.len() == width
                &&& l.take(prefix.len() as int) == prefix
                &&& forall|p: int|
                    prefix.len() <= p < width ==> color_index(#[trigger] l[p]) < k
                &&& color_index(l[prefix.len() as int]) >= j
            },
    decreases width - prefix.len(), k - j,
{
    if !(prefix.len() >= width || j >= k || j < 0) {
        let c = nth_color(j);
        let head = all_extensions(prefix.push(c), k, width);
        let tail = extensions_from(prefix, k, width, j + 1);
        lemma_all_extensions_elems(prefix.push(c), k, width);
        lemma_extensions_from_elems(prefix, k, width, j + 1);
        assert forall|idx: int|
            0 <= idx < extensions_from(prefix, k, width, j).len() implies {
            let l = #[trigger] extensions_from(prefix, k, width, j)[idx];
            &&& l.len() == width
            &&& l.take(prefix.len() as int) == prefix
            &&& forall|p: int| prefix.len() <= p < width ==> color_index(#[trigger] l[p]) < k
            &&& color_index(l[prefix.len() as int]) >= j
        } by {
            let l = extensions_from(prefix, k, width, j)[idx];
            if idx < head.len() {
                assert(l == head[idx]);
                assert(l.take(prefix.len() as int + 1) == prefix.push(c));
                assert(l.take(prefix.len() as int) =~= prefix) by {
                    assert(forall|q: int|
                        0 <= q < prefix.len() ==> l.take(prefix.len() as int)[q] == l.take(
                            prefix.len() as int + 1,
                        )[q]);
                }
                assert(l[prefix.len() as int] == l.take(prefix.len() as int + 1)[prefix.len() as int]);
                assert(l[prefix.len() as int] == c);
                assert(forall|p: int|
                    prefix.len() + 1 <= p < width ==> color_index(#[trigger] l[p]) < k);
                assert(color_index(c) == j);
            } else {
                assert(l == tail[idx - head.len()]);
            }
        }
    }
}

/// Every legal line of length `width` over the first `k` colors that
/// starts with `prefix` is generated.
pub proof fn lemma_all_extensions_complete(prefix: Seq<Color>, k: int, width: int, l: Seq<Color>)
    requires
        0 <= k <= 7,
        prefix.len() <= width,
        l.len() == width,
        l.take(prefix.len() as int) == prefix,
        forall|p: int| prefix.len() <= p < width ==> color_index(#[trigger] l[p]) < k,
    ensures
        all_extensions(prefix, k, width).contains(l),
    decreases width - prefix.len(), k + 1,
{
    if prefix.len() >= width {
        assert(l =~= prefix);
        assert(all_extensions(prefix, k, width)[0] == l);
    } else {
        let j = color_index(l[prefix.len() as int]);
        assert(0 <= j < k);
        lemma_extensions_from_complete(prefix, k, width, 0, l);
        assert(all_extensions(prefix, k, width) == extensions_from(prefix, k, width, 0));
    }
}

proof fn lemma_extensions_from_complete(
    prefix: Seq<Color>,
    k: int,
    width: int,
    j: int,
    l: Seq<Color>,
)
    requires
        0 <= k <= 7,
        prefix.len() < width,
        l.len() == width,
        l.take(prefix.len() as int) == prefix,
        forall|p: int| prefix.len() <= p < width ==> color_index(#[trigger] l[p]) < k,
        0 <= j <= color_index(l[prefix.len() as int]),
    ensures
        extensions_from(prefix, k, width, j).contains(l),
    decreases width - prefix.len(), k - j,
{
    let c0 = l[prefix.len() as int];
    let head = all_extensions(prefix.push(nth_color(j)), k, width);
    let tail = extensions_from(prefix, k, width, j + 1);
    if j == color_index(c0) {
        assert(nth_color(j) == c0);
        assert(l.take(prefix.len() as int + 1) =~= prefix.push(c0));
        lemma_all_extensions_complete(prefix.push(c0), k, width, l);
        let idx = choose|idx: int| 0 <= idx < head.len() && head[idx] == l;
        assert(extensions_from(prefix, k, width, j)[idx] == l);
    } else {
        lemma_extensions_from_complete(prefix, k, width, j + 1, l);
        let idx = choose|idx: int| 0 <= idx < tail.len() && tail[idx] == l;
        assert(extensions_from(prefix, k, width, j)[head.len() + idx] == l);
    }
}

/// The generator never yields the same line twice.
pub proof fn lemma_all_extensions_distinct(prefix: Seq<Color>, k: int, width: int)
    requires
        0 <= k <= 7,
        prefix.len() <= width,
    ensures
        all_extensions(prefix, k, width).no_duplicates(),
    decreases width - prefix.len(), k + 1,
{
    if prefix.len() < width && k > 0 {
        lemma_extensions_from_distinct(prefix, k, width, 0);
        assert(all_extensions(prefix, k, width) == extensions_from(prefix, k, width, 0));
    }
}

proof fn lemma_extensions_from_distinct(prefix: Seq<Color>, k: int, width: int, j: int)
    requires
        0 <= k <= 7,
        0 <= j,
        prefix.len() < width,
    ensures
        extensions_from(prefix, k, width, j).no_duplicates(),
    decreases width - prefix.len(), k - j,
{
    if !(prefix.len() >= width || j >= k || j < 0) {
        let c = nth_color(j);
        let head = all_extensions(prefix.push(c), k, width);
        let tail = extensions_from(prefix, k, width, j + 1);
        let whole = extensions_from(prefix, k, width, j);
        lemma_all_extensions_distinct(prefix.push(c), k, width);
        lemma_extensions_from_distinct(prefix, k, width, j + 1);
        lemma_all_extensions_elems(prefix.push(c), k, width);
        lemma_extensions_from_elems(prefix, k, width, j + 1);
        assert forall|a: int, b: int| 0 <= a < b < whole.len() implies whole[a] != whole[b] by {
            if a < head.len() && b >= head.len() {
                let la = head[a];
                let lb = tail[b - head.len()];
                assert(la.take(prefix.len() as int + 1) == prefix.push(c));
                assert(la[prefix.len() as int] == la.take(prefix.len() as int + 1)[prefix.len() as int]);
                assert(color_index(la[prefix.len() as int]) == j);
                assert(color_index(lb[prefix.len() as int]) >= j + 1);
            } else if a < head.len() && b < head.len() {
                assert(head[a] != head[b]);
            } else {
                assert(tail[a - head.len()] != tail[b - head.len()]);
            }
        }
    }
}

/// The candidate universe holds exactly the legal lines, each once,
/// `k^width` of them in all.
pub proof fn lemma_candidate_space_correct(k: int, width: int)
    requires
        0 <= k <= 7,
        0 <= width,
    ensures
        candidate_space(k, width).len() == pow(k, width as nat),
        candidate_space(k, width).no_duplicates(),
        forall|l: Seq<Color>|
            #[trigger] candidate_space(k, width).contains(l) <==> valid_line(l, k, width),
{
    let e: Seq<Color> = Seq::empty();
    lemma_all_extensions_len(e, k, width);
    lemma_all_extensions_distinct(e, k, width);
    lemma_all_extensions_elems(e, k, width);
    assert forall|l: Seq<Color>| #[trigger]
        candidate_space(k, width).contains(l) <==> valid_line(l, k, width) by {
        if valid_line(l, k, width) {
            assert(l.take(0) =~= e);
            lemma_all_extensions_complete(e, k, width, l);
        }
        if candidate_space(k, width).contains(l) {
            let idx = choose|idx: int|
                0 <= idx < candidate_space(k, width).len() && candidate_space(k, width)[idx] == l;
            assert(candidate_space(k, width)[idx] == l);
        }
    }
}

/// A copy of a color vector.
fn clone_colors(colors: &Vec<Color>) -> (r: Vec<Color>)
    ensures
        r@ == colors@,
{
    let mut out: Vec<Color> = Vec::new();
    let mut i: usize = 0;
    while i < colors.len()
        invariant
            i <= colors@.len(),
            out@ =~= colors@.take(i as int),
        decreases colors@.len() - i,
    {
        out.push(colors[i]);
        i = i + 1;
    }
    proof {
        assert(out@ =~= colors@);
    }
    out
}

/// Depth-first exhaustive composition: extend the partial line in the
/// buffer one position at a time, trying every alphabet color at each
/// position, and record each fully built line.
pub fn generate_recursive(
    target_width: usize,
    valid_colors: &Vec<Color>,
    current_buffer: &mut Vec<Color>,
    results: &mut Vec<Line>,
)
    requires
        old(current_buffer)@.len() <= target_width,
        valid_colors@.len() <= 7,
        forall|j: int|
            0 <= j < valid_colors@.len() ==> valid_colors@[j] == nth_color(j),
    ensures
        final(current_buffer)@ == old(current_buffer)@,
        lines_views(final(results)@) == lines_views(old(results)@) + all_extensions(
            old(current_buffer)@,
            valid_colors@.len() as int,
            target_width as int,
        ),
    decreases target_width - old(current_buffer)@.len(),
{
    let ghost prefix = current_buffer@;
    let ghost k = valid_colors@.len() as int;
    let ghost base = lines_views(results@);
    if current_buffer.len() == target_width {
        let line = Line::new(clone_colors(current_buffer));
        results.push(line);
        proof {
            assert(lines_views(results@) =~= base + all_extensions(
                prefix,
                k,
                target_width as int,
            ));
        }
        return ;
    }
    let mut j: usize = 0;
    while j < valid_colors.len()
        invariant
            j <= valid_colors@.len(),
            valid_colors@.len() <= 7,
            forall|q: int|
                0 <= q < valid_colors@.len() ==> valid_colors@[q] == nth_color(q),
            k == valid_colors@.len() as int,
            current_buffer@ == prefix,
            prefix == old(current_buffer)@,
            prefix.len() < target_width,
            lines_views(results@) + extensions_from(prefix, k, target_width as int, j as int)
                =~= base + extensions_from(prefix, k, target_width as int, 0),
        decreases valid_colors@.len() - j,
    {
        let ghost before = lines_views(results@);
        current_buffer.push(valid_colors[j]);
        generate_recursive(target_width, valid_colors, current_buffer, results);
        current_buffer.pop();
        proof {
            assert(current_buffer@ =~= prefix);
            let c = nth_color(j as int);
            assert(lines_views(results@) =~= before + all_extensions(
                prefix.push(c),
                k,
                target_width as int,
            ));
            assert(extensions_from(prefix, k, target_width as int, j as int) == all_extensions(
                prefix.push(c),
                k,
                target_width as int,
            ) + extensions_from(prefix, k, target_width as int, j as int + 1));
            assert(lines_views(results@) + extensions_from(
                prefix,
                k,
                target_width as int,
                j as int + 1,
            ) =~= base + extensions_from(prefix, k, target_width as int, 0));
        }
        j = j + 1;
    }
    proof {
        assert(extensions_from(prefix, k, target_width as int, k) =~= Seq::<Seq<Color>>::empty());
        assert(lines_views(results@) =~= base + extensions_from(prefix, k, target_width as int, 0));
        assert(all_extensions(prefix, k, target_width as int) == extensions_from(
            prefix,
            k,
            target_width as int,
            0,
        ));
    }
}

/// Build the full candidate universe for the given ruleset: every line
/// of `width` pegs over the usable alphabet, each exactly once, in
/// enumeration order. The universe holds `k^width` lines, so time and
/// memory grow exponentially with the width; `checked_space_size`
/// gives callers the count to warn about before play begins.
pub fn populate_set_with_solutions(is_empty_allowed: bool, width: usize) -> (v: Vec<Line>)
    ensures
        lines_views(v@) == candidate_space(alphabet_size_of(is_empty_allowed), width as int),
{
    let color_limit: u8 = if is_empty_allowed {
        7
    } else {
        6
    };
    let mut valid_colors: Vec<Color> = Vec::new();
    let mut n: u8 = 0;
    while n < color_limit
        invariant
            n <= color_limit,
            color_limit == alphabet_size_of(is_empty_allowed),
            valid_colors@.len() == n,
            forall|j: int| 0 <= j < n ==> valid_colors@[j] == nth_color(j),
        decreases color_limit - n,
    {
        valid_colors.push(crate::types::num_to_color(n));
        n = n + 1;
    }
    let mut current_buffer: Vec<Color> = Vec::new();
    let mut results: Vec<Line> = Vec::new();
    generate_recursive(width, &valid_colors, &mut current_buffer, &mut results);
    proof {
        assert(lines_views(results@) =~= candidate_space(
            alphabet_size_of(is_empty_allowed),
            width as int,
        ));
    }
    results
}

/// A candidate is consistent with an observed feedback when scoring
/// the guess against that candidate as target reproduces the feedback.
pub open spec fn consistent_with(candidate: Seq<Color>, guess: Seq<Color>, fb: Feedback) -> bool {
    &&& exact_count(candidate, guess) == fb.correct_position as int
    &&& color_only_count(candidate, guess) == fb.correct_color as int
}

/// The candidates of `views` that are consistent with feedback `fb`
/// observed for `guess`, in their original order.
pub open spec fn filter_consistent(views: Seq<Seq<Color>>, guess: Seq<Color>, fb: Feedback) -> Seq<
    Seq<Color>,
> {
    views.filter(|s: Seq<Color>| consistent_with(s, guess, fb))
}

proof fn lemma_filter_in_original<A>(s: Seq<A>, pred: spec_fn(A) -> bool, x: A)
    requires
        s.filter(pred).contains(x),
    ensures
        s.contains(x),
        pred(x),
    decreases s.len(),
{
    reveal(Seq::filter);
    if s.len() > 0 {
        if s.filter(pred) =~= s.drop_last().filter(pred).push(s.last()) && x == s.last() {
            assert(s[s.len() - 1] == x);
        } else {
            lemma_filter_in_original(s.drop_last(), pred, x);
            let i = choose|i: int| 0 <= i < s.drop_last().len() && s.drop_last()[i] == x;
            assert(s[i] == x);
        }
    }
}

proof fn lemma_filter_keeps_distinct<A>(s: Seq<A>, pred: spec_fn(A) -> bool)
    requires
        s.no_duplicates(),
    ensures
        s.filter(pred).no_duplicates(),
    decreases s.len(),
{
    reveal(Seq::filter);
    if s.len() > 0 {
        let rest = s.drop_last();
        assert(rest.no_duplicates());
        lemma_filter_keeps_distinct(rest, pred);
        if pred(s.last()) {
            assert(!rest.contains(s.last())) by {
                if rest.contains(s.last()) {
                    let i = choose|i: int| 0 <= i < rest.len() && rest[i] == s.last();
                    assert(s[i] == s[s.len() - 1]);
                }
            }
            if rest.filter(pred).contains(s.last()) {
                lemma_filter_in_original(rest, pred, s.last());
            }
            assert(rest.filter(pred).push(s.last()).no_duplicates());
        }
    }
}

proof fn lemma_filter_of_all_true<A>(s: Seq<A>, pred: spec_fn(A) -> bool)
    requires
        forall|i: int| 0 <= i < s.len() ==> pred(#[trigger] s[i]),
    ensures
        s.filter(pred) == s,
    decreases s.len(),
{
    reveal(Seq::filter);
    if s.len() > 0 {
        let rest = s.drop_last();
        assert(forall|i: int| 0 <= i < rest.len() ==> pred(#[trigger] rest[i]));
        lemma_filter_of_all_true(rest, pred);
        assert(pred(s[s.len() - 1]));
        assert(s.filter(pred) =~= s);
    } else {
        assert(s.filter(pred) =~= s);
    }
}

/// Pruning is monotone and sound: the pruned set is no larger, every
/// surviving candidate is a consistent member of the original set, and
/// every removed candidate truly disagrees with the observed feedback.
pub proof fn lemma_prune_monotone_and_sound(
    views: Seq<Seq<Color>>,
    guess: Seq<Color>,
    fb: Feedback,
)
    ensures
        filter_consistent(views, guess, fb).len() <= views.len(),
        forall|s: Seq<Color>|
            #[trigger] filter_consistent(views, guess, fb).contains(s) ==> views.contains(s)
                && consistent_with(s, guess, fb),
        forall|s: Seq<Color>|
            views.contains(s) && !(#[trigger] filter_consistent(views, guess, fb).contains(s))
                ==> !consistent_with(s, guess, fb),
{
    let pred = |s: Seq<Color>| consistent_with(s, guess, fb);
    views.lemma_filter_len(pred);
    assert forall|s: Seq<Color>| #[trigger]
        filter_consistent(views, guess, fb).contains(s) implies views.contains(s)
        && consistent_with(s, guess, fb) by {
        lemma_filter_in_original(views, pred, s);
    }
    assert forall|s: Seq<Color>|
        views.contains(s) && !(#[trigger] filter_consistent(views, guess, fb).contains(
            s,
        )) implies !consistent_with(s, guess, fb) by {
        if consistent_with(s, guess, fb) {
            let i = choose|i: int| 0 <= i < views.len() && views[i] == s;
            views.lemma_filter_contains(pred, i);
        }
    }
}

/// Pruning twice with the same guess and feedback yields the same set
/// as pruning once.
pub proof fn lemma_prune_idempotent(views: Seq<Seq<Color>>, guess: Seq<Color>, fb: Feedback)
    ensures
        filter_consistent(filter_consistent(views, guess, fb), guess, fb) == filter_consistent(
            views,
            guess,
            fb,
        ),
{
    let pred = |s: Seq<Color>| consistent_with(s, guess, fb);
    let once = views.filter(pred);
    assert forall|i: int| 0 <= i < once.len() implies pred(#[trigger] once[i]) by {
        views.lemma_filter_pred(pred, i);
    }
    lemma_filter_of_all_true(once, pred);
}

/// The automated solver. It owns the candidate store (every line
/// still consistent with all feedback observed this round), the guess
/// history, the most recent guess with its feedback, the usable
/// alphabet and line width, and the first-guess flag.
pub struct Bot {
    pub possible_solutions: Vec<Line>,
    pub available_colors: Vec<Color>,
    pub no_of_pegs: usize,
    pub guessed_lines: Vec<Line>,
    pub current_feedback: Feedback,
    pub current_guess: Line,
    pub is_first_guess: bool,
}

impl Bot {
    /// The size of the usable alphabet.
    pub open spec fn alphabet_size(self) -> int {
        self.available_colors@.len() as int
    }

    /// The views of the candidate store, in store order.
    pub open spec fn solutions(self) -> Seq<Seq<Color>> {
        lines_views(self.possible_solutions@)
    }

    /// The views of the guess history, in order of issue.
    pub open spec fn history(self) -> Seq<Seq<Color>> {
        lines_views(self.guessed_lines@)
    }

    /// Well-formedness: the line width is positive and fits the
    /// feedback counters, the alphabet is a prefix of the canonical
    /// color numbering, every stored candidate is a legal line, the
    /// store is duplicate-free, guesses have the right width, and no
    /// guess has been issued while the first-guess flag is set.
    pub open spec fn wf(self) -> bool {
        &&& 1 <= self.no_of_pegs <= 255
        &&& 6 <= self.available_colors@.len() <= 7
        &&& forall|j: int|
            0 <= j < self.available_colors@.len() ==> self.available_colors@[j] == nth_color(j)
        &&& forall|i: int|
            0 <= i < self.possible_solutions@.len() ==> valid_line(
                #[trigger] self.possible_solutions@[i]@,
                self.alphabet_size(),
                self.no_of_pegs as int,
            )
        &&& self.solutions().no_duplicates()
        &&& forall|i: int|
            0 <= i < self.guessed_lines@.len() ==> (#[trigger] self.guessed_lines@[i])@.len()
                == self.no_of_pegs
        &&& self.current_guess@.len() == self.no_of_pegs
        &&& self.is_first_guess ==> self.guessed_lines@.len() == 0
    }

    /// A fresh solver for the given ruleset, holding the full
    /// candidate universe and an empty history.
    pub fn new(is_empty_allowed: bool, no_of_pegs: usize) -> (bot: Bot)
        requires
            1 <= no_of_pegs <= 255,
        ensures
            bot.wf(),
            bot.no_of_pegs == no_of_pegs,
            bot.alphabet_size() == alphabet_size_of(is_empty_allowed),
            bot.solutions() == candidate_space(
                alphabet_size_of(is_empty_allowed),
                no_of_pegs as int,
            ),
            bot.history().len() == 0,
            bot.current_feedback.correct_position == 0,
            bot.current_feedback.correct_color == 0,
            bot.is_first_guess,
    {
        let color_limit: u8 = if is_empty_allowed {
            7
        } else {
            6
        };
        let mut colors: Vec<Color> = Vec::new();
        let mut n: u8 = 0;
        while n < color_limit
            invariant
                n <= color_limit,
                colors@.len() == n,
                forall|j: int| 0 <= j < n ==> colors@[j] == nth_color(j),
            decreases color_limit - n,
        {
            colors.push(crate::types::num_to_color(n));
            n = n + 1;
        }
        let solutions = populate_set_with_solutions(is_empty_allowed, no_of_pegs);
        let bot = Bot {
            possible_solutions: solutions,
            available_colors: colors,
            no_of_pegs,
            guessed_lines: Vec::new(),
            current_feedback: Feedback::empty(),
            current_guess: Line::empty(no_of_pegs),
            is_first_guess: true,
        };
        proof {
            let k = alphabet_size_of(is_empty_allowed);
            lemma_candidate_space_correct(k, no_of_pegs as int);
            assert forall|i: int|
                0 <= i < bot.possible_solutions@.len() implies valid_line(
                #[trigger] bot.possible_solutions@[i]@,
                k,
                no_of_pegs as int,
            ) by {
                assert(bot.solutions()[i] == bot.possible_solutions@[i]@);
                assert(bot.solutions().contains(bot.solutions()[i]));
            }
        }
        bot
    }

    /// A solver for the given ruleset, or `None` when the line width
    /// is invalid: zero, or too wide for the feedback counters.
    pub fn try_new(is_empty_allowed: bool, no_of_pegs: usize) -> (r: Option<Bot>)
        ensures
            r is Some <==> 1 <= no_of_pegs <= 255,
            r matches Some(bot) ==> {
                &&& bot.wf()
                &&& bot.no_of_pegs == no_of_pegs
                &&& bot.alphabet_size() == alphabet_size_of(is_empty_allowed)
                &&& bot.solutions() == candidate_space(
                    alphabet_size_of(is_empty_allowed),
                    no_of_pegs as int,
                )
                &&& bot.history().len() == 0
                &&& bot.is_first_guess
            },
    {
        if no_of_pegs >= 1 && no_of_pegs <= 255 {
            Some(Bot::new(is_empty_allowed, no_of_pegs))
        } else {
            None
        }
    }

    /// Regenerate the full candidate universe for a new round with the
    /// given (possibly changed) parameters, clear the history and the
    /// last feedback, and arm the first-guess heuristic again.
    pub fn reset_possible_solutions(&mut self, is_empty_allowed: bool, no_of_pegs: usize)
        requires
            1 <= no_of_pegs <= 255,
        ensures
            final(self).wf(),
            final(self).no_of_pegs == no_of_pegs,
            final(self).alphabet_size() == alphabet_size_of(is_empty_allowed),
            final(self).solutions() == candidate_space(
                alphabet_size_of(is_empty_allowed),
                no_of_pegs as int,
            ),
            final(self).history().len() == 0,
            final(self).current_feedback.correct_position == 0,
            final(self).current_feedback.correct_color == 0,
            final(self).is_first_guess,
    {
        let fresh = Bot::new(is_empty_allowed, no_of_pegs);
        self.possible_solutions = fresh.possible_solutions;
        self.available_colors = fresh.available_colors;
        self.no_of_pegs = no_of_pegs;
        self.guessed_lines.clear();
        self.current_feedback = Feedback::empty();
        self.current_guess = Line::empty(no_of_pegs);
        self.is_first_guess = true;
    }

    /// Record the feedback observed for a guess; pruning uses the pair
    /// recorded last.
    pub fn record_feedback(&mut self, guess: Line, feedback: Feedback)
        requires
            old(self).wf(),
            guess@.len() == old(self).no_of_pegs,
        ensures
            final(self).wf(),
            final(self).current_guess == guess,
            final(self).current_feedback == feedback,
            final(self).possible_solutions == old(self).possible_solutions,
            final(self).guessed_lines == old(self).guessed_lines,
            final(self).available_colors == old(self).available_colors,
            final(self).no_of_pegs == old(self).no_of_pegs,
            final(self).is_first_guess == old(self).is_first_guess,
    {
        self.current_guess = guess;
        self.current_feedback = feedback;
    }

    /// Remove every candidate that is inconsistent with the feedback
    /// recorded for the current guess. Skipped before the first guess
    /// of a round, when no guess/feedback pair exists yet. Pruning an
    /// already consistent store changes nothing, and the store may
    /// only shrink; an empty store afterwards signals contradictory
    /// feedback and is the caller's fatal case, never repaired here.
    pub fn prune_non_viable_solutions(&mut self)
        requires
            old(self).wf(),
        ensures
            final(self).wf(),
            old(self).is_first_guess ==> *final(self) == *old(self),
            !old(self).is_first_guess ==> final(self).solutions() == filter_consistent(
                old(self).solutions(),
                old(self).current_guess@,
                old(self).current_feedback,
            ),
            final(self).available_colors == old(self).available_colors,
            final(self).no_of_pegs == old(self).no_of_pegs,
            final(self).guessed_lines == old(self).guessed_lines,
            final(self).current_feedback == old(self).current_feedback,
            final(self).current_guess == old(self).current_guess,
            final(self).is_first_guess == old(self).is_first_guess,
    {
        if !self.is_first_guess {
            let ghost g = self.current_guess@;
            let ghost fb = self.current_feedback;
            let ghost pred = |s: Seq<Color>| consistent_with(s, g, fb);
            let mut kept: Vec<Line> = Vec::new();
            let n = self.possible_solutions.len();
            let mut i: usize = 0;
            while i < n
                invariant
                    i <= n,
                    n == self.possible_solutions@.len(),
                    old(self).wf(),
                    *self == *old(self),
                    !self.is_first_guess,
                    g == self.current_guess@,
                    fb == self.current_feedback,
                    pred == (|s: Seq<Color>| consistent_with(s, g, fb)),
                    lines_views(kept@) == lines_views(self.possible_solutions@.take(i as int)).filter(pred),
                decreases n - i,
            {
                let ghost views_before = lines_views(self.possible_solutions@.take(i as int));
                let line = &self.possible_solutions[i];
                proof {
                    assert(valid_line(line@, self.alphabet_size(), self.no_of_pegs as int));
                }
                let (_flags, simulated_feedback) = check_for_matches(line, &self.current_guess);
                if simulated_feedback.correct_position == self.current_feedback.correct_position
                    && simulated_feedback.correct_color == self.current_feedback.correct_color {
                    kept.push(line.clone());
                }
                proof {
                    let views_now = lines_views(self.possible_solutions@.take(i as int + 1));
                    assert(views_now =~= views_before.push(line@));
                    assert(views_before + seq![line@] =~= views_now);
                    Seq::filter_distributes_over_add(views_before, seq![line@], pred);
                    reveal(Seq::filter);
                    let emp = Seq::<Seq<Color>>::empty();
                    assert(seq![line@].drop_last() =~= emp);
                    assert(emp.filter(pred) =~= emp);
                    assert(seq![line@].filter(pred) == if pred(line@) {
                        emp.filter(pred).push(line@)
                    } else {
                        emp.filter(pred)
                    });
                    if pred(line@) {
                        assert(seq![line@].filter(pred) =~= seq![line@]);
                        assert(lines_views(kept@) =~= views_now.filter(pred));
                    } else {
                        assert(seq![line@].filter(pred) =~= emp);
                        assert(lines_views(kept@) =~= views_now.filter(pred));
                    }
                }
                i = i + 1;
            }
            proof {
                assert(self.possible_solutions@.take(n as int) =~= self.possible_solutions@);
            }
            self.possible_solutions = kept;
            proof {
                lemma_prune_monotone_and_sound(old(self).solutions(), g, fb);
                lemma_filter_keeps_distinct(old(self).solutions(), pred);
                assert forall|i2: int|
                    0 <= i2 < self.possible_solutions@.len() implies valid_line(
                    #[trigger] self.possible_solutions@[i2]@,
                    self.alphabet_size(),
                    self.no_of_pegs as int,
                ) by {
                    let s = self.solutions()[i2];
                    assert(self.solutions().contains(s));
                    lemma_filter_in_original(old(self).solutions(), pred, s);
                    let j = choose|j: int|
                        0 <= j < old(self).solutions().len() && old(self).solutions()[j] == s;
                    assert(valid_line(old(self).possible_solutions@[j]@, old(self).alphabet_size(), old(self).no_of_pegs as int));
                }
            }
        }
    }
}


/// How many candidates would answer `guess` with exactly the feedback
/// `(e, c)`.
pub open spec fn matching_count(cands: Seq<Seq<Color>>, guess: Seq<Color>, e: int, c: int) -> int {
    cands.filter(
        |s: Seq<Color>| exact_count(s, guess) == e && color_only_count(s, guess) == c,
    ).len() as int
}

/// The size of the largest group of candidates that would be left
/// indistinguishable if `guess` were played: the maximum, over the
/// feedback values that occur, of the number of candidates producing
/// that feedback.
pub open spec fn worst_case(cands: Seq<Seq<Color>>, guess: Seq<Color>) -> int
    decreases cands.len(),
{
    if cands.len() == 0 {
        0
    } else {
        let last = cands.last();
        let cnt = matching_count(
            cands,
            guess,
            exact_count(last, guess),
            color_only_count(last, guess),
        );
        let rest = worst_case(cands.drop_last(), guess);
        if cnt > rest {
            cnt
        } else {
            rest
        }
    }
}

proof fn lemma_matching_count_push(
    views: Seq<Seq<Color>>,
    s: Seq<Color>,
    guess: Seq<Color>,
    e: int,
    c: int,
)
    ensures
        matching_count(views.push(s), guess, e, c) == matching_count(views, guess, e, c) + (
        if exact_count(s, guess) == e && color_only_count(s, guess) == c {
            1int
        } else {
            0int
        }),
{
    let pred = |t: Seq<Color>| exact_count(t, guess) == e && color_only_count(t, guess) == c;
    assert(views.push(s) =~= views + seq![s]);
    Seq::filter_distributes_over_add(views, seq![s], pred);
    reveal(Seq::filter);
    let emp = Seq::<Seq<Color>>::empty();
    assert(seq![s].drop_last() =~= emp);
    assert(emp.filter(pred) =~= emp);
    assert(seq![s].filter(pred) == if pred(s) {
        emp.filter(pred).push(s)
    } else {
        emp.filter(pred)
    });
}

/// The worst case is an upper bound for every feedback class.
pub proof fn lemma_worst_case_bounds(cands: Seq<Seq<Color>>, guess: Seq<Color>)
    ensures
        0 <= worst_case(cands, guess) <= cands.len(),
        forall|e: int, c: int| matching_count(cands, guess, e, c) <= worst_case(cands, guess),
    decreases cands.len(),
{
    let pred_of = |e: int, c: int|
        (|t: Seq<Color>| exact_count(t, guess) == e && color_only_count(t, guess) == c);
    if cands.len() == 0 {
        assert forall|e: int, c: int|
            matching_count(cands, guess, e, c) <= worst_case(cands, guess) by {
            cands.lemma_filter_len(pred_of(e, c));
        }
    } else {
        let rest = cands.drop_last();
        let s = cands.last();
        let se = exact_count(s, guess);
        let sc = color_only_count(s, guess);
        lemma_worst_case_bounds(rest, guess);
        cands.lemma_filter_len(pred_of(se, sc));
        assert forall|e: int, c: int|
            matching_count(cands, guess, e, c) <= worst_case(cands, guess) by {
            assert(rest.push(s) =~= cands);
            lemma_matching_count_push(rest, s, guess, e, c);
            lemma_matching_count_push(rest, s, guess, se, sc);
            assert(matching_count(rest, guess, e, c) <= worst_case(rest, guess));
        }
    }
}

/// With a single candidate left the worst case is exactly one.
pub proof fn lemma_worst_case_singleton(cands: Seq<Seq<Color>>, guess: Seq<Color>)
    requires
        cands.len() == 1,
    ensures
        worst_case(cands, guess) == 1,
{
    let s = cands.last();
    let e = exact_count(s, guess);
    let c = color_only_count(s, guess);
    let pred = |s: Seq<Color>| exact_count(s, guess) == e && color_only_count(s, guess) == c;
    let emp = Seq::<Seq<Color>>::empty();
    assert(cands.drop_last() =~= emp);
    assert(cands =~= emp.push(s));
    lemma_matching_count_push(emp, s, guess, e, c);
    emp.lemma_filter_len(pred);
    assert(matching_count(emp, guess, e, c) == 0);
    assert(matching_count(cands, guess, e, c) == 1);
    assert(worst_case(emp, guess) == 0);
}

/// Relies on rand::Rng::random_range over `0..n`: the sample is drawn
/// from the nonempty range, so it lies below `n`.
#[verifier::external_body]
pub(crate) fn random_below(n: usize) -> (r: usize)
    requires
        n >= 1,
    ensures
        r < n,
{
    rand::rng().random_range(0..n)
}

/// The worst case of playing `guess` against the candidates: tally
/// each feedback class in a bucket table indexed by
/// `exact * (width + 1) + color_only` and keep the running maximum,
/// which after the last candidate is the largest class size.
fn worst_case_of(cands: &Vec<Line>, guess: &Line, width: usize) -> (w: usize)
    requires
        width <= 255,
        guess@.len() == width,
        forall|i: int| 0 <= i < cands@.len() ==> (#[trigger] cands@[i])@.len() == width,
    ensures
        w as int == worst_case(lines_views(cands@), guess@),
{
    let ghost views = lines_views(cands@);
    let ghost g = guess@;
    let stride = width + 1;
    proof {
        assert(stride * stride <= 65536) by (nonlinear_arith)
            requires
                stride <= 256,
        ;
    }
    let bucket_count = stride * stride;
    let mut buckets: Vec<usize> = Vec::new();
    let mut z: usize = 0;
    while z < bucket_count
        invariant
            z <= bucket_count,
            buckets@.len() == z,
            forall|q: int| 0 <= q < z ==> buckets@[q] == 0,
        decreases bucket_count - z,
    {
        buckets.push(0);
        z = z + 1;
    }
    proof {
        let emp = views.take(0);
        assert(emp =~= Seq::<Seq<Color>>::empty());
        assert forall|e: int, c: int|
            0 <= e <= width && 0 <= c <= width implies buckets@[e * (width + 1) + c]
            == matching_count(views.take(0), g, e, c) by {
            let pred = |s: Seq<Color>| exact_count(s, g) == e && color_only_count(s, g) == c;
            emp.lemma_filter_len(pred);
            assert(0 <= e * (width + 1) + c < bucket_count) by (nonlinear_arith)
                requires
                    0 <= e <= width,
                    0 <= c <= width,
                    bucket_count == (width + 1) * (width + 1),
            ;
        }
    }
    let n = cands.len();
    let mut maxv: usize = 0;
    let mut i: usize = 0;
    while i < n
        invariant
            i <= n,
            n == cands@.len(),
            views == lines_views(cands@),
            g == guess@,
            g.len() == width,
            width <= 255,
            stride == width + 1,
            bucket_count == stride * stride,
            buckets@.len() == bucket_count,
            forall|i2: int| 0 <= i2 < cands@.len() ==> (#[trigger] cands@[i2])@.len() == width,
            forall|e: int, c: int|
                0 <= e <= width && 0 <= c <= width ==> buckets@[e * stride + c] == matching_count(
                    views.take(i as int),
                    g,
                    e,
                    c,
                ),
            maxv as int == worst_case(views.take(i as int), g),
        decreases n - i,
    {
        let ghost prefix = views.take(i as int);
        let line = &cands[i];
        let (_flags, fb) = check_for_matches(line, guess);
        let e = fb.correct_position as usize;
        let c = fb.correct_color as usize;
        proof {
            assert(e <= width && c <= width);
            assert(e * stride + c < bucket_count) by (nonlinear_arith)
                requires
                    e <= width,
                    c <= width,
                    stride == width + 1,
                    bucket_count == stride * stride,
            ;
            assert(matching_count(prefix, g, e as int, c as int) <= prefix.len()) by {
                prefix.lemma_filter_len(
                    |t: Seq<Color>| exact_count(t, g) == e as int && color_only_count(t, g)
                        == c as int,
                );
            }
        }
        let idx = e * stride + c;
        let b = buckets[idx];
        let cnt = b + 1;
        buckets[idx] = cnt;
        if cnt > maxv {
            maxv = cnt;
        }
        proof {
            let next = views.take(i as int + 1);
            assert(next =~= prefix.push(line@));
            assert forall|e2: int, c2: int|
                0 <= e2 <= width && 0 <= c2 <= width implies buckets@[e2 * stride + c2]
                == matching_count(next, g, e2, c2) by {
                lemma_matching_count_push(prefix, line@, g, e2, c2);
                if e2 == e as int && c2 == c as int {
                    assert(buckets@[e2 * stride + c2] == cnt);
                } else {
                    assert(e2 * stride + c2 != e as int * stride + c as int) by (nonlinear_arith)
                        requires
                            0 <= e2 <= width,
                            0 <= c2 <= width,
                            0 <= e as int <= width,
                            0 <= c as int <= width,
                            stride == width + 1,
                            !(e2 == e as int && c2 == c as int),
                    ;
                    assert(0 <= e2 * stride + c2 < bucket_count) by (nonlinear_arith)
                        requires
                            0 <= e2 <= width,
                            0 <= c2 <= width,
                            stride == width + 1,
                            bucket_count == stride * stride,
                    ;
                }
            }
            assert(next.last() == line@);
            assert(next.drop_last() =~= prefix);
        }
        i = i + 1;
    }
    proof {
        assert(views.take(n as int) =~= views);
    }
    maxv
}

impl Bot {
    /// The structured first probe: two distinct colors drawn at random
    /// from the usable alphabet, the first one filling the first half
    /// of the line (rounded up), the second one the rest.
    pub fn make_first_guess(&mut self) -> (guess: Line)
        requires
            old(self).wf(),
        ensures
            *final(self) == *old(self),
            guess@.len() == old(self).no_of_pegs,
            exists|a: int, b: int|
                #![trigger nth_color(a), nth_color(b)]
                {
                    &&& 0 <= a < old(self).alphabet_size()
                    &&& 0 <= b < old(self).alphabet_size()
                    &&& a != b
                    &&& forall|i: int|
                        0 <= i < guess@.len() ==> guess@[i] == (if 2 * i
                            < old(self).no_of_pegs as int {
                            nth_color(a)
                        } else {
                            nth_color(b)
                        })
                },
    {
        let n = self.available_colors.len();
        let index1 = random_below(n);
        let mut index2 = random_below(n - 1);
        if index2 >= index1 {
            index2 = index2 + 1;
        }
        assert(index1 != index2 && index1 < n && index2 < n);

        let color1 = self.available_colors[index1];
        let color2 = self.available_colors[index2];

        let middle_index = (self.no_of_pegs + 1) / 2;
        let mut colors: Vec<Color> = Vec::new();
        let mut i: usize = 0;
        while i < self.no_of_pegs
            invariant
                i <= self.no_of_pegs,
                colors@.len() == i,
                middle_index == (self.no_of_pegs + 1) / 2,
                self.no_of_pegs <= 255,
                forall|j: int|
                    0 <= j < i ==> colors@[j] == (if 2 * j < self.no_of_pegs as int {
                        color1
                    } else {
                        color2
                    }),
            decreases self.no_of_pegs - i,
        {
            if i < middle_index {
                colors.push(color1);
            } else {
                colors.push(color2);
            }
            i = i + 1;
        }
        let guess = Line::new(colors);
        proof {
            let a = index1 as int;
            let b = index2 as int;
            assert(self.available_colors@[a] == nth_color(a));
            assert(self.available_colors@[b] == nth_color(b));
        }
        guess
    }

    /// Pick the next guess. On the first call of a round the
    /// structured two-color probe is issued. Afterwards, among the
    /// candidates not yet guessed, the first one minimizing the worst
    /// case is chosen; if every candidate has been guessed already,
    /// the first remaining candidate is issued again. The guess is
    /// recorded in the history before it is returned.
    pub fn make_educated_guess(&mut self) -> (guess: Line)
        requires
            old(self).wf(),
            old(self).possible_solutions@.len() > 0,
        ensures
            final(self).wf(),
            final(self).history() == old(self).history().push(guess@),
            final(self).possible_solutions == old(self).possible_solutions,
            final(self).available_colors == old(self).available_colors,
            final(self).no_of_pegs == old(self).no_of_pegs,
            final(self).current_guess == old(self).current_guess,
            final(self).current_feedback == old(self).current_feedback,
            final(self).is_first_guess == false,
            guess@.len() == old(self).no_of_pegs,
            old(self).is_first_guess ==> !old(self).history().contains(guess@),
            old(self).is_first_guess ==> exists|a: int, b: int|
                #![trigger nth_color(a), nth_color(b)]
                {
                    &&& 0 <= a < old(self).alphabet_size()
                    &&& 0 <= b < old(self).alphabet_size()
                    &&& a != b
                    &&& forall|i: int|
                        0 <= i < guess@.len() ==> guess@[i] == (if 2 * i
                            < old(self).no_of_pegs as int {
                            nth_color(a)
                        } else {
                            nth_color(b)
                        })
                },
            !old(self).is_first_guess ==> {
                let sols = old(self).solutions();
                let hist = old(self).history();
                &&& sols.contains(guess@)
                &&& (exists|i: int|
                    0 <= i < sols.len() && !hist.contains(#[trigger] sols[i])) ==> {
                    &&& !hist.contains(guess@)
                    &&& forall|i: int|
                        0 <= i < sols.len() && !hist.contains(#[trigger] sols[i])
                            ==> worst_case(sols, sols[i]) >= worst_case(sols, guess@)
                    &&& exists|bi: int|
                        {
                            &&& 0 <= bi < sols.len()
                            &&& #[trigger] sols[bi] == guess@
                            &&& forall|i: int|
                                0 <= i < bi && !hist.contains(#[trigger] sols[i])
                                    ==> worst_case(sols, sols[i]) > worst_case(sols, guess@)
                        }
                }
                &&& !(exists|i: int|
                    0 <= i < sols.len() && !hist.contains(#[trigger] sols[i])) ==> guess@
                    == sols[0]
            },
            !old(self).is_first_guess && old(self).solutions().len() == 1 ==> guess@ == old(
                self,
            ).solutions()[0],
    {
        if self.is_first_guess {
            let guess = self.make_first_guess();
            self.is_first_guess = false;
            self.guessed_lines.push(guess.clone());
            proof {
                assert(self.history() =~= old(self).history().push(guess@));
            }
            return guess;
        }

        let ghost sols = self.solutions();
        let ghost hist = self.history();
        let n = self.possible_solutions.len();
        let mut best_idx: Option<usize> = None;
        let mut best_score: usize = 0;
        let mut gi: usize = 0;
        while gi < n
            invariant
                gi <= n,
                n == self.possible_solutions@.len(),
                *self == *old(self),
                old(self).wf(),
                !self.is_first_guess,
                sols == self.solutions(),
                hist == self.history(),
                match best_idx {
                    Some(bi) => {
                        &&& bi < gi
                        &&& !hist.contains(sols[bi as int])
                        &&& best_score as int == worst_case(sols, sols[bi as int])
                        &&& forall|i: int|
                            0 <= i < gi && !hist.contains(#[trigger] sols[i]) ==> worst_case(
                                sols,
                                sols[i],
                            ) >= best_score as int
                        &&& forall|i: int|
                            0 <= i < bi && !hist.contains(#[trigger] sols[i]) ==> worst_case(
                                sols,
                                sols[i],
                            ) > best_score as int
                    },
                    None => forall|i: int|
                        0 <= i < gi ==> hist.contains(#[trigger] sols[i]),
                },
            decreases n - gi,
        {
            let already_guessed = contains_line(&self.guessed_lines, &self.possible_solutions[gi]);
            if !already_guessed {
                proof {
                    assert(valid_line(
                        self.possible_solutions@[gi as int]@,
                        self.alphabet_size(),
                        self.no_of_pegs as int,
                    ));
                    assert forall|i2: int|
                        0 <= i2 < self.possible_solutions@.len() implies (#[trigger] self
                            .possible_solutions@[i2])@.len() == self.no_of_pegs by {
                        assert(valid_line(
                            self.possible_solutions@[i2]@,
                            self.alphabet_size(),
                            self.no_of_pegs as int,
                        ));
                    }
                }
                let line = self.possible_solutions[gi].clone();
                let wc = worst_case_of(&self.possible_solutions, &line, self.no_of_pegs);
                proof {
                    assert(line@ == sols[gi as int]);
                }
                let better = match best_idx {
                    Some(_) => wc < best_score,
                    None => true,
                };
                if better {
                    best_idx = Some(gi);
                    best_score = wc;
                }
            }
            gi = gi + 1;
        }

        let chosen: usize = match best_idx {
            Some(bi) => bi,
            None => 0,
        };
        proof {
            assert(valid_line(
                self.possible_solutions@[chosen as int]@,
                self.alphabet_size(),
                self.no_of_pegs as int,
            ));
        }
        let final_guess = self.possible_solutions[chosen].clone();
        self.guessed_lines.push(final_guess.clone());
        proof {
            assert(self.history() =~= old(self).history().push(final_guess@));
            assert(sols[chosen as int] == final_guess@);
            assert(sols.contains(final_guess@));
            if sols.len() == 1 && best_idx is None {
                assert(final_guess@ == sols[0]);
            }
        }
        final_guess
    }
}


/// The size of the candidate universe for a ruleset, `k` to the power
/// of the line width, or `None` when it exceeds `u64::MAX`. A caller
/// can warn about pathologically large rounds before play begins.
pub fn checked_space_size(is_empty_allowed: bool, no_of_pegs: usize) -> (r: Option<u64>)
    ensures
        r matches Some(s) ==> s as int == pow(
            alphabet_size_of(is_empty_allowed),
            no_of_pegs as nat,
        ),
        r is None <==> pow(alphabet_size_of(is_empty_allowed), no_of_pegs as nat) > u64::MAX,
{
    let k: u64 = if is_empty_allowed {
        7
    } else {
        6
    };
    let mut acc: u64 = 1;
    let mut i: usize = 0;
    proof {
        vstd::arithmetic::power::lemma_pow0(k as int);
    }
    while i < no_of_pegs
        invariant
            i <= no_of_pegs,
            k == alphabet_size_of(is_empty_allowed),
            acc as int == pow(k as int, i as nat),
            acc >= 1,
        decreases no_of_pegs - i,
    {
        proof {
            assert(pow(k as int, (i + 1) as nat) == k as int * pow(k as int, i as nat)) by {
                reveal(pow);
            }
        }
        if acc > u64::MAX / k {
            proof {
                assert(k as int * acc as int > u64::MAX) by (nonlinear_arith)
                    requires
                        acc as int > u64::MAX as int / k as int,
                        k as int >= 6,
                ;
                assert(pow(k as int, no_of_pegs as nat) >= pow(k as int, (i + 1) as nat)) by {
                    vstd::arithmetic::power::lemma_pow_increases(
                        k as nat,
                        (i + 1) as nat,
                        no_of_pegs as nat,
                    );
                }
            }
            return None;
        }
        proof {
            assert(acc as int * k as int <= u64::MAX) by (nonlinear_arith)
                requires
                    acc as int <= u64::MAX as int / k as int,
                    k as int >= 6,
            ;
            assert(acc as int * k as int >= acc as int) by (nonlinear_arith)
                requires
                    acc >= 1,
                    k as int >= 6,
            ;
        }
        acc = acc * k;
        i = i + 1;
    }
    Some(acc)
}

} // verus!

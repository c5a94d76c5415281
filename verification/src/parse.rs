//! Parsing of user-entered text: color words, whole guess lines, and
//! the small string utilities (ASCII case folding, trimming,
//! searching) that the configuration parser shares. Reading input
//! from the terminal is the caller's part.

use vstd::prelude::*;
use vstd::string::StrSliceExecFns;

use crate::types::{Color, Line};

verus! {

/// The ASCII case fold of a character's code: letters `A` through `Z`
/// map to their lowercase codes, everything else is unchanged.
pub open spec fn fold_code(c: char) -> int {
    if 65 <= c as int <= 90 {
        c as int + 32
    } else {
        c as int
    }
}

/// Whether `s`, folded to ASCII lowercase, reads exactly `t`.
pub open spec fn matches_fold(s: Seq<char>, t: Seq<char>) -> bool {
    &&& s.len() == t.len()
    &&& forall|i: int| 0 <= i < s.len() ==> fold_code(#[trigger] s[i]) == t[i] as int
}

/// Case-insensitive comparison of `s` against the lowercase word `t`,
/// folding ASCII letters only.
pub fn eq_ignore_case(s: &str, t: &str) -> (r: bool)
    ensures
        r == matches_fold(s@, t@),
{
    let n = s.unicode_len();
    let m = t.unicode_len();
    if n != m {
        return false;
    }
    let mut i: usize = 0;
    while i < n
        invariant
            i <= n,
            n == s@.len(),
            n == t@.len(),
            forall|j: int| 0 <= j < i ==> fold_code(#[trigger] s@[j]) == t@[j] as int,
        decreases n - i,
    {
        let a = s.get_char(i) as u32;
        let folded = if 65 <= a && a <= 90 {
            a + 32
        } else {
            a
        };
        let b = t.get_char(i) as u32;
        if folded != b {
            assert(fold_code(s@[i as int]) != t@[i as int] as int);
            return false;
        }
        i = i + 1;
    }
    true
}

/// Exact string equality.
pub fn str_eq(a: &str, b: &str) -> (r: bool)
    ensures
        r == (a@ == b@),
{
    let n = a.unicode_len();
    let m = b.unicode_len();
    if n != m {
        return false;
    }
    let mut i: usize = 0;
    while i < n
        invariant
            i <= n,
            n == a@.len(),
            n == b@.len(),
            forall|j: int| 0 <= j < i ==> a@[j] == b@[j],
        decreases n - i,
    {
        if a.get_char(i) != b.get_char(i) {
            return false;
        }
        i = i + 1;
    }
    proof {
        assert(a@ =~= b@);
    }
    true
}

/// The ASCII whitespace characters that trimming removes.
pub open spec fn is_space_char(c: char) -> bool {
    c as int == 32 || c as int == 9 || c as int == 13 || c as int == 10
}

/// `s` with leading whitespace removed.
pub open spec fn trim_front(s: Seq<char>) -> Seq<char>
    decreases s.len(),
{
    if s.len() > 0 && is_space_char(s[0]) {
        trim_front(s.drop_first())
    } else {
        s
    }
}

/// `s` with trailing whitespace removed.
pub open spec fn trim_back(s: Seq<char>) -> Seq<char>
    decreases s.len(),
{
    if s.len() > 0 && is_space_char(s.last()) {
        trim_back(s.drop_last())
    } else {
        s
    }
}

/// `s` with leading and trailing ASCII whitespace removed.
pub open spec fn trim_of(s: Seq<char>) -> Seq<char> {
    trim_back(trim_front(s))
}

proof fn lemma_trim_front_subrange(s: Seq<char>, a: int)
    requires
        0 <= a <= s.len(),
        forall|i: int| 0 <= i < a ==> is_space_char(#[trigger] s[i]),
        a == s.len() || !is_space_char(s[a]),
    ensures
        trim_front(s) == s.subrange(a, s.len() as int),
    decreases a,
{
    if a == 0 {
        assert(s.subrange(0, s.len() as int) =~= s);
    } else {
        let rest = s.drop_first();
        assert(forall|i: int| 0 <= i < a - 1 ==> is_space_char(#[trigger] rest[i]));
        lemma_trim_front_subrange(rest, a - 1);
        assert(rest.subrange(a - 1, rest.len() as int) =~= s.subrange(a, s.len() as int));
    }
}

proof fn lemma_trim_back_subrange(s: Seq<char>, b: int)
    requires
        0 <= b <= s.len(),
        forall|i: int| b <= i < s.len() ==> is_space_char(#[trigger] s[i]),
        b == 0 || !is_space_char(s[b - 1]),
    ensures
        trim_back(s) == s.subrange(0, b),
    decreases s.len() - b,
{
    if b == s.len() {
        if s.len() > 0 && is_space_char(s.last()) {
            assert(!is_space_char(s[b - 1]));
        }
        assert(s.subrange(0, b) =~= s);
    } else {
        let rest = s.drop_last();
        assert(is_space_char(s.last()));
        assert(forall|i: int| b <= i < rest.len() ==> is_space_char(#[trigger] rest[i]));
        lemma_trim_back_subrange(rest, b);
        assert(rest.subrange(0, b) =~= s.subrange(0, b));
    }
}

/// Whether the character at position `i` is ASCII whitespace.
fn space_at(s: &str, i: usize) -> (r: bool)
    requires
        i < s@.len(),
    ensures
        r == is_space_char(s@[i as int]),
{
    let c = s.get_char(i) as u32;
    c == 32 || c == 9 || c == 13 || c == 10
}

/// `s` with surrounding ASCII whitespace removed.
pub fn trim_str<'a>(s: &'a str) -> (r: &'a str)
    ensures
        r@ == trim_of(s@),
{
    let n = s.unicode_len();
    let mut a: usize = 0;
    while a < n && space_at(s, a)
        invariant
            a <= n,
            n == s@.len(),
            forall|i: int| 0 <= i < a ==> is_space_char(#[trigger] s@[i]),
        decreases n - a,
    {
        a = a + 1;
    }
    let mut b: usize = n;
    while b > a && space_at(s, b - 1)
        invariant
            a <= b <= n,
            n == s@.len(),
            forall|i: int| 0 <= i < a ==> is_space_char(#[trigger] s@[i]),
            forall|i: int| b <= i < n ==> is_space_char(#[trigger] s@[i]),
        decreases b,
    {
        b = b - 1;
    }
    let r = s.substring_char(a, b);
    proof {
        lemma_trim_front_subrange(s@, a as int);
        let front = s@.subrange(a as int, n as int);
        lemma_trim_back_subrange(front, b as int - a as int);
        assert(front.subrange(0, b as int - a as int) =~= s@.subrange(a as int, b as int));
    }
    r
}

/// The first position at or after `j` where `s` holds the character
/// `c`, if any.
pub open spec fn first_char_at(s: Seq<char>, c: char, j: int) -> Option<int>
    decreases s.len() - j,
{
    if j < 0 || j >= s.len() {
        None
    } else if s[j] == c {
        Some(j)
    } else {
        first_char_at(s, c, j + 1)
    }
}

proof fn lemma_first_char_found(s: Seq<char>, c: char, j: int)
    requires
        first_char_at(s, c, j) is Some,
    ensures
        j <= first_char_at(s, c, j)->0 < s.len(),
        s[first_char_at(s, c, j)->0] == c,
        forall|i: int| j <= i < first_char_at(s, c, j)->0 ==> s[i] != c,
    decreases s.len() - j,
{
    if !(j < 0 || j >= s.len()) && s[j] != c {
        lemma_first_char_found(s, c, j + 1);
    }
}

proof fn lemma_first_char_skip_aux(s: Seq<char>, c: char, a: int, j: int)
    requires
        0 <= a,
        0 <= j,
        a + j <= s.len(),
    ensures
        first_char_at(s.skip(a), c, j) == match first_char_at(s, c, a + j) {
            Some(p) => Some(p - a),
            None => None::<int>,
        },
    decreases s.len() - a - j,
{
    let t = s.skip(a);
    if j < t.len() {
        assert(t[j] == s[a + j]);
        if t[j] != c {
            lemma_first_char_skip_aux(s, c, a, j + 1);
        }
    }
}

/// Searching from position `a` is searching the suffix from its
/// start, with the found index shifted accordingly.
pub proof fn lemma_first_char_skip(s: Seq<char>, c: char, a: int)
    requires
        0 <= a <= s.len(),
    ensures
        first_char_at(s.skip(a), c, 0) == match first_char_at(s, c, a) {
            Some(p) => Some(p - a),
            None => None::<int>,
        },
{
    lemma_first_char_skip_aux(s, c, a, 0);
}

/// The first occurrence of `c` at or after `from`, if any.
pub fn find_char_from(s: &str, c: char, from: usize) -> (r: Option<usize>)
    requires
        from <= s@.len(),
    ensures
        match r {
            Some(j) => first_char_at(s@, c, from as int) == Some(j as int) && from <= j
                < s@.len(),
            None => first_char_at(s@, c, from as int) is None,
        },
{
    let n = s.unicode_len();
    let mut j: usize = from;
    while j < n
        invariant
            from <= j <= n,
            n == s@.len(),
            first_char_at(s@, c, from as int) == first_char_at(s@, c, j as int),
        decreases n - j,
    {
        if s.get_char(j) == c {
            return Some(j);
        }
        j = j + 1;
    }
    None
}

/// The color named by a guess token: a full color name or its single
/// letter, compared without regard to ASCII case; anything else, the
/// word `empty` included, names the `Empty` sentinel.
pub open spec fn spec_parse_guess(s: Seq<char>) -> Color {
    if matches_fold(s, "e"@) || matches_fold(s, "empty"@) {
        Color::Empty
    } else if matches_fold(s, "w"@) || matches_fold(s, "white"@) {
        Color::White
    } else if matches_fold(s, "b"@) || matches_fold(s, "black"@) {
        Color::Black
    } else if matches_fold(s, "r"@) || matches_fold(s, "red"@) {
        Color::Red
    } else if matches_fold(s, "g"@) || matches_fold(s, "green"@) {
        Color::Green
    } else if matches_fold(s, "u"@) || matches_fold(s, "blue"@) {
        Color::Blue
    } else if matches_fold(s, "y"@) || matches_fold(s, "yellow"@) {
        Color::Yellow
    } else {
        Color::Empty
    }
}

/// Parse one color word. Unrecognized input maps to the `Empty`
/// sentinel, which line validation then rejects unless the word
/// `empty` itself was entered where the ruleset allows it.
pub fn parse_guess(guess: &str) -> (c: Color)
    ensures
        c == spec_parse_guess(guess@),
{
    if eq_ignore_case(guess, "e") || eq_ignore_case(guess, "empty") {
        Color::Empty
    } else if eq_ignore_case(guess, "w") || eq_ignore_case(guess, "white") {
        Color::White
    } else if eq_ignore_case(guess, "b") || eq_ignore_case(guess, "black") {
        Color::Black
    } else if eq_ignore_case(guess, "r") || eq_ignore_case(guess, "red") {
        Color::Red
    } else if eq_ignore_case(guess, "g") || eq_ignore_case(guess, "green") {
        Color::Green
    } else if eq_ignore_case(guess, "u") || eq_ignore_case(guess, "blue") {
        Color::Blue
    } else if eq_ignore_case(guess, "y") || eq_ignore_case(guess, "yellow") {
        Color::Yellow
    } else {
        Color::Empty
    }
}

/// A guess token is acceptable when it names a real color, or reads
/// `empty` (in any ASCII case) while the ruleset allows empty pegs.
pub open spec fn token_valid(t: Seq<char>, is_empty_allowed: bool) -> bool {
    !(spec_parse_guess(t) == Color::Empty && (!matches_fold(t, "empty"@) || !is_empty_allowed))
}

/// Build a guess line from entered tokens: `Some` exactly when the
/// token count matches the peg count and every token is acceptable,
/// and then the line holds the parsed colors in order.
pub fn parse_line_tokens(tokens: &Vec<String>, pegs_count: usize, is_empty_allowed: bool) -> (r:
    Option<Line>)
    ensures
        r is Some <==> tokens@.len() == pegs_count && (forall|i: int|
            0 <= i < tokens@.len() ==> token_valid((#[trigger] tokens@[i])@, is_empty_allowed)),
        r matches Some(l) ==> {
            &&& l@.len() == pegs_count
            &&& forall|i: int|
                0 <= i < pegs_count ==> l@[i] == spec_parse_guess((#[trigger] tokens@[i])@)
        },
{
    if tokens.len() != pegs_count {
        return None;
    }
    let mut colors: Vec<Color> = Vec::new();
    let mut i: usize = 0;
    while i < pegs_count
        invariant
            i <= pegs_count,
            pegs_count == tokens@.len(),
            colors@.len() == i,
            forall|j: int| 0 <= j < i ==> token_valid((#[trigger] tokens@[j])@, is_empty_allowed),
            forall|j: int|
                0 <= j < i ==> colors@[j] == spec_parse_guess((#[trigger] tokens@[j])@),
        decreases pegs_count - i,
    {
        let token = tokens[i].as_str();
        let color = parse_guess(token);
        if color == Color::Empty && (!eq_ignore_case(token, "empty") || !is_empty_allowed) {
            return None;
        }
        colors.push(color);
        i = i + 1;
    }
    Some(Line::new(colors))
}

/// Whether `c` is an ASCII decimal digit.
pub open spec fn is_digit_char(c: char) -> bool {
    48 <= c as int <= 57
}

/// Whether `s` is a nonempty run of ASCII digits.
pub open spec fn all_digits(s: Seq<char>) -> bool {
    s.len() > 0 && forall|i: int| 0 <= i < s.len() ==> is_digit_char(#[trigger] s[i])
}

/// The numeric value of a digit run.
pub open spec fn digits_val(s: Seq<char>) -> int
    decreases s.len(),
{
    if s.len() == 0 {
        0
    } else {
        digits_val(s.drop_last()) * 10 + (s.last() as int - 48)
    }
}

/// The `u8` a string denotes: a nonempty run of ASCII digits whose
/// value fits, and nothing else.
pub open spec fn spec_parse_u8(s: Seq<char>) -> Option<u8> {
    if all_digits(s) && digits_val(s) <= 255 {
        Some(digits_val(s) as u8)
    } else {
        None
    }
}

proof fn lemma_digits_val_nonneg(s: Seq<char>)
    requires
        forall|i: int| 0 <= i < s.len() ==> is_digit_char(#[trigger] s[i]),
    ensures
        digits_val(s) >= 0,
    decreases s.len(),
{
    if s.len() > 0 {
        let rest = s.drop_last();
        assert(forall|i: int| 0 <= i < rest.len() ==> is_digit_char(#[trigger] rest[i]));
        lemma_digits_val_nonneg(rest);
    }
}

proof fn lemma_digits_val_grows(s: Seq<char>, i: int)
    requires
        0 <= i <= s.len(),
        forall|j: int| 0 <= j < s.len() ==> is_digit_char(#[trigger] s[j]),
    ensures
        digits_val(s) >= digits_val(s.take(i)),
    decreases s.len() - i,
{
    if i < s.len() {
        let t = s.take(i + 1);
        assert(t.drop_last() =~= s.take(i));
        assert(forall|j: int| 0 <= j < s.take(i).len() ==> is_digit_char(#[trigger] s.take(i)[j]));
        lemma_digits_val_nonneg(s.take(i));
        assert(digits_val(t) == digits_val(s.take(i)) * 10 + (s[i] as int - 48));
        assert(digits_val(s.take(i)) * 10 >= digits_val(s.take(i))) by (nonlinear_arith)
            requires
                digits_val(s.take(i)) >= 0,
        ;
        lemma_digits_val_grows(s, i + 1);
    } else {
        assert(s.take(i) =~= s);
    }
}

/// Parse a decimal `u8`: `Some` exactly for a nonempty all-digit
/// string whose value is at most 255.
pub fn parse_u8_str(s: &str) -> (r: Option<u8>)
    ensures
        r == spec_parse_u8(s@),
{
    let n = s.unicode_len();
    if n == 0 {
        return None;
    }
    let mut acc: u32 = 0;
    let mut i: usize = 0;
    while i < n
        invariant
            i <= n,
            n == s@.len(),
            n > 0,
            acc <= 255,
            acc as int == digits_val(s@.take(i as int)),
            forall|j: int| 0 <= j < i ==> is_digit_char(#[trigger] s@[j]),
        decreases n - i,
    {
        let code = s.get_char(i) as u32;
        if !(48 <= code && code <= 57) {
            assert(!is_digit_char(s@[i as int]));
            assert(!all_digits(s@));
            return None;
        }
        let digit = code - 48;
        acc = acc * 10 + digit;
        proof {
            assert(s@.take(i as int + 1).drop_last() =~= s@.take(i as int));
        }
        if acc > 255 {
            proof {
                if all_digits(s@) {
                    lemma_digits_val_grows(s@, i as int + 1);
                }
            }
            return None;
        }
        i = i + 1;
    }
    proof {
        assert(s@.take(n as int) =~= s@);
        assert(all_digits(s@));
    }
    Some(acc as u8)
}

} // verus!

//! Core data types: peg colors, lines (fixed-length color sequences),
//! feedback values and the game-mode enumeration.

use vstd::prelude::*;

verus! {

/// The available play modes.
#[derive(PartialEq, Eq, Structural, Clone, Copy, Debug)]
pub enum GameMode {
    Practice,
    TwoPlayer,
    PlayerVsBot,
    SpectateBot,
}

/// A peg color. `Empty` is a sentinel that is only a legal code color
/// when the ruleset allows empty pegs.
#[derive(Copy, Clone, PartialEq, Eq, Structural, Debug, Hash)]
pub enum Color {
    Empty,
    White,
    Black,
    Red,
    Green,
    Blue,
    Yellow,
}

/// The canonical numbering of the alphabet: the six real colors first,
/// the `Empty` sentinel last. An alphabet of size `k` consists of
/// `nth_color(0)` through `nth_color(k - 1)`.
pub open spec fn nth_color(n: int) -> Color {
    if n == 0 {
        Color::White
    } else if n == 1 {
        Color::Black
    } else if n == 2 {
        Color::Red
    } else if n == 3 {
        Color::Green
    } else if n == 4 {
        Color::Blue
    } else if n == 5 {
        Color::Yellow
    } else {
        Color::Empty
    }
}

/// The inverse of `nth_color` on the seven colors.
pub open spec fn color_index(c: Color) -> int {
    match c {
        Color::White => 0,
        Color::Black => 1,
        Color::Red => 2,
        Color::Green => 3,
        Color::Blue => 4,
        Color::Yellow => 5,
        Color::Empty => 6,
    }
}

/// A sequence of colors is a legal line for alphabet size `k` and length
/// `width` when it has that length and draws every color from the first
/// `k` colors of the canonical numbering.
pub open spec fn valid_line(l: Seq<Color>, k: int, width: int) -> bool {
    &&& l.len() == width
    &&& forall|i: int| 0 <= i < l.len() ==> color_index(#[trigger] l[i]) < k
}

/// The mapping from a numeric index to a color; indices past the six
/// real colors yield the `Empty` sentinel.
pub fn num_to_color(n: u8) -> (c: Color)
    ensures
        c == nth_color(n as int),
{
    match n {
        0 => Color::White,
        1 => Color::Black,
        2 => Color::Red,
        3 => Color::Green,
        4 => Color::Blue,
        5 => Color::Yellow,
        _ => Color::Empty,
    }
}

impl Color {
    /// Every color of the full alphabet, the `Empty` sentinel included,
    /// listed with the sentinel first, as the board legend shows them.
    pub fn all_colors() -> (colors: Vec<Color>)
        ensures
            colors@ =~= seq![
                Color::Empty,
                Color::White,
                Color::Black,
                Color::Red,
                Color::Green,
                Color::Blue,
                Color::Yellow,
            ],
    {
        let colors = vec![
            Color::Empty,
            Color::White,
            Color::Black,
            Color::Red,
            Color::Green,
            Color::Blue,
            Color::Yellow,
        ];
        colors
    }
}

/// A single board position holding one color.
#[derive(Copy, Clone, PartialEq, Eq, Structural, Debug)]
pub struct Peg {
    pub color: Color,
}

impl Peg {
    /// A fresh peg, not yet colored.
    pub fn new() -> (p: Peg)
        ensures
            p.color == Color::Empty,
    {
        Peg { color: Color::Empty }
    }
}

/// An ordered, fixed-length list of pegs: a full guess or target code.
/// Its mathematical view is the sequence of its colors.
#[derive(Debug)]
pub struct Line {
    pub pegs: Vec<Peg>,
}

impl View for Line {
    type V = Seq<Color>;

    open spec fn view(&self) -> Seq<Color> {
        self.pegs@.map_values(|p: Peg| p.color)
    }
}

impl Clone for Line {
    fn clone(&self) -> (other: Line)
        ensures
            other@ == self@,
    {
        let mut pegs: Vec<Peg> = Vec::new();
        let mut i: usize = 0;
        while i < self.pegs.len()
            invariant
                i <= self.pegs@.len(),
                pegs@ =~= self.pegs@.take(i as int),
            decreases self.pegs@.len() - i,
        {
            pegs.push(self.pegs[i]);
            i = i + 1;
        }
        proof {
            assert(pegs@ =~= self.pegs@);
            assert(Line { pegs }@ =~= self@);
        }
        Line { pegs }
    }
}

impl Line {
    /// A line of `width` empty pegs.
    pub fn empty(width: usize) -> (l: Line)
        ensures
            l@.len() == width,
            forall|i: int| 0 <= i < width ==> l@[i] == Color::Empty,
    {
        let mut pegs: Vec<Peg> = Vec::new();
        let mut i: usize = 0;
        while i < width
            invariant
                i <= width,
                pegs@.len() == i,
                forall|j: int| 0 <= j < i ==> pegs@[j].color == Color::Empty,
            decreases width - i,
        {
            pegs.push(Peg::new());
            i = i + 1;
        }
        Line { pegs }
    }

    /// A line whose colors are the given ones, in order.
    pub fn new(colors: Vec<Color>) -> (l: Line)
        ensures
            l@ == colors@,
    {
        let mut pegs: Vec<Peg> = Vec::new();
        let mut i: usize = 0;
        while i < colors.len()
            invariant
                i <= colors@.len(),
                pegs@.len() == i,
                forall|j: int| 0 <= j < i ==> pegs@[j].color == colors@[j],
            decreases colors@.len() - i,
        {
            pegs.push(Peg { color: colors[i] });
            i = i + 1;
        }
        proof {
            assert(Line { pegs }@ =~= colors@);
        }
        Line { pegs }
    }
}

/// The score of one guess against one target: `correct_position` counts
/// exact positional matches, `correct_color` counts colors present in
/// the target elsewhere and not already credited to an exact match.
#[derive(Debug, Clone, Copy, PartialEq, Eq, Structural, Hash)]
pub struct Feedback {
    pub correct_position: u8,
    pub correct_color: u8,
}

impl Feedback {
    /// The zero score.
    pub fn empty() -> (f: Feedback)
        ensures
            f.correct_position == 0,
            f.correct_color == 0,
    {
        Feedback { correct_position: 0, correct_color: 0 }
    }
}


/// The sequence of color views of a sequence of lines.
pub open spec fn lines_views(s: Seq<Line>) -> Seq<Seq<Color>> {
    s.map_values(|l: Line| l@)
}

/// A line equality test over the color views.
pub fn lines_equal(a: &Line, b: &Line) -> (r: bool)
    ensures
        r == (a@ == b@),
{
    if a.pegs.len() != b.pegs.len() {
        assert(a@.len() == a.pegs@.len());
        assert(b@.len() == b.pegs@.len());
        return false;
    }
    let n = a.pegs.len();
    let mut i: usize = 0;
    while i < n
        invariant
            i <= n,
            n == a.pegs@.len(),
            n == b.pegs@.len(),
            forall|j: int| 0 <= j < i ==> a@[j] == b@[j],
        decreases n - i,
    {
        if a.pegs[i].color != b.pegs[i].color {
            assert(a@[i as int] != b@[i as int]);
            return false;
        }
        i = i + 1;
    }
    proof {
        assert(a@ =~= b@);
    }
    true
}

/// Whether some line of `lines` has the same colors as `l`.
pub fn contains_line(lines: &Vec<Line>, l: &Line) -> (r: bool)
    ensures
        r == lines_views(lines@).contains(l@),
{
    let n = lines.len();
    let mut i: usize = 0;
    while i < n
        invariant
            i <= n,
            n == lines@.len(),
            forall|j: int| 0 <= j < i ==> lines_views(lines@)[j] != l@,
        decreases n - i,
    {
        if lines_equal(&lines[i], l) {
            assert(lines_views(lines@)[i as int] == l@);
            return true;
        }
        i = i + 1;
    }
    proof {
        if lines_views(lines@).contains(l@) {
            let j = choose|j: int|
                0 <= j < lines_views(lines@).len() && lines_views(lines@)[j] == l@;
            assert(lines_views(lines@)[j] != l@);
        }
    }
    false
}


} // verus!

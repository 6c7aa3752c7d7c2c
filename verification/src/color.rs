//! Colours: exact 8-bit RGB triples, the designer's thirteen reference
//! colours, and the nearest-reference-colour rule.

use vstd::prelude::*;

verus! {

/// An RGB colour with 8-bit channels. Two colours are equal when all three
/// channels are.
#[derive(Debug, Hash, PartialEq, Eq, Clone, Copy, Structural)]
pub struct Rgb {
    pub red: u8,
    pub green: u8,
    pub blue: u8,
}

/// The squared Euclidean distance between two colours in RGB space.
pub open spec fn distance_squared(a: Rgb, b: Rgb) -> int {
    (a.red - b.red) * (a.red - b.red) + (a.green - b.green) * (a.green - b.green) + (a.blue
        - b.blue) * (a.blue - b.blue)
}

/// The square of the gap between two channel values.
fn channel_gap_squared(a: u8, b: u8) -> (gap: u32)
    ensures
        gap == (a - b) * (a - b),
        gap <= 65025,
{
    let wide_a: u32 = a as u32;
    let wide_b: u32 = b as u32;
    let d: u32 = if wide_a >= wide_b {
        wide_a - wide_b
    } else {
        wide_b - wide_a
    };
    assert(d * d == (a - b) * (a - b)) by (nonlinear_arith)
        requires
            d == a - b || d == b - a,
    ;
    assert(d * d <= 65025) by (nonlinear_arith)
        requires
            0 <= d <= 255,
    ;
    d * d
}

impl Rgb {
    /// The colour with the given channels.
    pub fn new(r: u8, g: u8, b: u8) -> (rgb: Rgb)
        ensures
            rgb == (Rgb { red: r, green: g, blue: b }),
    {
        Rgb { red: r, green: g, blue: b }
    }

    /// The squared distance to `other`. Ordering colours by it is ordering
    /// them by their Euclidean distance.
    pub fn get_distance_squared(&self, other: &Rgb) -> (d: u32)
        ensures
            d == distance_squared(*self, *other),
            d <= 195075,
    {
        let dr: u32 = channel_gap_squared(self.red, other.red);
        let dg: u32 = channel_gap_squared(self.green, other.green);
        let db: u32 = channel_gap_squared(self.blue, other.blue);
        dr + dg + db
    }
}

/// The reference colours of the designer, in their fixed order.
#[derive(Debug, Hash, PartialEq, Eq, Clone, Copy, Structural)]
pub enum Color {
    Red,
    Orange,
    Yellow,
    YellowLight,
    White,
    Grey,
    Black,
    Brown,
    Green,
    GreenLight,
    BlueLight,
    Blue,
    Purple,
}

/// The number of reference colours.
pub const COLOR_COUNT: u8 = 13;

/// The reference colour at place `i` of the fixed order; the last one for
/// any `i` past the end.
pub open spec fn color_at(i: int) -> Color {
    if i <= 0 {
        Color::Red
    } else if i == 1 {
        Color::Orange
    } else if i == 2 {
        Color::Yellow
    } else if i == 3 {
        Color::YellowLight
    } else if i == 4 {
        Color::White
    } else if i == 5 {
        Color::Grey
    } else if i == 6 {
        Color::Black
    } else if i == 7 {
        Color::Brown
    } else if i == 8 {
        Color::Green
    } else if i == 9 {
        Color::GreenLight
    } else if i == 10 {
        Color::BlueLight
    } else if i == 11 {
        Color::Blue
    } else {
        Color::Purple
    }
}

/// The best match for `sample` among the first `n + 1` reference colours:
/// the nearest one, and of several equally near the first in the order.
pub open spec fn closest_among(sample: Rgb, n: nat) -> Color
    decreases n,
{
    if n == 0 {
        color_at(0)
    } else {
        let best = closest_among(sample, (n - 1) as nat);
        let next = color_at(n as int);
        if distance_squared(next.rgb(), sample) < distance_squared(best.rgb(), sample) {
            next
        } else {
            best
        }
    }
}

/// The reference colour that stands for `sample`.
pub open spec fn closest_match(sample: Rgb) -> Color {
    closest_among(sample, 12)
}

/// `c` is nearest to `sample`: no reference colour is nearer, and none
/// that is as near comes before it in the order.
pub open spec fn is_closest_match(c: Color, sample: Rgb) -> bool {
    forall|d: Color|
        distance_squared(c.rgb(), sample) < distance_squared(#[trigger] d.rgb(), sample) || (
        distance_squared(c.rgb(), sample) == distance_squared(d.rgb(), sample) && c.ordinal()
            <= d.ordinal())
}

impl Color {
    /// The place of the colour in the fixed order, from zero.
    pub open spec fn ordinal(self) -> nat {
        match self {
            Color::Red => 0,
            Color::Orange => 1,
            Color::Yellow => 2,
            Color::YellowLight => 3,
            Color::White => 4,
            Color::Grey => 5,
            Color::Black => 6,
            Color::Brown => 7,
            Color::Green => 8,
            Color::GreenLight => 9,
            Color::BlueLight => 10,
            Color::Blue => 11,
            Color::Purple => 12,
        }
    }

    /// The RGB value of the colour.
    pub open spec fn rgb(self) -> Rgb {
        match self {
            Color::Red => Rgb { red: 112, green: 33, blue: 22 },
            Color::Orange => Rgb { red: 150, green: 57, blue: 1 },
            Color::Yellow => Rgb { red: 187, green: 131, blue: 47 },
            Color::YellowLight => Rgb { red: 150, green: 70, blue: 50 },
            Color::White => Rgb { red: 200, green: 197, blue: 195 },
            Color::Grey => Rgb { red: 125, green: 125, blue: 125 },
            Color::Black => Rgb { red: 25, green: 22, blue: 19 },
            Color::Brown => Rgb { red: 112, green: 58, blue: 29 },
            Color::Green => Rgb { red: 31, green: 75, blue: 35 },
            Color::GreenLight => Rgb { red: 50, green: 100, blue: 55 },
            Color::BlueLight => Rgb { red: 42, green: 91, blue: 137 },
            Color::Blue => Rgb { red: 20, green: 61, blue: 100 },
            Color::Purple => Rgb { red: 87, green: 26, blue: 63 },
        }
    }

    /// The reference colour at place `i` of the fixed order; none past the
    /// end of it.
    pub fn from_ordinal(i: u8) -> (found: Option<Color>)
        ensures
            found is Some <==> i < COLOR_COUNT,
            found matches Some(c) ==> c == color_at(i as int) && c.ordinal() == i,
    {
        match i {
            0 => Some(Color::Red),
            1 => Some(Color::Orange),
            2 => Some(Color::Yellow),
            3 => Some(Color::YellowLight),
            4 => Some(Color::White),
            5 => Some(Color::Grey),
            6 => Some(Color::Black),
            7 => Some(Color::Brown),
            8 => Some(Color::Green),
            9 => Some(Color::GreenLight),
            10 => Some(Color::BlueLight),
            11 => Some(Color::Blue),
            12 => Some(Color::Purple),
            _ => None,
        }
    }

    /// Returns the RGB value of the reference colour.
    pub fn get_rgb(&self) -> (rgb: Rgb)
        ensures
            rgb == self.rgb(),
    {
        match self {
            Color::Red => Rgb::new(112, 33, 22),
            Color::Orange => Rgb::new(150, 57, 1),
            Color::Yellow => Rgb::new(187, 131, 47),
            Color::YellowLight => Rgb::new(150, 70, 50),
            Color::White => Rgb::new(200, 197, 195),
            Color::Grey => Rgb::new(125, 125, 125),
            Color::Black => Rgb::new(25, 22, 19),
            Color::Brown => Rgb::new(112, 58, 29),
            Color::Green => Rgb::new(31, 75, 35),
            Color::GreenLight => Rgb::new(50, 100, 55),
            Color::BlueLight => Rgb::new(42, 91, 137),
            Color::Blue => Rgb::new(20, 61, 100),
            Color::Purple => Rgb::new(87, 26, 63),
        }
    }

    /// Gets the reference colour nearest to `sample`; of several equally
    /// near, the first in the fixed order.
    pub fn get_closest_match(sample: Rgb) -> (c: Color)
        ensures
            c == closest_match(sample),
            is_closest_match(c, sample),
    {
        let mut best: Color = Color::Red;
        let mut best_distance: u32 = best.get_rgb().get_distance_squared(&sample);
        let mut i: u8 = 1;
        while i < COLOR_COUNT
            invariant
                1 <= i <= COLOR_COUNT,
                best == closest_among(sample, (i - 1) as nat),
                best_distance == distance_squared(best.rgb(), sample),
            decreases COLOR_COUNT - i,
        {
            if let Some(next) = Color::from_ordinal(i) {
                let next_distance: u32 = next.get_rgb().get_distance_squared(&sample);
                if next_distance < best_distance {
                    best = next;
                    best_distance = next_distance;
                }
            }
            i = i + 1;
        }
        proof {
            lemma_closest_match_is_closest(sample);
        }
        best
    }
}

/// Among the first `n + 1` reference colours, `closest_among` is one of
/// them, none of them is nearer, and none as near comes before it.
pub proof fn lemma_closest_among(sample: Rgb, n: nat)
    requires
        n <= 12,
    ensures
        closest_among(sample, n).ordinal() <= n,
        forall|j: int|
            0 <= j <= n ==> distance_squared(closest_among(sample, n).rgb(), sample)
                <= distance_squared(#[trigger] color_at(j).rgb(), sample),
        forall|j: int|
            0 <= j <= n && distance_squared(#[trigger] color_at(j).rgb(), sample)
                == distance_squared(closest_among(sample, n).rgb(), sample) ==> closest_among(
                sample,
                n,
            ).ordinal() <= j,
    decreases n,
{
    if n > 0 {
        lemma_closest_among(sample, (n - 1) as nat);
    }
}

/// The nearest reference colour, as computed, is nearest in the sense of
/// `is_closest_match`.
pub proof fn lemma_closest_match_is_closest(sample: Rgb)
    ensures
        is_closest_match(closest_match(sample), sample),
{
    lemma_closest_among(sample, 12);
    let c = closest_match(sample);
    assert forall|d: Color|
        distance_squared(c.rgb(), sample) < distance_squared(#[trigger] d.rgb(), sample) || (
        distance_squared(c.rgb(), sample) == distance_squared(d.rgb(), sample) && c.ordinal()
            <= d.ordinal()) by {
        assert(color_at(d.ordinal() as int) == d);
    }
}

/// Only one reference colour is nearest to a sample.
pub proof fn lemma_closest_match_unique(c: Color, sample: Rgb)
    requires
        is_closest_match(c, sample),
    ensures
        c == closest_match(sample),
{
    lemma_closest_match_is_closest(sample);
    let m = closest_match(sample);
    assert(distance_squared(c.rgb(), sample) <= distance_squared(m.rgb(), sample));
    assert(distance_squared(m.rgb(), sample) <= distance_squared(c.rgb(), sample));
    assert(c.ordinal() == m.ordinal());
}

/// A reference colour stands for itself: matching its own RGB value gives
/// it back.
pub proof fn lemma_reference_color_matches_itself(c: Color)
    ensures
        closest_match(c.rgb()) == c,
{
    assert forall|d: Color|
        distance_squared(c.rgb(), c.rgb()) < distance_squared(#[trigger] d.rgb(), c.rgb()) || (
        distance_squared(c.rgb(), c.rgb()) == distance_squared(d.rgb(), c.rgb()) && c.ordinal()
            <= d.ordinal()) by {
        lemma_distance_zero(d.rgb(), c.rgb());
    }
    lemma_closest_match_unique(c, c.rgb());
}

/// Distinct colours are at a positive distance.
pub proof fn lemma_distance_zero(a: Rgb, b: Rgb)
    ensures
        distance_squared(a, b) >= 0,
        distance_squared(a, b) == 0 <==> a == b,
{
    let dr = a.red - b.red;
    let dg = a.green - b.green;
    let db = a.blue - b.blue;
    assert(dr * dr >= 0 && (dr * dr == 0 <==> dr == 0)) by (nonlinear_arith);
    assert(dg * dg >= 0 && (dg * dg == 0 <==> dg == 0)) by (nonlinear_arith);
    assert(db * db >= 0 && (db * db == 0 <==> db == 0)) by (nonlinear_arith);
}

/// The possible patterns in a coat of arms.
#[derive(Debug, PartialEq, Eq, Clone, Copy, Structural)]
pub enum Pattern {
    Solid,
}

/// The possible textures for an emblem.
#[derive(Debug, PartialEq, Eq, Clone, Copy, Structural)]
pub enum Texture {
    Block,
}

} // verus!

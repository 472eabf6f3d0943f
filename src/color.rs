//! Colors with three channels in `[0, UNIT]` (fixed-point `[0, 1]`).
use vstd::prelude::*;

use crate::interpolation::{Interpolatable, Interpolation, Interpolator, UNIT};

verus! {

/// An RGB color; each channel lies in `[0, UNIT]`.
#[derive(Clone, Copy, Debug, PartialEq, Eq, Structural)]
pub struct Color {
    pub red: i64,
    pub green: i64,
    pub blue: i64,
}

/// `x` clamped into `[0, UNIT]`.
pub open spec fn clamp_channel(x: int) -> int {
    if x < 0 {
        0
    } else if x > UNIT {
        UNIT as int
    } else {
        x
    }
}

/// The sum of one channel over a sequence of colors.
pub open spec fn channel_sum(colors: Seq<Color>, channel: int) -> int
    decreases colors.len(),
{
    if colors.len() == 0 {
        0
    } else {
        channel_sum(colors.drop_last(), channel) + colors.last().channel(channel)
    }
}

fn clamp(x: i64) -> (r: i64)
    ensures
        r == clamp_channel(x as int),
{
    if x < 0 {
        0
    } else if x > UNIT {
        UNIT
    } else {
        x
    }
}

impl Color {
    /// The color with the given channels, which the caller keeps in `[0, UNIT]`.
    pub open spec fn rgb(red: int, green: int, blue: int) -> Color {
        Color { red: red as i64, green: green as i64, blue: blue as i64 }
    }

    pub fn black() -> (r: Color)
        ensures
            r == Color::rgb(0, 0, 0),
            r.wf(),
    {
        Color { red: 0, green: 0, blue: 0 }
    }

    pub fn white() -> (r: Color)
        ensures
            r == Color::rgb(UNIT as int, UNIT as int, UNIT as int),
            r.wf(),
    {
        Color { red: UNIT, green: UNIT, blue: UNIT }
    }

    pub fn red() -> (r: Color)
        ensures
            r == Color::rgb(UNIT as int, 0, 0),
            r.wf(),
    {
        Color { red: UNIT, green: 0, blue: 0 }
    }

    pub fn green() -> (r: Color)
        ensures
            r == Color::rgb(0, UNIT as int, 0),
            r.wf(),
    {
        Color { red: 0, green: UNIT, blue: 0 }
    }

    pub fn blue() -> (r: Color)
        ensures
            r == Color::rgb(0, 0, UNIT as int),
            r.wf(),
    {
        Color { red: 0, green: 0, blue: UNIT }
    }

    pub fn cyan() -> (r: Color)
        ensures
            r == Color::rgb(0, UNIT as int, UNIT as int),
            r.wf(),
    {
        Color { red: 0, green: UNIT, blue: UNIT }
    }

    pub fn magenta() -> (r: Color)
        ensures
            r == Color::rgb(UNIT as int, 0, UNIT as int),
            r.wf(),
    {
        Color { red: UNIT, green: 0, blue: UNIT }
    }

    pub fn yellow() -> (r: Color)
        ensures
            r == Color::rgb(UNIT as int, UNIT as int, 0),
            r.wf(),
    {
        Color { red: UNIT, green: UNIT, blue: 0 }
    }

    /// Every channel lies in `[0, UNIT]`.
    pub open spec fn wf(self) -> bool {
        &&& 0 <= self.red <= UNIT
        &&& 0 <= self.green <= UNIT
        &&& 0 <= self.blue <= UNIT
    }

    /// Channel 0 is red, 1 green, 2 blue.
    pub open spec fn channel(self, channel: int) -> int {
        if channel == 0 {
            self.red as int
        } else if channel == 1 {
            self.green as int
        } else {
            self.blue as int
        }
    }

    /// The color with each channel clamped into `[0, UNIT]`.
    pub open spec fn spec_new(red: int, green: int, blue: int) -> Color {
        Color {
            red: clamp_channel(red) as i64,
            green: clamp_channel(green) as i64,
            blue: clamp_channel(blue) as i64,
        }
    }

    /// The channel-wise midpoint, rounded down.
    pub open spec fn spec_mix(self, other: Color) -> Color {
        Color::spec_new(
            (self.red + other.red) / 2,
            (self.green + other.green) / 2,
            (self.blue + other.blue) / 2,
        )
    }

    /// The channel-wise mean of a non-empty sequence, rounded down.
    pub open spec fn spec_average(colors: Seq<Color>) -> Color {
        Color {
            red: (channel_sum(colors, 0) / colors.len() as int) as i64,
            green: (channel_sum(colors, 1) / colors.len() as int) as i64,
            blue: (channel_sum(colors, 2) / colors.len() as int) as i64,
        }
    }

    /// White.
    pub fn default() -> (r: Color)
        ensures
            r == Color::rgb(UNIT as int, UNIT as int, UNIT as int),
    {
        Color::white()
    }

    /// A color from three channels in millionths, each clamped into `[0, UNIT]`.
    pub fn new(red: i64, green: i64, blue: i64) -> (r: Color)
        ensures
            r == Color::spec_new(red as int, green as int, blue as int),
            r.wf(),
    {
        Color { red: clamp(red), green: clamp(green), blue: clamp(blue) }
    }

    /// The channel-wise midpoint of two colors.
    pub fn mix(&self, other: &Color) -> (r: Color)
        requires
            self.wf(),
            other.wf(),
        ensures
            r == self.spec_mix(*other),
            r.wf(),
    {
        Color::new(
            (self.red + other.red) / 2,
            (self.green + other.green) / 2,
            (self.blue + other.blue) / 2,
        )
    }

    /// The channel-wise mean of a non-empty list of colors.
    pub fn average(colors: &Vec<Color>) -> (r: Color)
        requires
            colors.len() > 0,
            forall|i: int| 0 <= i < colors.len() ==> (#[trigger] colors@[i]).wf(),
        ensures
            r == Color::spec_average(colors@),
            r.wf(),
    {
        let mut red: i128 = 0;
        let mut green: i128 = 0;
        let mut blue: i128 = 0;
        let mut i: usize = 0;
        while i < colors.len()
            invariant
                0 <= i <= colors.len(),
                forall|j: int| 0 <= j < colors.len() ==> (#[trigger] colors@[j]).wf(),
                red == channel_sum(colors@.subrange(0, i as int), 0),
                green == channel_sum(colors@.subrange(0, i as int), 1),
                blue == channel_sum(colors@.subrange(0, i as int), 2),
                0 <= red <= i * UNIT,
                0 <= green <= i * UNIT,
                0 <= blue <= i * UNIT,
            decreases colors.len() - i,
        {
            let c = colors[i];
            proof {
                let s = colors@.subrange(0, i as int + 1);
                assert(s.drop_last() =~= colors@.subrange(0, i as int));
                assert(s.last() == c);
            }
            red = red + c.red as i128;
            green = green + c.green as i128;
            blue = blue + c.blue as i128;
            i = i + 1;
        }
        assert(colors@.subrange(0, colors.len() as int) =~= colors@);
        let n = colors.len() as i128;
        proof {
            lemma_mean_bound(red as int, n as int);
            lemma_mean_bound(green as int, n as int);
            lemma_mean_bound(blue as int, n as int);
        }
        Color { red: (red / n) as i64, green: (green / n) as i64, blue: (blue / n) as i64 }
    }

    /// The channel-wise mean of a non-empty list of colors, consuming it.
    pub fn average_iterator(colors: Vec<Color>) -> (r: Color)
        requires
            colors.len() > 0,
            forall|i: int| 0 <= i < colors.len() ==> (#[trigger] colors@[i]).wf(),
        ensures
            r == Color::spec_average(colors@),
            r.wf(),
    {
        Color::average(&colors)
    }

    /// The color as 8-bit channels, each `channel * 255` rounded down.
    pub fn to_rgb(self) -> (r: [u8; 3])
        requires
            self.wf(),
        ensures
            r[0] == self.red * 255 / UNIT as int,
            r[1] == self.green * 255 / UNIT as int,
            r[2] == self.blue * 255 / UNIT as int,
    {
        proof {
            lemma_byte_bound(self.red as int);
            lemma_byte_bound(self.green as int);
            lemma_byte_bound(self.blue as int);
        }
        [
            (self.red * 255 / UNIT) as u8,
            (self.green * 255 / UNIT) as u8,
            (self.blue * 255 / UNIT) as u8,
        ]
    }
}

proof fn lemma_mean_bound(sum: int, n: int)
    requires
        n > 0,
        0 <= sum <= n * UNIT,
    ensures
        0 <= sum / n <= UNIT,
{
    assert(sum / n <= (n * UNIT) / n) by (nonlinear_arith)
        requires
            sum <= n * UNIT,
            n > 0,
    ;
    assert((n * UNIT) / n == UNIT) by (nonlinear_arith)
        requires
            n > 0,
    ;
    assert(0 <= sum / n) by (nonlinear_arith)
        requires
            0 <= sum,
            n > 0,
    ;
}

proof fn lemma_byte_bound(c: int)
    requires
        0 <= c <= UNIT,
    ensures
        0 <= c * 255 / (UNIT as int) <= 255,
{
    assert(0 <= c * 255 / 1_000_000 <= 255) by (nonlinear_arith)
        requires
            0 <= c <= 1_000_000,
    ;
}

impl Interpolatable for Color {
    open spec fn valid(&self) -> bool {
        self.wf()
    }

    /// Channel-wise interpolation, clamped into `[0, UNIT]`.
    open spec fn spec_interpolate(mode: Interpolation, r: int, a: Color, b: Color) -> Color {
        Color::spec_new(
            mode.spec_scalar(r, a.red as int, b.red as int),
            mode.spec_scalar(r, a.green as int, b.green as int),
            mode.spec_scalar(r, a.blue as int, b.blue as int),
        )
    }

    fn interpolate(&self, interpolator: &Interpolator, other: &Color) -> (r: Color) {
        let red = interpolator.interpolate_scalar(self.red as i128, other.red as i128);
        let green = interpolator.interpolate_scalar(self.green as i128, other.green as i128);
        let blue = interpolator.interpolate_scalar(self.blue as i128, other.blue as i128);
        Color::new(red as i64, green as i64, blue as i64)
    }

    proof fn lemma_full_ratio(mode: Interpolation, a: Color, b: Color) {
        crate::interpolation::lemma_scalar_full_ratio(mode, a.red as int, b.red as int);
        crate::interpolation::lemma_scalar_full_ratio(mode, a.green as int, b.green as int);
        crate::interpolation::lemma_scalar_full_ratio(mode, a.blue as int, b.blue as int);
    }
}

/// Mixing is symmetric, and mixing a color with itself gives it back.
pub proof fn lemma_mix_laws(a: Color, b: Color)
    requires
        a.wf(),
        b.wf(),
    ensures
        a.spec_mix(b) == b.spec_mix(a),
        a.spec_mix(a) == a,
        a.spec_mix(b).wf(),
{
}

/// Construction, mixing and interpolation always give channels in `[0, UNIT]`.
pub proof fn lemma_channels_in_range(
    red: int,
    green: int,
    blue: int,
    mode: Interpolation,
    r: int,
    a: Color,
    b: Color,
)
    ensures
        Color::spec_new(red, green, blue).wf(),
        a.wf() && b.wf() ==> a.spec_mix(b).wf(),
        <Color as Interpolatable>::spec_interpolate(mode, r, a, b).wf(),
{
}

} // verus!

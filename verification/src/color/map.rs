use vstd::prelude::*;

use super::rgb::Color;

verus! {

/// Maps decay values (0-255) to colors
///
/// Each map names its color for a decay value in `color_of`, and `map`
/// returns that color. The maps of this crate define `color_of` as their
/// gradient; a map written outside the verifier can define it as its own
/// `map`.
pub trait ColorMap {
    /// The color this map gives decay value `decay`.
    spec fn color_of(&self, decay: u8) -> Color;

    /// Map decay value to color
    ///
    /// # Arguments
    /// * `decay` - Decay value (0-255)
    ///   - 255 = fully alive
    ///   - 0 = fully dead
    fn map(&self, decay: u8) -> (c: Color)
        ensures
            c == self.color_of(decay),
    ;

    /// Name of the color map
    fn name(&self) -> (name: &str)
        default_ensures
            name@ == "Custom"@,
    {
        "Custom"
    }
}

/// One channel of the interpolation from `from` to `to` at `num / den`,
/// rounded down: `from + (to - from) * num / den`.
pub open spec fn lerp_channel(from: u8, to: u8, num: nat, den: nat) -> int {
    (from * den + (to - from) * num) / (den as int)
}

/// The color `num / den` of the way from `from` to `to`, each channel
/// rounded down.
pub open spec fn lerp_ratio_spec(from: Color, to: Color, num: nat, den: nat) -> Color {
    Color {
        r: lerp_channel(from.r, to.r, num, den) as u8,
        g: lerp_channel(from.g, to.g, num, den) as u8,
        b: lerp_channel(from.b, to.b, num, den) as u8,
    }
}

/// `lerp_channel` stays between its two ends.
proof fn lemma_lerp_channel_bounds(from: u8, to: u8, num: nat, den: nat)
    requires
        0 < den,
        num <= den,
    ensures
        0 <= lerp_channel(from, to, num, den) <= 255,
        from <= to ==> from <= lerp_channel(from, to, num, den) <= to,
        to <= from ==> to <= lerp_channel(from, to, num, den) <= from,
{
    let n = from * den + (to - from) * num;
    if from <= to {
        assert(from * den <= n <= to * den) by (nonlinear_arith)
            requires
                from <= to,
                num <= den,
                n == from * den + (to - from) * num,
                0 <= num,
        ;
    } else {
        assert(to * den <= n <= from * den) by (nonlinear_arith)
            requires
                to < from,
                num <= den,
                n == from * den + (to - from) * num,
                0 <= num,
        ;
    }
    let lo: int = if from <= to {
        from as int
    } else {
        to as int
    };
    let hi: int = if from <= to {
        to as int
    } else {
        from as int
    };
    assert(lo * den <= n <= hi * den);
    assert(lo <= n / (den as int) <= hi) by (nonlinear_arith)
        requires
            lo * den <= n <= hi * den,
            0 < den,
    ;
}

/// A channel `num / den` of the way from `from` to `to` is the exact
/// value `from + (to - from) * num / den` rounded down: scaled by `den`, it
/// is at most the exact value and less than one step below it.
pub proof fn lemma_lerp_channel_rounds_down(from: u8, to: u8, num: nat, den: nat)
    requires
        0 < den,
        num <= den,
    ensures
        lerp_channel(from, to, num, den) * den <= from * den + (to - from) * num,
        from * den + (to - from) * num < (lerp_channel(from, to, num, den) + 1) * den,
{
    let n = from * den + (to - from) * num;
    let q = lerp_channel(from, to, num, den);
    assert(q == n / (den as int));
    assert(q * den <= n < (q + 1) * den) by (nonlinear_arith)
        requires
            q == n / (den as int),
            den > 0,
    ;
}

/// Interpolates one channel at `num / den`, rounding down.
fn lerp_channel_exact(from: u8, to: u8, num: u32, den: u32) -> (c: u8)
    requires
        0 < den <= 0x10000,
        num <= den,
    ensures
        c == lerp_channel(from, to, num as nat, den as nat),
{
    proof {
        lemma_lerp_channel_bounds(from, to, num as nat, den as nat);
    }
    let f = from as u64;
    let t = to as u64;
    let n = num as u64;
    let d = den as u64;
    assert(f * d <= 255 * 0x10000) by (nonlinear_arith)
        requires
            f <= 255,
            d <= 0x10000,
    ;
    if from <= to {
        assert((t - f) * n <= 255 * 0x10000) by (nonlinear_arith)
            requires
                t - f <= 255,
                n <= 0x10000,
        ;
        ((f * d + (t - f) * n) / d) as u8
    } else {
        assert((f - t) * n <= f * d) by (nonlinear_arith)
            requires
                f - t <= f,
                n <= d,
        ;
        assert(f * d - (f - t) * n == from * den + (to - from) * num) by (nonlinear_arith)
            requires
                f == from,
                t == to,
                n == num,
                d == den,
        ;
        ((f * d - (f - t) * n) / d) as u8
    }
}

/// The color `num / den` of the way from `from` to `to`, each channel
/// rounded down.
pub fn lerp_ratio(from: &Color, to: &Color, num: u32, den: u32) -> (c: Color)
    requires
        0 < den <= 0x10000,
        num <= den,
    ensures
        c == lerp_ratio_spec(*from, *to, num as nat, den as nat),
{
    Color {
        r: lerp_channel_exact(from.r, to.r, num, den),
        g: lerp_channel_exact(from.g, to.g, num, den),
        b: lerp_channel_exact(from.b, to.b, num, den),
    }
}

/// Two-stop gradient: `low` at decay 0, `mid` just below the middle
/// (decay 127.5), `high` at 255. A decay below the middle is `2 * decay /
/// 255` of the way from `low` to `mid`, one above it `(2 * decay - 255) /
/// 255` of the way from `mid` to `high`.
pub open spec fn two_stop_gradient(low: Color, mid: Color, high: Color, decay: u8) -> Color {
    if 2 * decay < 255 {
        lerp_ratio_spec(low, mid, (2 * decay) as nat, 255)
    } else {
        lerp_ratio_spec(mid, high, (2 * decay - 255) as nat, 255)
    }
}

/// A two-stop gradient starts at its low color (decay 0) and ends at its
/// high color (decay 255), and every channel stays between the channels of
/// the two stops of its half.
pub proof fn lemma_two_stop_ends(low: Color, mid: Color, high: Color, decay: u8)
    ensures
        two_stop_gradient(low, mid, high, 0) == low,
        two_stop_gradient(low, mid, high, 255) == high,
        2 * decay < 255 ==> between(low, mid, two_stop_gradient(low, mid, high, decay)),
        2 * decay >= 255 ==> between(mid, high, two_stop_gradient(low, mid, high, decay)),
{
    let c = two_stop_gradient(low, mid, high, decay);
    if 2 * decay < 255 {
        let n = (2 * decay) as nat;
        lemma_lerp_channel_bounds(low.r, mid.r, n, 255);
        lemma_lerp_channel_bounds(low.g, mid.g, n, 255);
        lemma_lerp_channel_bounds(low.b, mid.b, n, 255);
    } else {
        let n = (2 * decay - 255) as nat;
        lemma_lerp_channel_bounds(mid.r, high.r, n, 255);
        lemma_lerp_channel_bounds(mid.g, high.g, n, 255);
        lemma_lerp_channel_bounds(mid.b, high.b, n, 255);
    }
    assert(two_stop_gradient(low, mid, high, 0) == low) by {
        assert(lerp_channel(low.r, mid.r, 0, 255) == low.r);
        assert(lerp_channel(low.g, mid.g, 0, 255) == low.g);
        assert(lerp_channel(low.b, mid.b, 0, 255) == low.b);
    }
    assert(two_stop_gradient(low, mid, high, 255) == high) by {
        assert(lerp_channel(mid.r, high.r, 255, 255) == high.r);
        assert(lerp_channel(mid.g, high.g, 255, 255) == high.g);
        assert(lerp_channel(mid.b, high.b, 255, 255) == high.b);
    }
}

/// Channel `v` lies between channels `a` and `b` (in either order).
pub open spec fn channel_between(a: u8, b: u8, v: u8) -> bool {
    (a <= v <= b) || (b <= v <= a)
}

/// Every channel of `c` lies between the channels of `a` and `b`.
pub open spec fn between(a: Color, b: Color, c: Color) -> bool {
    &&& channel_between(a.r, b.r, c.r)
    &&& channel_between(a.g, b.g, c.g)
    &&& channel_between(a.b, b.b, c.b)
}

/// Exact two-stop gradient (see `two_stop_gradient`).
fn two_stop(low: &Color, mid: &Color, high: &Color, decay: u8) -> (c: Color)
    ensures
        c == two_stop_gradient(*low, *mid, *high, decay),
{
    let d = decay as u32;
    if 2 * d < 255 {
        lerp_ratio(low, mid, 2 * d, 255)
    } else {
        lerp_ratio(mid, high, 2 * d - 255, 255)
    }
}

/// Tokyo Night color scheme
///
/// Deep purple → cyan → teal gradient
pub struct TokyoNight;

/// Tokyo Night: dark purple (42, 38, 80) → bright purple (187, 154, 247)
/// → cyan (125, 207, 255).
pub open spec fn tokyo_night_color(decay: u8) -> Color {
    two_stop_gradient(
        Color { r: 42, g: 38, b: 80 },
        Color { r: 187, g: 154, b: 247 },
        Color { r: 125, g: 207, b: 255 },
        decay,
    )
}

impl ColorMap for TokyoNight {
    open spec fn color_of(&self, decay: u8) -> Color {
        tokyo_night_color(decay)
    }

    fn map(&self, decay: u8) -> (c: Color)
        ensures
            c == tokyo_night_color(decay),
    {
        // Dead → mid: dark purple → bright purple; mid → alive: bright purple → cyan
        let dark_purple = Color::rgb(42, 38, 80);
        let bright_purple = Color::rgb(187, 154, 247);
        let cyan = Color::rgb(125, 207, 255);
        two_stop(&dark_purple, &bright_purple, &cyan, decay)
    }

    fn name(&self) -> (name: &str)
        ensures
            name@ == "Tokyo Night"@,
    {
        "Tokyo Night"
    }
}

/// Matrix green gradient
pub struct Matrix;

/// Matrix: black → dark green (0, 100, 0) → bright green (0, 255, 0).
pub open spec fn matrix_color(decay: u8) -> Color {
    two_stop_gradient(
        Color { r: 0, g: 0, b: 0 },
        Color { r: 0, g: 100, b: 0 },
        Color { r: 0, g: 255, b: 0 },
        decay,
    )
}

impl ColorMap for Matrix {
    open spec fn color_of(&self, decay: u8) -> Color {
        matrix_color(decay)
    }

    fn map(&self, decay: u8) -> (c: Color)
        ensures
            c == matrix_color(decay),
    {
        // Black → dark green → bright green
        let black = Color::rgb(0, 0, 0);
        let dark_green = Color::rgb(0, 100, 0);
        let bright_green = Color::rgb(0, 255, 0);
        two_stop(&black, &dark_green, &bright_green, decay)
    }

    fn name(&self) -> (name: &str)
        ensures
            name@ == "Matrix"@,
    {
        "Matrix"
    }
}

/// Ocean: Dark blue → cyan → white
pub struct Ocean;

/// Ocean: dark blue (0, 20, 40) → cyan (0, 180, 180) → white
/// (200, 240, 255).
pub open spec fn ocean_color(decay: u8) -> Color {
    two_stop_gradient(
        Color { r: 0, g: 20, b: 40 },
        Color { r: 0, g: 180, b: 180 },
        Color { r: 200, g: 240, b: 255 },
        decay,
    )
}

impl ColorMap for Ocean {
    open spec fn color_of(&self, decay: u8) -> Color {
        ocean_color(decay)
    }

    fn map(&self, decay: u8) -> (c: Color)
        ensures
            c == ocean_color(decay),
    {
        let dark_blue = Color::rgb(0, 20, 40);
        let cyan = Color::rgb(0, 180, 180);
        let white = Color::rgb(200, 240, 255);
        two_stop(&dark_blue, &cyan, &white, decay)
    }

    fn name(&self) -> (name: &str)
        ensures
            name@ == "Ocean"@,
    {
        "Ocean"
    }
}

} // verus!

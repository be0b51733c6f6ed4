//! RGBA colours, the lightening rule and the distance test that decides
//! whether two colours count as distinct.

use vstd::prelude::*;

verus! {

/// What is added to each colour channel when a colour is lightened.
pub const LIGHTEN_STEP: u8 = 8;

/// The largest squared distance at which two colours still count as close:
/// the square of the Euclidean threshold 50.
pub const CLOSE_DISTANCE_SQUARED: u32 = 2500;

/// One pixel: four 8-bit channels.
#[derive(Clone, Copy, Debug, PartialEq, Eq, Hash, Structural)]
pub struct Color {
    pub r: u8,
    pub g: u8,
    pub b: u8,
    pub a: u8,
}

/// `v + LIGHTEN_STEP`, held at 255.
pub open spec fn lightened_channel(v: u8) -> u8 {
    if v + LIGHTEN_STEP > 255 {
        255u8
    } else {
        (v + LIGHTEN_STEP) as u8
    }
}

/// The square of the difference of two channel values.
pub open spec fn channel_gap_squared(v: u8, w: u8) -> int {
    (v - w) * (v - w)
}

impl Color {
    /// Opaque white, the colour of a tile in which nothing was counted.
    pub open spec fn white() -> Color {
        Color { r: 255, g: 255, b: 255, a: 255 }
    }

    /// The lightened variant: red, green and blue raised by `LIGHTEN_STEP`
    /// and held at 255, alpha kept.
    pub open spec fn lightened(self) -> Color {
        Color {
            r: lightened_channel(self.r),
            g: lightened_channel(self.g),
            b: lightened_channel(self.b),
            a: self.a,
        }
    }

    /// The squared Euclidean distance of two colours over all four channels.
    pub open spec fn distance_squared(self, other: Color) -> int {
        channel_gap_squared(self.r, other.r) + channel_gap_squared(self.g, other.g)
            + channel_gap_squared(self.b, other.b) + channel_gap_squared(self.a, other.a)
    }

    /// Whether the Euclidean distance of the two colours exceeds 50.
    pub open spec fn distinct_from(self, other: Color) -> bool {
        self.distance_squared(other) > CLOSE_DISTANCE_SQUARED
    }

    /// The channels in the order red, green, blue, alpha.
    pub open spec fn channel_seq(self) -> Seq<u8> {
        seq![self.r, self.g, self.b, self.a]
    }

    pub fn new(r: u8, g: u8, b: u8, a: u8) -> (c: Color)
        ensures
            c == (Color { r, g, b, a }),
    {
        Color { r, g, b, a }
    }

    pub fn opaque_white() -> (c: Color)
        ensures
            c == Color::white(),
    {
        Color { r: 255, g: 255, b: 255, a: 255 }
    }

    /// Builds a colour from its channels in the order red, green, blue, alpha.
    pub fn from_channels(channels: [u8; 4]) -> (c: Color)
        ensures
            c.channel_seq() == channels@,
    {
        let c = Color { r: channels[0], g: channels[1], b: channels[2], a: channels[3] };
        assert(c.channel_seq() =~= channels@);
        c
    }

    pub fn channels(self) -> (channels: [u8; 4])
        ensures
            channels@ == self.channel_seq(),
    {
        let channels = [self.r, self.g, self.b, self.a];
        assert(channels@ =~= self.channel_seq());
        channels
    }
}

fn channel_gap(v: u8, w: u8) -> (d: u32)
    ensures
        d == channel_gap_squared(v, w),
        d <= 65025,
{
    let gap: u32 = if v >= w {
        (v - w) as u32
    } else {
        (w - v) as u32
    };
    assert(gap * gap == channel_gap_squared(v, w)) by (nonlinear_arith)
        requires
            gap == v - w || gap == w - v,
    ;
    assert(gap * gap <= 65025) by (nonlinear_arith)
        requires
            gap <= 255,
    ;
    gap * gap
}

/// Lightens a colour: red, green and blue each gain `LIGHTEN_STEP`, held at
/// 255; alpha is kept.
pub fn adjust_color(color: Color) -> (lighter: Color)
    ensures
        lighter == color.lightened(),
{
    Color {
        r: color.r.saturating_add(LIGHTEN_STEP),
        g: color.g.saturating_add(LIGHTEN_STEP),
        b: color.b.saturating_add(LIGHTEN_STEP),
        a: color.a,
    }
}

/// The squared Euclidean distance of two colours.
pub fn color_distance_squared(c1: Color, c2: Color) -> (d: u32)
    ensures
        d == c1.distance_squared(c2),
{
    channel_gap(c1.r, c2.r) + channel_gap(c1.g, c2.g) + channel_gap(c1.b, c2.b) + channel_gap(
        c1.a,
        c2.a,
    )
}

/// Whether two colours lie more than 50 apart.
pub fn is_distinct(c1: Color, c2: Color) -> (far: bool)
    ensures
        far == c1.distinct_from(c2),
{
    color_distance_squared(c1, c2) > CLOSE_DISTANCE_SQUARED
}

/// Distance is symmetric, and zero exactly between a colour and itself.
pub proof fn lemma_distance_symmetric(c1: Color, c2: Color)
    ensures
        c1.distance_squared(c2) == c2.distance_squared(c1),
        c1.distance_squared(c2) >= 0,
        c1.distance_squared(c2) == 0 <==> c1 == c2,
{
    lemma_gap(c1.r, c2.r);
    lemma_gap(c1.g, c2.g);
    lemma_gap(c1.b, c2.b);
    lemma_gap(c1.a, c2.a);
}

proof fn lemma_gap(v: u8, w: u8)
    ensures
        channel_gap_squared(v, w) == channel_gap_squared(w, v),
        channel_gap_squared(v, w) >= 0,
        channel_gap_squared(v, w) == 0 <==> v == w,
{
    let d = v - w;
    assert(d * d == (-d) * (-d)) by (nonlinear_arith);
    assert(d * d >= 0) by (nonlinear_arith);
    assert(d * d == 0 <==> d == 0) by (nonlinear_arith);
}

} // verus!

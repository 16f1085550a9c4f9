//! Colours as four 8-bit channels, and the source-over blend that the
//! compositor applies layer by layer.

use vstd::prelude::*;

verus! {

/// A colour with red, green, blue and alpha channels, each in `0..=255`.
/// Alpha 255 is opaque, alpha 0 lets everything below show through.
#[derive(Clone, Copy, Debug, PartialEq, Eq, Structural)]
pub struct Color {
    pub r: u8,
    pub g: u8,
    pub b: u8,
    pub a: u8,
}

/// A layer's opacity is a whole percentage; this is the opaque end.
pub const OPACITY_MAX: u8 = 100;

/// Two channel values closer than this many steps pass for the same value
/// when recently used colours are compared: one hundredth of the full scale
/// of 255 lies between two and three steps.
pub const CHANNEL_TOLERANCE: u8 = 2;

/// `n / d` rounded to the nearest integer, halves rounded up.
pub open spec fn round_div(n: int, d: int) -> int {
    (2 * n + d) / (2 * d)
}

/// The alpha that the upper colour contributes once the layer's opacity is
/// applied, in units of `1 / (255 * 100)`.
pub open spec fn effective_alpha(top_a: int, opacity: int) -> int {
    top_a * opacity
}

/// The alpha of the blend, in units of `1 / (255 * 255 * 100)`:
/// `ea + ba * (1 - ea)` with both alphas taken as fractions of one.
pub open spec fn blend_alpha_scaled(bottom_a: int, top_a: int, opacity: int) -> int {
    255 * effective_alpha(top_a, opacity) + bottom_a * (25500 - effective_alpha(top_a, opacity))
}

/// One colour channel of the blend before it is divided by the blend's
/// alpha, in the same units as `blend_alpha_scaled` times 255:
/// `tc * ea + bc * ba * (1 - ea)`.
pub open spec fn blend_channel_scaled(
    bottom_c: int,
    bottom_a: int,
    top_c: int,
    top_a: int,
    opacity: int,
) -> int {
    255 * top_c * effective_alpha(top_a, opacity) + bottom_c * bottom_a * (25500
        - effective_alpha(top_a, opacity))
}

/// One colour channel of the blend: the weighted channel divided by the
/// blend's alpha, rounded to the nearest of the 256 steps.
pub open spec fn blend_channel(
    bottom_c: int,
    bottom_a: int,
    top_c: int,
    top_a: int,
    opacity: int,
) -> int {
    round_div(
        blend_channel_scaled(bottom_c, bottom_a, top_c, top_a, opacity),
        blend_alpha_scaled(bottom_a, top_a, opacity),
    )
}

/// `top` laid over `bottom` by a layer of the given opacity (a percentage):
///
/// ```text
/// ea      = top.a * opacity
/// out.a   = ea + bottom.a * (1 - ea)
/// out.rgb = (top.rgb * ea + bottom.rgb * bottom.a * (1 - ea)) / out.a
/// ```
///
/// with every quantity a fraction of one, computed exactly and rounded to
/// the nearest channel step at the end. Where `out.a` is zero the result is
/// transparent black.
pub open spec fn blend(bottom: Color, top: Color, opacity: u8) -> Color {
    let alpha = blend_alpha_scaled(bottom.a as int, top.a as int, opacity as int);
    if alpha == 0 {
        Color::transparent()
    } else {
        Color {
            r: blend_channel(
                bottom.r as int,
                bottom.a as int,
                top.r as int,
                top.a as int,
                opacity as int,
            ) as u8,
            g: blend_channel(
                bottom.g as int,
                bottom.a as int,
                top.g as int,
                top.a as int,
                opacity as int,
            ) as u8,
            b: blend_channel(
                bottom.b as int,
                bottom.a as int,
                top.b as int,
                top.a as int,
                opacity as int,
            ) as u8,
            a: round_div(alpha, 25500) as u8,
        }
    }
}

/// Whether two channel values are within the tolerance of each other.
pub open spec fn channel_close(a: u8, b: u8) -> bool {
    a - b <= CHANNEL_TOLERANCE && b - a <= CHANNEL_TOLERANCE
}

impl Color {
    /// Transparent black, the colour of an empty pixel.
    pub open spec fn spec_transparent() -> Color {
        Color { r: 0, g: 0, b: 0, a: 0 }
    }

    /// Opaque black.
    pub open spec fn spec_black() -> Color {
        Color { r: 0, g: 0, b: 0, a: 255 }
    }

    /// Opaque white.
    pub open spec fn spec_white() -> Color {
        Color { r: 255, g: 255, b: 255, a: 255 }
    }

    /// Transparent black, the colour of an empty pixel.
    #[verifier::when_used_as_spec(spec_transparent)]
    pub fn transparent() -> (c: Color)
        ensures
            c == Color::spec_transparent(),
    {
        Color { r: 0, g: 0, b: 0, a: 0 }
    }

    /// Opaque black.
    #[verifier::when_used_as_spec(spec_black)]
    pub fn black() -> (c: Color)
        ensures
            c == Color::spec_black(),
    {
        Color { r: 0, g: 0, b: 0, a: 255 }
    }

    /// Opaque white.
    #[verifier::when_used_as_spec(spec_white)]
    pub fn white() -> (c: Color)
        ensures
            c == Color::spec_white(),
    {
        Color { r: 255, g: 255, b: 255, a: 255 }
    }

    /// Whether the two colours pass for the same one in the list of
    /// recently used colours: every channel within the tolerance.
    pub open spec fn close_to(self, other: Color) -> bool {
        &&& channel_close(self.r, other.r)
        &&& channel_close(self.g, other.g)
        &&& channel_close(self.b, other.b)
        &&& channel_close(self.a, other.a)
    }

    /// Whether the colour is too faint to count as a colour at all: an
    /// alpha below one hundredth of full scale.
    pub open spec fn is_faint(self) -> bool {
        self.a <= CHANNEL_TOLERANCE
    }

    /// Builds a colour from its four channels.
    pub fn new(r: u8, g: u8, b: u8, a: u8) -> (c: Color)
        ensures
            c == (Color { r, g, b, a }),
    {
        Color { r, g, b, a }
    }

    /// Decides `close_to`.
    pub fn is_close_to(&self, other: &Color) -> (close: bool)
        ensures
            close == self.close_to(*other),
    {
        channels_close(self.r, other.r) && channels_close(self.g, other.g) && channels_close(
            self.b,
            other.b,
        ) && channels_close(self.a, other.a)
    }
}

/// Decides `channel_close`.
fn channels_close(a: u8, b: u8) -> (close: bool)
    ensures
        close == channel_close(a, b),
{
    if a >= b {
        a - b <= CHANNEL_TOLERANCE
    } else {
        b - a <= CHANNEL_TOLERANCE
    }
}

/// The weighted sums of `blend` stay within the range that its rounding
/// needs: a channel never exceeds 255 times the alpha, and the alpha never
/// exceeds its full scale.
pub proof fn lemma_blend_bounds(bottom_c: int, bottom_a: int, top_c: int, top_a: int, opacity: int)
    requires
        0 <= bottom_c <= 255,
        0 <= bottom_a <= 255,
        0 <= top_c <= 255,
        0 <= top_a <= 255,
        0 <= opacity <= 100,
    ensures
        0 <= effective_alpha(top_a, opacity) <= 25500,
        0 <= blend_alpha_scaled(bottom_a, top_a, opacity) <= 255 * 25500,
        0 <= blend_channel_scaled(bottom_c, bottom_a, top_c, top_a, opacity) <= 255
            * blend_alpha_scaled(bottom_a, top_a, opacity),
        blend_alpha_scaled(bottom_a, top_a, opacity) > 0 ==> 0 <= blend_channel(
            bottom_c,
            bottom_a,
            top_c,
            top_a,
            opacity,
        ) <= 255,
        0 <= round_div(blend_alpha_scaled(bottom_a, top_a, opacity), 25500) <= 255,
{
    let e = effective_alpha(top_a, opacity);
    assert(0 <= e <= 25500) by (nonlinear_arith)
        requires
            e == top_a * opacity,
            0 <= top_a <= 255,
            0 <= opacity <= 100,
    ;
    let rest = 25500 - e;
    let alpha = blend_alpha_scaled(bottom_a, top_a, opacity);
    assert(0 <= bottom_a * rest <= 255 * rest) by (nonlinear_arith)
        requires
            0 <= bottom_a <= 255,
            0 <= rest,
    ;
    assert(alpha == 255 * e + bottom_a * rest);
    let channel = blend_channel_scaled(bottom_c, bottom_a, top_c, top_a, opacity);
    assert(0 <= 255 * top_c * e <= 255 * (255 * e)) by (nonlinear_arith)
        requires
            0 <= top_c <= 255,
            0 <= e,
    ;
    assert(0 <= bottom_c * bottom_a * rest <= 255 * (bottom_a * rest)) by (nonlinear_arith)
        requires
            0 <= bottom_c <= 255,
            0 <= bottom_a,
            0 <= rest,
    ;
    assert(channel == 255 * top_c * e + bottom_c * bottom_a * rest);
    if alpha > 0 {
        assert(0 <= (2 * channel + alpha) / (2 * alpha) <= 255) by (nonlinear_arith)
            requires
                0 <= channel <= 255 * alpha,
                alpha > 0,
        ;
    }
}

/// Lays `top` over `bottom` with the given layer opacity.
pub fn blend_color(bottom: Color, top: Color, opacity: u8) -> (out: Color)
    requires
        opacity <= OPACITY_MAX,
    ensures
        out == blend(bottom, top, opacity),
{
    let ba: u64 = bottom.a as u64;
    let ta: u64 = top.a as u64;
    proof {
        lemma_blend_bounds(bottom.r as int, ba as int, top.r as int, ta as int, opacity as int);
        lemma_blend_bounds(bottom.g as int, ba as int, top.g as int, ta as int, opacity as int);
        lemma_blend_bounds(bottom.b as int, ba as int, top.b as int, ta as int, opacity as int);
    }
    let e: u64 = ta * (opacity as u64);
    let rest: u64 = 25500 - e;
    assert(ba * rest <= 255 * 25500) by (nonlinear_arith)
        requires
            ba <= 255,
            rest <= 25500,
    ;
    let alpha: u64 = 255 * e + ba * rest;
    if alpha == 0 {
        return Color::transparent();
    }
    let r = blend_one(bottom.r, bottom.a, top.r, top.a, opacity);
    let g = blend_one(bottom.g, bottom.a, top.g, top.a, opacity);
    let b = blend_one(bottom.b, bottom.a, top.b, top.a, opacity);
    let a: u64 = (2 * alpha + 25500) / 51000;
    Color { r, g, b, a: a as u8 }
}

/// One channel of `blend_color`, for a blend whose alpha is not zero.
fn blend_one(bottom_c: u8, bottom_a: u8, top_c: u8, top_a: u8, opacity: u8) -> (out: u8)
    requires
        opacity <= OPACITY_MAX,
        blend_alpha_scaled(bottom_a as int, top_a as int, opacity as int) > 0,
    ensures
        out == blend_channel(
            bottom_c as int,
            bottom_a as int,
            top_c as int,
            top_a as int,
            opacity as int,
        ),
{
    let bc: u64 = bottom_c as u64;
    let ba: u64 = bottom_a as u64;
    let tc: u64 = top_c as u64;
    let ta: u64 = top_a as u64;
    proof {
        lemma_blend_bounds(bc as int, ba as int, tc as int, ta as int, opacity as int);
    }
    let e: u64 = ta * (opacity as u64);
    let rest: u64 = 25500 - e;
    assert(ba * rest <= 255 * 25500) by (nonlinear_arith)
        requires
            ba <= 255,
            rest <= 25500,
    ;
    let alpha: u64 = 255 * e + ba * rest;
    assert(255 * tc * e <= 255 * 255 * 25500) by (nonlinear_arith)
        requires
            tc <= 255,
            e <= 25500,
    ;
    assert(bc * ba <= 255 * 255) by (nonlinear_arith)
        requires
            bc <= 255,
            ba <= 255,
    ;
    assert(bc * ba * rest <= 255 * 255 * 25500) by (nonlinear_arith)
        requires
            bc * ba <= 255 * 255,
            rest <= 25500,
    ;
    let channel: u64 = 255 * tc * e + bc * ba * rest;
    let out: u64 = (2 * channel + alpha) / (2 * alpha);
    out as u8
}

} // verus!

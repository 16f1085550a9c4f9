//! Small numeric and colour helpers shared by the rest of the engine.

use crate::color::Color;
use vstd::prelude::*;

verus! {

/// The four bytes of a colour: red, green, blue, alpha.
pub fn color_to_rgba8(color: Color) -> (rgba: [u8; 4])
    ensures
        rgba@ == seq![color.r, color.g, color.b, color.a],
{
    let rgba = [color.r, color.g, color.b, color.a];
    assert(rgba@ =~= seq![color.r, color.g, color.b, color.a]);
    rgba
}

/// The colour of four bytes: red, green, blue, alpha.
pub fn rgba8_to_color(rgba: [u8; 4]) -> (color: Color)
    ensures
        color == (Color { r: rgba@[0], g: rgba@[1], b: rgba@[2], a: rgba@[3] }),
{
    Color { r: rgba[0], g: rgba[1], b: rgba[2], a: rgba[3] }
}

/// The value that a `u32` takes when its bits are read as an `i32`.
pub open spec fn bits_as_i32(value: u32) -> int {
    if value <= 0x7fff_ffff {
        value as int
    } else {
        value - 0x1_0000_0000
    }
}

/// The value that an `i32` takes when its bits are read as a `u32`.
pub open spec fn bits_as_u32(value: int) -> int {
    if value >= 0 {
        value
    } else {
        value + 0x1_0000_0000
    }
}

/// The larger of two integers.
pub open spec fn int_max(a: int, b: int) -> int {
    if a >= b {
        a
    } else {
        b
    }
}

/// The smaller of two integers.
pub open spec fn int_min(a: int, b: int) -> int {
    if a <= b {
        a
    } else {
        b
    }
}

/// What `clamp_u32` returns: the value is first raised to the lower bound and
/// then lowered to the upper bound, both bounds read as signed 32-bit numbers.
pub open spec fn clamp_u32_spec(value: i32, min: u32, max: u32) -> int {
    bits_as_u32(int_min(int_max(value as int, bits_as_i32(min)), bits_as_i32(max)))
}

/// Clamps a signed value into `[min, max]`.
///
/// For bounds that fit in an `i32` and `min <= max` this is the ordinary
/// clamp; `clamp_u32_spec` says what comes out in every other case.
pub fn clamp_u32(value: i32, min: u32, max: u32) -> (r: u32)
    ensures
        r == clamp_u32_spec(value, min, max),
        min <= max <= 0x7fff_ffff ==> min <= r <= max,
        min <= value <= max <= 0x7fff_ffff ==> r == value,
{
    let lo: i64 = if min <= 0x7fff_ffff {
        min as i64
    } else {
        min as i64 - 0x1_0000_0000
    };
    let hi: i64 = if max <= 0x7fff_ffff {
        max as i64
    } else {
        max as i64 - 0x1_0000_0000
    };
    let v: i64 = value as i64;
    let raised: i64 = if v >= lo {
        v
    } else {
        lo
    };
    let lowered: i64 = if raised <= hi {
        raised
    } else {
        hi
    };
    if lowered >= 0 {
        lowered as u32
    } else {
        (lowered + 0x1_0000_0000) as u32
    }
}

} // verus!

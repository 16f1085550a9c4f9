use pixel_editor::color::{blend_color, Color, CHANNEL_TOLERANCE, OPACITY_MAX};
use pixel_editor::utils::{clamp_u32, color_to_rgba8, rgba8_to_color};

#[test]
fn named_colors_have_their_channels() {
    assert_eq!(Color::transparent(), Color { r: 0, g: 0, b: 0, a: 0 });
    assert_eq!(Color::black(), Color { r: 0, g: 0, b: 0, a: 255 });
    assert_eq!(Color::white(), Color { r: 255, g: 255, b: 255, a: 255 });
    assert_eq!(Color::new(1, 2, 3, 4), Color { r: 1, g: 2, b: 3, a: 4 });
    assert_eq!(OPACITY_MAX, 100);
    assert_eq!(CHANNEL_TOLERANCE, 2);
}

#[test]
fn blend_opaque_blue_at_half_opacity_over_opaque_red() {
    let red = Color::new(255, 0, 0, 255);
    let blue = Color::new(0, 0, 255, 255);
    let out = blend_color(red, blue, 50);
    assert_eq!(out, Color::new(128, 0, 128, 255));
    assert!((out.r as i32 - 127).abs() <= 1);
    assert!((out.b as i32 - 127).abs() <= 1);
}

#[test]
fn blend_half_transparent_blue_over_opaque_red() {
    let red = Color::new(255, 0, 0, 255);
    let blue = Color::new(0, 0, 255, 128);
    assert_eq!(blend_color(red, blue, 100), Color::new(127, 0, 128, 255));
}

#[test]
fn blend_over_nothing_keeps_the_colour() {
    let c = Color::new(10, 20, 30, 255);
    assert_eq!(blend_color(Color::transparent(), c, 100), c);
    let faint = Color::new(200, 100, 50, 1);
    assert_eq!(blend_color(Color::transparent(), faint, 100), faint);
}

#[test]
fn blend_over_nothing_at_half_opacity_halves_alpha() {
    let c = Color::new(200, 100, 50, 255);
    assert_eq!(blend_color(Color::transparent(), c, 50), Color::new(200, 100, 50, 128));
}

#[test]
fn blend_of_nothing_over_nothing_is_transparent_black() {
    let odd = Color::new(9, 9, 9, 0);
    assert_eq!(blend_color(Color::transparent(), odd, 100), Color::transparent());
    assert_eq!(blend_color(odd, odd, 100), Color::transparent());
}

#[test]
fn blend_with_zero_opacity_keeps_the_bottom() {
    let bottom = Color::new(40, 50, 60, 200);
    let top = Color::new(1, 2, 3, 255);
    assert_eq!(blend_color(bottom, top, 0), bottom);
}

#[test]
fn blend_opaque_top_at_full_opacity_hides_the_bottom() {
    let bottom = Color::new(40, 50, 60, 200);
    let top = Color::new(1, 2, 3, 255);
    assert_eq!(blend_color(bottom, top, 100), top);
}

#[test]
fn colours_within_two_steps_are_close() {
    let a = Color::new(100, 100, 100, 255);
    assert!(a.is_close_to(&Color::new(102, 98, 100, 253)));
    assert!(!a.is_close_to(&Color::new(103, 100, 100, 255)));
    assert!(!a.is_close_to(&Color::new(100, 100, 100, 252)));
    assert!(a.is_close_to(&a));
}

#[test]
fn clamp_u32_clamps_into_the_range() {
    assert_eq!(clamp_u32(5, 0, 10), 5);
    assert_eq!(clamp_u32(-3, 0, 10), 0);
    assert_eq!(clamp_u32(15, 0, 10), 10);
    assert_eq!(clamp_u32(0, 0, 0), 0);
    assert_eq!(clamp_u32(7, 7, 7), 7);
}

#[test]
fn clamp_u32_with_crossed_bounds_gives_the_upper_bound() {
    assert_eq!(clamp_u32(5, 7, 3), 3);
}

#[test]
fn clamp_u32_reads_large_bounds_as_negative() {
    assert_eq!(clamp_u32(-1, 0, u32::MAX), u32::MAX);
    assert_eq!(clamp_u32(5, 0, u32::MAX), u32::MAX);
    assert_eq!(clamp_u32(i32::MIN, 0x8000_0000, 5), 0x8000_0000);
}

#[test]
fn colours_convert_to_bytes_and_back() {
    let c = Color::new(1, 2, 3, 4);
    assert_eq!(color_to_rgba8(c), [1, 2, 3, 4]);
    assert_eq!(rgba8_to_color([9, 8, 7, 6]), Color::new(9, 8, 7, 6));
    assert_eq!(rgba8_to_color(color_to_rgba8(c)), c);
}

//! One layer of the image: a row-major buffer of RGBA bytes with its
//! dimensions, visibility and opacity.

use crate::color::{Color, OPACITY_MAX};
use vstd::prelude::*;

verus! {

/// One raster surface of the image.
#[derive(Debug)]
pub struct Layer {
    pub name: String,
    /// Four bytes per pixel (red, green, blue, alpha), rows from the top.
    pub pixels: Vec<u8>,
    pub width: u32,
    pub height: u32,
    pub visible: bool,
    /// Opacity in percent, `0..=100`.
    pub opacity: u8,
}

/// The mathematical content of a `Layer`.
pub struct LayerView {
    pub name: Seq<char>,
    pub pixels: Seq<u8>,
    pub width: u32,
    pub height: u32,
    pub visible: bool,
    pub opacity: u8,
}

impl View for Layer {
    type V = LayerView;

    open spec fn view(&self) -> LayerView {
        LayerView {
            name: self.name@,
            pixels: self.pixels@,
            width: self.width,
            height: self.height,
            visible: self.visible,
            opacity: self.opacity,
        }
    }
}

/// The number of bytes that a buffer of the given dimensions holds.
pub open spec fn buffer_len(width: u32, height: u32) -> int {
    width * height * 4
}

/// The colour that four consecutive bytes of a buffer encode.
pub open spec fn color_at(pixels: Seq<u8>, offset: int) -> Color {
    Color { r: pixels[offset], g: pixels[offset + 1], b: pixels[offset + 2], a: pixels[offset + 3] }
}

/// A buffer with the four bytes from `offset` on replaced by a colour.
pub open spec fn write_color(pixels: Seq<u8>, offset: int, color: Color) -> Seq<u8> {
    pixels.update(offset, color.r).update(offset + 1, color.g).update(offset + 2, color.b).update(
        offset + 3,
        color.a,
    )
}

impl LayerView {
    /// The buffer has exactly four bytes for every pixel of the layer, and
    /// the opacity is a percentage.
    pub open spec fn wf(self) -> bool {
        &&& self.pixels.len() == buffer_len(self.width, self.height)
        &&& self.opacity <= OPACITY_MAX
    }

    /// The index of the pixel `(x, y)` in row-major order.
    pub open spec fn cell(self, x: int, y: int) -> int {
        y * self.width + x
    }

    /// Whether the layer has a pixel at `(x, y)`: the position lies within
    /// the dimensions and the buffer reaches that far.
    pub open spec fn holds(self, x: int, y: int) -> bool {
        &&& 0 <= x < self.width
        &&& 0 <= y < self.height
        &&& 4 * self.cell(x, y) + 3 < self.pixels.len()
    }

    /// The colour at `(x, y)`; transparent black where the layer has no pixel.
    pub open spec fn pixel(self, x: int, y: int) -> Color {
        if self.holds(x, y) {
            color_at(self.pixels, 4 * self.cell(x, y))
        } else {
            Color::transparent()
        }
    }

    /// The layer with the colour at `(x, y)` replaced; the layer itself
    /// where it has no pixel there.
    pub open spec fn with_pixel(self, x: int, y: int, color: Color) -> LayerView {
        if self.holds(x, y) {
            LayerView { pixels: write_color(self.pixels, 4 * self.cell(x, y), color), ..self }
        } else {
            self
        }
    }

    /// A visible, opaque layer of the given dimensions with every pixel
    /// transparent black.
    pub open spec fn blank(name: Seq<char>, width: u32, height: u32) -> LayerView {
        LayerView {
            name,
            pixels: Seq::new(buffer_len(width, height) as nat, |i: int| 0u8),
            width,
            height,
            visible: true,
            opacity: OPACITY_MAX,
        }
    }

    /// The layer with its buffer reallocated for new dimensions, every
    /// pixel transparent black; name, visibility and opacity stay.
    pub open spec fn resized(self, width: u32, height: u32) -> LayerView {
        LayerView {
            pixels: Seq::new(buffer_len(width, height) as nat, |i: int| 0u8),
            width,
            height,
            ..self
        }
    }
}

/// Within a layer's dimensions the row-major index stays below the number
/// of pixels, so a well-sized buffer holds every position.
pub proof fn lemma_cell_bound(x: int, y: int, width: int, height: int)
    requires
        0 <= x < width,
        0 <= y < height,
    ensures
        0 <= y * width + x < width * height,
        4 * (y * width + x) + 3 < width * height * 4,
{
    assert(y * width + x < width * height) by (nonlinear_arith)
        requires
            0 <= x < width,
            0 <= y < height,
    {
        assert((y + 1) * width <= height * width);
    }
    assert(0 <= y * width) by (nonlinear_arith)
        requires
            0 <= y,
            0 <= width,
    ;
}

/// Distinct positions within the width have distinct row-major indices.
pub proof fn lemma_cell_injective(x1: int, y1: int, x2: int, y2: int, width: int)
    requires
        0 <= x1 < width,
        0 <= x2 < width,
        0 <= y1,
        0 <= y2,
        y1 * width + x1 == y2 * width + x2,
    ensures
        x1 == x2,
        y1 == y2,
{
    if y1 < y2 {
        assert((y1 + 1) * width <= y2 * width) by (nonlinear_arith)
            requires
                y1 + 1 <= y2,
                0 <= width,
        ;
        assert((y1 + 1) * width == y1 * width + width) by (nonlinear_arith);
    } else if y2 < y1 {
        assert((y2 + 1) * width <= y1 * width) by (nonlinear_arith)
            requires
                y2 + 1 <= y1,
                0 <= width,
        ;
        assert((y2 + 1) * width == y2 * width + width) by (nonlinear_arith);
    }
}

impl LayerView {
    /// A well-formed layer holds exactly the positions within its dimensions.
    pub proof fn lemma_holds(self, x: int, y: int)
        requires
            self.wf(),
        ensures
            self.holds(x, y) <==> (0 <= x < self.width && 0 <= y < self.height),
    {
        if 0 <= x < self.width && 0 <= y < self.height {
            lemma_cell_bound(x, y, self.width as int, self.height as int);
        }
    }

    /// Writing a pixel changes that pixel and no other, and keeps the layer
    /// well formed.
    pub proof fn lemma_with_pixel(self, x: int, y: int, color: Color, px: int, py: int)
        ensures
            self.with_pixel(x, y, color).width == self.width,
            self.with_pixel(x, y, color).height == self.height,
            self.with_pixel(x, y, color).pixels.len() == self.pixels.len(),
            self.wf() ==> self.with_pixel(x, y, color).wf(),
            self.with_pixel(x, y, color).holds(px, py) == self.holds(px, py),
            self.with_pixel(x, y, color).pixel(px, py) == if self.holds(x, y) && px == x && py
                == y {
                color
            } else {
                self.pixel(px, py)
            },
    {
        if self.holds(x, y) && self.holds(px, py) && !(px == x && py == y) {
            if self.cell(x, y) == self.cell(px, py) {
                lemma_cell_injective(x, y, px, py, self.width as int);
            }
        }
    }
}

impl Clone for Layer {
    fn clone(&self) -> (copy: Layer)
        ensures
            copy@ == self@,
    {
        Layer {
            name: self.name.clone(),
            pixels: self.pixels.clone(),
            width: self.width,
            height: self.height,
            visible: self.visible,
            opacity: self.opacity,
        }
    }
}

impl Layer {
    /// Whether the layer's buffer matches its dimensions.
    pub open spec fn wf(&self) -> bool {
        self@.wf()
    }

    /// A visible, opaque layer with every pixel transparent black.
    pub fn new(name: String, width: u32, height: u32) -> (layer: Layer)
        requires
            buffer_len(width, height) <= usize::MAX,
        ensures
            layer@ == LayerView::blank(name@, width, height),
            layer.wf(),
    {
        let pixels = blank_buffer(width, height);
        Layer { name, pixels, width, height, visible: true, opacity: OPACITY_MAX }
    }

    /// The colour at `(x, y)`; transparent black outside the layer.
    pub fn get_pixel(&self, x: u32, y: u32) -> (color: Color)
        ensures
            color == self@.pixel(x as int, y as int),
    {
        match self.offset_of(x, y) {
            Some(index) => Color {
                r: self.pixels[index],
                g: self.pixels[index + 1],
                b: self.pixels[index + 2],
                a: self.pixels[index + 3],
            },
            None => Color::transparent(),
        }
    }

    /// Replaces the colour at `(x, y)`; does nothing outside the layer.
    pub fn set_pixel(&mut self, x: u32, y: u32, color: Color)
        ensures
            final(self)@ == old(self)@.with_pixel(x as int, y as int, color),
    {
        match self.offset_of(x, y) {
            Some(index) => {
                self.pixels[index] = color.r;
                self.pixels[index + 1] = color.g;
                self.pixels[index + 2] = color.b;
                self.pixels[index + 3] = color.a;
                assert(self.pixels@ =~= write_color(old(self).pixels@, index as int, color));
            },
            None => {},
        }
    }

    /// The raw buffer, four bytes per pixel in row-major order.
    pub fn get_pixel_buffer(&self) -> (buffer: &[u8])
        ensures
            buffer@ == self@.pixels,
    {
        self.pixels.as_slice()
    }

    /// Reallocates the buffer for new dimensions. What the layer showed is
    /// discarded: every pixel is transparent black afterwards.
    pub fn resize(&mut self, width: u32, height: u32)
        requires
            buffer_len(width, height) <= usize::MAX,
        ensures
            final(self)@ == old(self)@.resized(width, height),
            old(self).opacity <= OPACITY_MAX ==> final(self).wf(),
    {
        self.pixels = blank_buffer(width, height);
        self.width = width;
        self.height = height;
    }

    /// Makes every pixel transparent black.
    pub fn clear(&mut self)
        requires
            old(self).wf(),
        ensures
            final(self)@ == old(self)@.resized(old(self).width, old(self).height),
            final(self).wf(),
    {
        assert(self.pixels.len() == buffer_len(self.width, self.height));
        self.pixels = blank_buffer(self.width, self.height);
    }

    /// The buffer offset of the pixel at `(x, y)`, where the layer has one.
    fn offset_of(&self, x: u32, y: u32) -> (offset: Option<usize>)
        ensures
            offset is Some <==> self@.holds(x as int, y as int),
            offset matches Some(index) ==> index == 4 * self@.cell(x as int, y as int) && index + 3
                < self.pixels.len(),
    {
        if x >= self.width || y >= self.height {
            return None;
        }
        assert(y * self.width + x <= 0xffff_ffff * 0xffff_ffff + 0xffff_ffff) by (nonlinear_arith)
            requires
                y <= 0xffff_ffff,
                self.width <= 0xffff_ffff,
                x <= 0xffff_ffff,
        ;
        let cell: u64 = (y as u64) * (self.width as u64) + (x as u64);
        if cell >= (self.pixels.len() / 4) as u64 {
            return None;
        }
        Some((cell * 4) as usize)
    }
}

/// A zeroed buffer for the given dimensions.
fn blank_buffer(width: u32, height: u32) -> (pixels: Vec<u8>)
    requires
        buffer_len(width, height) <= usize::MAX,
    ensures
        pixels@ == Seq::new(buffer_len(width, height) as nat, |i: int| 0u8),
{
    assert(0 <= width * height <= width * height * 4) by (nonlinear_arith);
    let size: usize = (width as usize) * (height as usize) * 4;
    let pixels = vec![0u8; size];
    assert(pixels@ =~= Seq::new(buffer_len(width, height) as nat, |i: int| 0u8));
    pixels
}

/// One of the four bytes of a colour: red, green, blue, alpha.
pub open spec fn channel_of(color: Color, k: int) -> u8 {
    if k == 0 {
        color.r
    } else if k == 1 {
        color.g
    } else if k == 2 {
        color.b
    } else {
        color.a
    }
}

/// The buffer of an image of the given dimensions whose pixel at `(x, y)`
/// is `f(x, y)`: four bytes for every pixel, rows from the top.
pub open spec fn buffer_of(width: u32, height: u32, f: spec_fn(int, int) -> Color) -> Seq<u8> {
    Seq::new(
        buffer_len(width, height) as nat,
        |i: int| channel_of(f((i / 4) % (width as int), (i / 4) / (width as int)), i % 4),
    )
}

/// A buffer of the right length that shows `f(x, y)` at every position is
/// the buffer of `f`.
pub proof fn lemma_buffer_determined(
    pixels: Seq<u8>,
    width: u32,
    height: u32,
    f: spec_fn(int, int) -> Color,
)
    requires
        pixels.len() == buffer_len(width, height),
        forall|x: int, y: int|
            0 <= x < width && 0 <= y < height ==> color_at(pixels, 4 * (y * width + x))
                == #[trigger] f(x, y),
    ensures
        pixels == buffer_of(width, height, f),
{
    let expected = buffer_of(width, height, f);
    assert forall|i: int| 0 <= i < pixels.len() implies pixels[i] == expected[i] by {
        let w = width as int;
        let cell = i / 4;
        let k = i % 4;
        assert(width > 0) by (nonlinear_arith)
            requires
                0 <= i < width * height * 4,
        ;
        assert(cell < w * height) by (nonlinear_arith)
            requires
                cell * 4 <= i < w * height * 4,
        ;
        let x = cell % w;
        let y = cell / w;
        vstd::arithmetic::div_mod::lemma_fundamental_div_mod(cell, w);
        vstd::arithmetic::div_mod::lemma_mod_pos_bound(cell, w);
        vstd::arithmetic::div_mod::lemma_multiply_divide_lt(cell, w, height as int);
        vstd::arithmetic::div_mod::lemma_div_pos_is_pos(cell, w);
        assert(y * w == w * y) by (nonlinear_arith);
        assert(y * width + x == cell);
        assert(color_at(pixels, 4 * (y * width + x)) == f(x, y));
    }
    assert(pixels =~= expected);
}

/// The buffer of `f` shows `f(x, y)` at every position of the image.
pub proof fn lemma_buffer_of_pixel(
    width: u32,
    height: u32,
    f: spec_fn(int, int) -> Color,
    x: int,
    y: int,
)
    requires
        0 <= x < width,
        0 <= y < height,
    ensures
        buffer_of(width, height, f).len() == buffer_len(width, height),
        4 * (y * width + x) + 3 < buffer_len(width, height),
        color_at(buffer_of(width, height, f), 4 * (y * width + x)) == f(x, y),
{
    let w = width as int;
    let cell = y * w + x;
    lemma_cell_bound(x, y, w, height as int);
    assert(y * w == w * y) by (nonlinear_arith);
    vstd::arithmetic::div_mod::lemma_fundamental_div_mod_converse(cell, w, y, x);
    let buffer = buffer_of(width, height, f);
    assert(buffer[4 * cell] == channel_of(f(x, y), 0));
    assert(buffer[4 * cell + 1] == channel_of(f(x, y), 1));
    assert(buffer[4 * cell + 2] == channel_of(f(x, y), 2));
    assert(buffer[4 * cell + 3] == channel_of(f(x, y), 3));
}

} // verus!

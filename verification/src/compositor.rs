//! Compositing: the colour that the visible layers show at a pixel, and the
//! whole canvas flattened into one buffer.

use crate::color::{
    blend, blend_alpha_scaled, blend_channel, blend_channel_scaled, blend_color, effective_alpha,
    round_div, Color, OPACITY_MAX,
};
use crate::layer::{
    buffer_len, buffer_of, color_at, lemma_buffer_determined, lemma_buffer_of_pixel, Layer,
    LayerView,
};
use crate::state::{layer_fits, EditorState, EditorStateView};
use vstd::prelude::*;

verus! {

/// The colour that the lowest `count` layers show at `(x, y)`: starting
/// from transparent black, every visible layer in turn is blended over what
/// lies below it; hidden layers are passed over.
pub open spec fn composite_below(layers: Seq<LayerView>, count: int, x: int, y: int) -> Color
    decreases count,
{
    if count <= 0 {
        Color::transparent()
    } else {
        let below = composite_below(layers, count - 1, x, y);
        let layer = layers[count - 1];
        if layer.visible {
            blend(below, layer.pixel(x, y), layer.opacity)
        } else {
            below
        }
    }
}

impl EditorStateView {
    /// The colour that the canvas shows at `(x, y)`: all layers composited
    /// from the bottom up; transparent black outside the canvas.
    pub open spec fn composite(self, x: int, y: int) -> Color {
        if self.in_bounds(x, y) {
            composite_below(self.layers, self.layers.len() as int, x, y)
        } else {
            Color::transparent()
        }
    }

    /// The flattened canvas: four bytes for every pixel, row by row, each
    /// pixel the composited colour.
    pub open spec fn flattened(self) -> Seq<u8> {
        buffer_of(self.canvas_width, self.canvas_height, |x: int, y: int| self.composite(x, y))
    }

    /// The rectangle of the composited canvas that starts at `(x, y)` and
    /// is `width` by `height` pixels large, as a buffer of its own.
    pub open spec fn copied(self, x: u32, y: u32, width: u32, height: u32) -> Seq<u8> {
        buffer_of(width, height, |dx: int, dy: int| self.composite(x + dx, y + dy))
    }

    /// Every pixel of the flattened canvas is the composited colour.
    pub proof fn lemma_flattened_pixel(self, x: int, y: int)
        requires
            self.in_bounds(x, y),
        ensures
            self.flattened().len() == buffer_len(self.canvas_width, self.canvas_height),
            color_at(self.flattened(), 4 * (y * self.canvas_width + x)) == self.composite(x, y),
    {
        lemma_buffer_of_pixel(
            self.canvas_width,
            self.canvas_height,
            |x: int, y: int| self.composite(x, y),
            x,
            y,
        );
    }
}

/// A colour with some alpha, laid over nothing by a fully opaque layer,
/// stays as it is; a colour without alpha becomes transparent black.
pub proof fn lemma_blend_over_nothing(top: Color)
    ensures
        blend(Color::transparent(), top, OPACITY_MAX) == if top.a == 0 {
            Color::transparent()
        } else {
            top
        },
{
    let alpha = blend_alpha_scaled(0, top.a as int, 100);
    assert(effective_alpha(top.a as int, 100) == top.a * 100);
    assert(alpha == 25500 * top.a);
    if top.a != 0 {
        lemma_channel_over_nothing(top.r as int, top.a as int);
        lemma_channel_over_nothing(top.g as int, top.a as int);
        lemma_channel_over_nothing(top.b as int, top.a as int);
        assert((51000 * top.a + 25500) / 51000 == top.a);
        assert(round_div(alpha, 25500) == (2 * alpha + 25500) / 51000);
        assert(round_div(alpha, 25500) == top.a);
    }
}

/// One channel of a colour laid over nothing by a fully opaque layer.
proof fn lemma_channel_over_nothing(c: int, a: int)
    requires
        0 <= c <= 255,
        0 < a <= 255,
    ensures
        blend_channel(0, 0, c, a, 100) == c,
{
    let alpha = blend_alpha_scaled(0, a, 100);
    let channel = blend_channel_scaled(0, 0, c, a, 100);
    assert(effective_alpha(a, 100) == a * 100);
    assert(alpha == 25500 * a);
    assert(channel == c * alpha) by (nonlinear_arith)
        requires
            channel == 255 * c * (a * 100) + 0 * 0 * (25500 - a * 100),
            alpha == 25500 * a,
    ;
    assert((2 * (c * alpha) + alpha) / (2 * alpha) == c) by (nonlinear_arith)
        requires
            alpha > 0,
            c >= 0,
    {
        assert(2 * (c * alpha) + alpha == c * (2 * alpha) + alpha);
        assert(0 <= alpha < 2 * alpha);
    }
}

/// A canvas of a single visible, fully opaque layer shows that layer's
/// pixels: every pixel with some alpha as it is, and transparent black where
/// the layer's pixel has no alpha.
pub proof fn lemma_single_layer_composite(state: EditorStateView, x: int, y: int)
    requires
        state.layers.len() == 1,
        state.layers[0].visible,
        state.layers[0].opacity == OPACITY_MAX,
        state.in_bounds(x, y),
    ensures
        state.composite(x, y) == if state.layers[0].pixel(x, y).a == 0 {
            Color::transparent()
        } else {
            state.layers[0].pixel(x, y)
        },
{
    reveal_with_fuel(composite_below, 2);
    lemma_blend_over_nothing(state.layers[0].pixel(x, y));
}

/// A canvas of a single visible, fully opaque layer flattens to that
/// layer's buffer, byte for byte, provided that the layer's pixels without
/// alpha are transparent black.
pub proof fn lemma_single_layer_flattened(state: EditorStateView)
    requires
        state.wf(),
        state.layers.len() == 1,
        state.layers[0].visible,
        state.layers[0].opacity == OPACITY_MAX,
        forall|x: int, y: int|
            state.in_bounds(x, y) && (#[trigger] state.layers[0].pixel(x, y)).a == 0
                ==> state.layers[0].pixel(x, y) == Color::transparent(),
    ensures
        state.flattened() == state.layers[0].pixels,
{
    let layer = state.layers[0];
    let f = |x: int, y: int| state.composite(x, y);
    assert(layer_fits(state.layers[0], state.canvas_width, state.canvas_height));
    assert forall|x: int, y: int|
        0 <= x < state.canvas_width && 0 <= y < state.canvas_height implies color_at(
        layer.pixels,
        4 * (y * state.canvas_width + x),
    ) == #[trigger] f(x, y) by {
        layer.lemma_holds(x, y);
        lemma_single_layer_composite(state, x, y);
        assert(layer.pixel(x, y).a == 0 ==> layer.pixel(x, y) == Color::transparent());
    }
    lemma_buffer_determined(layer.pixels, state.canvas_width, state.canvas_height, f);
}

impl EditorState {
    /// The colour that the canvas shows at `(x, y)`: all visible layers
    /// blended from the bottom up; transparent black outside the canvas.
    pub fn get_pixel(&self, x: u32, y: u32) -> (color: Color)
        requires
            self.wf(),
        ensures
            color == self@.composite(x as int, y as int),
    {
        if x >= self.canvas_width || y >= self.canvas_height {
            return Color::transparent();
        }
        let mut result = Color::transparent();
        let mut i: usize = 0;
        while i < self.layers.len()
            invariant
                i <= self.layers.len(),
                self.wf(),
                result == composite_below(self@.layers, i as int, x as int, y as int),
            decreases self.layers.len() - i,
        {
            let layer = &self.layers[i];
            proof {
                assert(layer@ == self@.layers[i as int]);
                assert(layer_fits(self@.layers[i as int], self.canvas_width, self.canvas_height));
            }
            if layer.visible {
                let pixel = layer.get_pixel(x, y);
                result = blend_color(result, pixel, layer.opacity);
            }
            i += 1;
        }
        result
    }

    /// The whole canvas flattened into one buffer of four bytes per pixel,
    /// row by row, as an export needs it. The layers are laid on one after
    /// the other over the full buffer; every pixel comes out as `get_pixel`
    /// gives it.
    pub fn flatten(&self) -> (image: Vec<u8>)
        requires
            self.wf(),
        ensures
            image@ == self@.flattened(),
    {
        let width = self.canvas_width;
        let height = self.canvas_height;
        proof {
            assert(layer_fits(self@.layers[0], width, height));
            assert(self.layers@[0].pixels.len() == buffer_len(width, height));
        }
        let mut canvas = Layer::new(String::new(), width, height);
        proof {
            assert forall|px: int, py: int| #[trigger]
                canvas@.pixel(px, py) == Color::transparent() by {
                if canvas@.holds(px, py) {
                }
            }
        }
        let mut k: usize = 0;
        while k < self.layers.len()
            invariant
                k <= self.layers.len(),
                self.wf(),
                width == self.canvas_width,
                height == self.canvas_height,
                canvas.wf(),
                canvas.width == width,
                canvas.height == height,
                forall|px: int, py: int| #[trigger]
                    canvas@.pixel(px, py) == if self@.in_bounds(px, py) {
                        composite_below(self@.layers, k as int, px, py)
                    } else {
                        Color::transparent()
                    },
            decreases self.layers.len() - k,
        {
            let layer = &self.layers[k];
            proof {
                assert(layer@ == self@.layers[k as int]);
                assert(layer_fits(self@.layers[k as int], width, height));
            }
            if layer.visible {
                let ghost below = canvas@;
                let mut y: u32 = 0;
                while y < height
                    invariant
                        y <= height,
                        self.wf(),
                        k < self.layers.len(),
                        layer@ == self@.layers[k as int],
                        layer.visible,
                        layer.opacity <= OPACITY_MAX,
                        width == self.canvas_width,
                        height == self.canvas_height,
                        canvas.wf(),
                        canvas.width == width,
                        canvas.height == height,
                        forall|px: int, py: int| #[trigger]
                            below.pixel(px, py) == if self@.in_bounds(px, py) {
                                composite_below(self@.layers, k as int, px, py)
                            } else {
                                Color::transparent()
                            },
                        forall|px: int, py: int| #[trigger]
                            canvas@.pixel(px, py) == if self@.in_bounds(px, py) && py < y {
                                blend(below.pixel(px, py), layer@.pixel(px, py), layer.opacity)
                            } else {
                                below.pixel(px, py)
                            },
                    decreases height - y,
                {
                    let mut x: u32 = 0;
                    while x < width
                        invariant
                            x <= width,
                            y < height,
                            layer.opacity <= OPACITY_MAX,
                            width == self.canvas_width,
                            height == self.canvas_height,
                            canvas.wf(),
                            canvas.width == width,
                            canvas.height == height,
                            forall|px: int, py: int| #[trigger]
                                canvas@.pixel(px, py) == if self@.in_bounds(px, py) && (py < y
                                    || (py == y && px < x)) {
                                    blend(below.pixel(px, py), layer@.pixel(px, py), layer.opacity)
                                } else {
                                    below.pixel(px, py)
                                },
                        decreases width - x,
                    {
                        let bottom = canvas.get_pixel(x, y);
                        let top = layer.get_pixel(x, y);
                        let out = blend_color(bottom, top, layer.opacity);
                        let ghost before = canvas@;
                        canvas.set_pixel(x, y, out);
                        proof {
                            before.lemma_holds(x as int, y as int);
                            assert forall|px: int, py: int| #[trigger]
                                canvas@.pixel(px, py) == if self@.in_bounds(px, py) && (py < y
                                    || (py == y && px < x + 1)) {
                                    blend(below.pixel(px, py), layer@.pixel(px, py), layer.opacity)
                                } else {
                                    below.pixel(px, py)
                                } by {
                                before.lemma_with_pixel(x as int, y as int, out, px, py);
                                assert(before.pixel(px, py) == if self@.in_bounds(px, py) && (py < y
                                    || (py == y && px < x)) {
                                    blend(below.pixel(px, py), layer@.pixel(px, py), layer.opacity)
                                } else {
                                    below.pixel(px, py)
                                });
                            }
                        }
                        x += 1;
                    }
                    y += 1;
                }
            }
            k += 1;
        }
        proof {
            let view = self@;
            let f = |x: int, y: int| view.composite(x, y);
            assert forall|x: int, y: int| 0 <= x < width && 0 <= y < height implies color_at(
                canvas.pixels@,
                4 * (y * width + x),
            ) == #[trigger] f(x, y) by {
                canvas@.lemma_holds(x, y);
                assert(canvas@.pixel(x, y) == composite_below(
                    self@.layers,
                    self.layers.len() as int,
                    x,
                    y,
                ));
            }
            lemma_buffer_determined(canvas.pixels@, width, height, f);
        }
        canvas.pixels
    }
}

} // verus!

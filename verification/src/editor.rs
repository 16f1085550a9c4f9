//! Building an editor state and changing its layers and settings.

use crate::color::{Color, OPACITY_MAX};
use crate::history::History;
use crate::layer::{buffer_len, Layer};
use crate::message::ExportFormat;
use crate::state::{
    add_used, is_used, layer_fits, layers_fit, used_colors_wf, EditorState, EditorStateView, Tool, BRUSH_SIZE_MAX, BRUSH_SIZE_MIN, DEFAULT_CANVAS_SIZE, USED_COLORS_LIMIT, ZOOM_MAX, ZOOM_MIN,
};
use vstd::prelude::*;

verus! {

/// Whether a buffer for the given dimensions can be indexed by a `usize`.
pub fn buffer_fits(width: u32, height: u32) -> (fits: bool)
    ensures
        fits == (buffer_len(width, height) <= usize::MAX),
{
    assert(width * height <= 0xffff_ffff * 0xffff_ffff) by (nonlinear_arith)
        requires
            width <= 0xffff_ffff,
            height <= 0xffff_ffff,
    ;
    let cells: u64 = (width as u64) * (height as u64);
    cells <= (usize::MAX as u64) / 4
}

/// Whether a buffer of the given length has four bytes for every pixel of
/// the given dimensions.
pub fn buffer_matches(len: usize, width: u32, height: u32) -> (matches: bool)
    ensures
        matches == (len == buffer_len(width, height)),
{
    if !buffer_fits(width, height) {
        return false;
    }
    assert(0 <= width * height <= width * height * 4) by (nonlinear_arith);
    len == (width as usize) * (height as usize) * 4
}

/// Decides `used_colors_wf`.
fn used_colors_ok(colors: &Vec<Color>) -> (ok: bool)
    ensures
        ok == used_colors_wf(colors@),
{
    if colors.len() > USED_COLORS_LIMIT {
        return false;
    }
    let mut j: usize = 0;
    while j < colors.len()
        invariant
            j <= colors.len(),
            colors.len() <= USED_COLORS_LIMIT,
            forall|a: int, b: int|
                0 <= a < b < j ==> !(#[trigger] colors@[a]).close_to(#[trigger] colors@[b]),
        decreases colors.len() - j,
    {
        let mut i: usize = 0;
        while i < j
            invariant
                i <= j < colors.len(),
                forall|a: int| 0 <= a < i ==> !(#[trigger] colors@[a]).close_to(colors@[j as int]),
            decreases j - i,
        {
            if colors[i].is_close_to(&colors[j]) {
                return false;
            }
            i += 1;
        }
        j += 1;
    }
    true
}

impl Default for EditorState {
    /// A new document on the default canvas of 32 by 32 pixels.
    fn default() -> (state: EditorState)
        ensures
            state@ == EditorStateView::new(DEFAULT_CANVAS_SIZE, DEFAULT_CANVAS_SIZE),
            state.wf(),
    {
        EditorState::new(DEFAULT_CANVAS_SIZE, DEFAULT_CANVAS_SIZE)
    }
}

impl EditorState {
    /// The state's invariant; see `EditorStateView::wf`.
    pub open spec fn wf(&self) -> bool {
        self@.wf()
    }

    /// Decides whether the state is well formed. A state made by `new` and
    /// changed only by the editor's operations always is; one whose fields
    /// were written from outside may not be.
    pub fn is_well_formed(&self) -> (ok: bool)
        ensures
            ok == self.wf(),
    {
        if self.layers.len() < 1 || self.active_layer_index >= self.layers.len() {
            return false;
        }
        let mut i: usize = 0;
        while i < self.layers.len()
            invariant
                i <= self.layers.len(),
                forall|j: int|
                    0 <= j < i ==> layer_fits(
                        #[trigger] self@.layers[j],
                        self.canvas_width,
                        self.canvas_height,
                    ),
            decreases self.layers.len() - i,
        {
            let layer = &self.layers[i];
            proof {
                assert(layer@ == self@.layers[i as int]);
            }
            if layer.width != self.canvas_width || layer.height != self.canvas_height
                || layer.opacity > OPACITY_MAX || !buffer_matches(
                layer.pixels.len(),
                layer.width,
                layer.height,
            ) {
                proof {
                    assert(!layer_fits(
                        self@.layers[i as int],
                        self.canvas_width,
                        self.canvas_height,
                    ));
                }
                return false;
            }
            i += 1;
        }
        if self.brush_size < BRUSH_SIZE_MIN || self.brush_size > BRUSH_SIZE_MAX {
            return false;
        }
        if self.zoom_level < ZOOM_MIN || self.zoom_level > ZOOM_MAX {
            return false;
        }
        if self.history.current_index > self.history.commands.len() || self.history.commands.len()
            > crate::history::HISTORY_LIMIT {
            return false;
        }
        match self.selection {
            Some(s) => {
                let low: i64 = -0x8000_0000;
                let high: i64 = 0xffff_ffff;
                if s.x < low || s.x > high || s.y < low || s.y > high {
                    return false;
                }
                if s.width < low - s.x || s.width > high - s.x || s.height < low - s.y
                    || s.height > high - s.y {
                    return false;
                }
            },
            None => {},
        }
        match &self.clipboard {
            Some(data) => {
                if !buffer_matches(data.pixels.len(), data.width, data.height) {
                    return false;
                }
            },
            None => {},
        }
        used_colors_ok(&self.used_colors)
    }

    /// A new document with one blank layer of the given size.
    pub fn new(width: u32, height: u32) -> (state: EditorState)
        requires
            buffer_len(width, height) <= usize::MAX,
        ensures
            state@ == EditorStateView::new(width, height),
            state.wf(),
    {
        let mut layers: Vec<Layer> = Vec::new();
        layers.push(Layer::new("Layer 1".to_owned(), width, height));
        let mut used_colors: Vec<Color> = Vec::new();
        used_colors.push(Color::black());
        used_colors.push(Color::white());
        let state = EditorState {
            canvas_width: width,
            canvas_height: height,
            current_tool: Tool::Pencil,
            primary_color: Color::black(),
            secondary_color: Color::white(),
            brush_size: 1,
            zoom_level: 8,
            grid_visible: true,
            layers,
            active_layer_index: 0,
            history: History::new(),
            selection: None,
            clipboard: None,
            is_drawing: false,
            last_pixel: None,
            selected_export_format: ExportFormat::Png,
            is_selecting: false,
            mirror_horizontal: false,
            mirror_vertical: false,
            used_colors,
        };
        proof {
            assert(state@.layers =~= EditorStateView::new(width, height).layers);
            assert(state@.used_colors =~= EditorStateView::new(width, height).used_colors);
            assert(!Color::black().close_to(Color::white()));
        }
        state
    }

    /// The active layer, where the active index names one.
    pub fn active_layer(&self) -> (layer: Option<&Layer>)
        ensures
            layer is Some == (self.active_layer_index < self.layers.len()),
            layer matches Some(l) ==> l@ == self@.active_layer(),
    {
        if self.active_layer_index < self.layers.len() {
            Some(&self.layers[self.active_layer_index])
        } else {
            None
        }
    }

    /// The active layer for writing, where the active index names one.
    /// Whatever is written to it is written to the state's layer and to
    /// nothing else; it is the writer's to keep the layer as large as the
    /// canvas.
    pub fn active_layer_mut(&mut self) -> (layer: Option<&mut Layer>)
        ensures
            layer is Some == (old(self).active_layer_index < old(self).layers.len()),
            layer matches Some(l) ==> *l == old(self).layers@[old(self).active_layer_index as int]
                && *final(self) == (EditorState {
                layers: final(self).layers,
                ..*old(self)
            }) && final(self).layers@ == old(self).layers@.update(
                old(self).active_layer_index as int,
                *final(l),
            ),
            layer is None ==> *final(self) == *old(self),
    {
        if self.active_layer_index < self.layers.len() {
            Some(&mut self.layers[self.active_layer_index])
        } else {
            None
        }
    }

    /// Notes that a colour was used. Colours with next to no alpha are not
    /// kept, nor one that passes for a colour already in the list; beyond
    /// 32 colours the oldest is dropped.
    pub fn add_used_color(&mut self, color: Color)
        requires
            old(self).wf(),
        ensures
            final(self)@ == old(self)@.add_used_color(color),
            final(self).wf(),
    {
        if color.a <= crate::color::CHANNEL_TOLERANCE {
            return ;
        }
        let mut i: usize = 0;
        while i < self.used_colors.len()
            invariant
                i <= self.used_colors.len(),
                *self == *old(self),
                old(self).wf(),
                forall|j: int| 0 <= j < i ==> !(#[trigger] self.used_colors@[j]).close_to(color),
            decreases self.used_colors.len() - i,
        {
            if self.used_colors[i].is_close_to(&color) {
                return ;
            }
            i += 1;
        }
        assert(!is_used(self.used_colors@, color));
        self.used_colors.push(color);
        if self.used_colors.len() > USED_COLORS_LIMIT {
            let _ = self.used_colors.remove(0);
        }
        proof {
            assert(self.used_colors@ =~= add_used(old(self).used_colors@, color));
            lemma_add_used_wf(old(self).used_colors@, color);
        }
    }

    /// Sets a pixel of the active layer and notes the colour as used.
    pub fn set_pixel(&mut self, x: u32, y: u32, color: Color)
        requires
            old(self).wf(),
        ensures
            final(self)@ == old(self)@.set_pixel(x as int, y as int, color),
            final(self).wf(),
    {
        let index = self.active_layer_index;
        self.layers[index].set_pixel(x, y, color);
        proof {
            let before = old(self)@.active_layer();
            let after = before.with_pixel(x as int, y as int, color);
            before.lemma_with_pixel(x as int, y as int, color, 0, 0);
            assert(self@.layers =~= old(self)@.layers.update(index as int, after));
            assert(layers_fit(self@.layers, self.canvas_width, self.canvas_height)) by {
                assert forall|i: int| 0 <= i < self@.layers.len() implies layer_fits(
                    #[trigger] self@.layers[i],
                    self.canvas_width,
                    self.canvas_height,
                ) by {
                    assert(layer_fits(old(self)@.layers[i], self.canvas_width, self.canvas_height));
                }
            }
        }
        self.add_used_color(color);
    }

    /// Puts a new blank layer on top and makes it the active one.
    pub fn add_layer(&mut self, name: String)
        requires
            old(self).wf(),
        ensures
            final(self)@ == old(self)@.add_layer(name@),
            final(self).wf(),
    {
        proof {
            assert(layer_fits(self@.layers[0], self.canvas_width, self.canvas_height));
            assert(self.layers@[0].pixels.len() == buffer_len(
                self.canvas_width,
                self.canvas_height,
            ));
        }
        let layer = Layer::new(name, self.canvas_width, self.canvas_height);
        self.layers.push(layer);
        self.active_layer_index = self.layers.len() - 1;
        proof {
            assert(self@.layers =~= old(self)@.add_layer(name@).layers);
            assert forall|i: int| 0 <= i < self@.layers.len() implies layer_fits(
                #[trigger] self@.layers[i],
                self.canvas_width,
                self.canvas_height,
            ) by {
                if i < old(self)@.layers.len() {
                    assert(layer_fits(old(self)@.layers[i], self.canvas_width, self.canvas_height));
                }
            }
        }
    }

    /// Removes a layer. The only layer stays, and an index that names no
    /// layer changes nothing.
    pub fn delete_layer(&mut self, index: usize)
        requires
            old(self).wf(),
        ensures
            final(self)@ == old(self)@.delete_layer(index),
            final(self).wf(),
    {
        if self.layers.len() > 1 && index < self.layers.len() {
            let _ = self.layers.remove(index);
            if self.active_layer_index >= self.layers.len() {
                self.active_layer_index = self.layers.len() - 1;
            }
            proof {
                assert(self@.layers =~= old(self)@.layers.remove(index as int));
                assert forall|i: int| 0 <= i < self@.layers.len() implies layer_fits(
                    #[trigger] self@.layers[i],
                    self.canvas_width,
                    self.canvas_height,
                ) by {
                    if i < index {
                        assert(layer_fits(
                            old(self)@.layers[i],
                            self.canvas_width,
                            self.canvas_height,
                        ));
                    } else {
                        assert(layer_fits(
                            old(self)@.layers[i + 1],
                            self.canvas_width,
                            self.canvas_height,
                        ));
                    }
                }
            }
        }
    }

    /// Moves a layer to another place in the stack; see
    /// `EditorStateView::move_layer` for what becomes of the active index.
    pub fn move_layer(&mut self, from: usize, to: usize)
        requires
            old(self).wf(),
        ensures
            final(self)@ == old(self)@.move_layer(from, to),
            final(self).wf(),
    {
        if from < self.layers.len() && to < self.layers.len() {
            let layer = self.layers.remove(from);
            self.layers.insert(to, layer);
            if self.active_layer_index == from {
                self.active_layer_index = to;
            } else if self.active_layer_index == to && from < to {
                self.active_layer_index -= 1;
            } else if self.active_layer_index == to && from > to {
                self.active_layer_index += 1;
            }
            proof {
                let moved = old(self)@.layers.remove(from as int).insert(
                    to as int,
                    old(self)@.layers[from as int],
                );
                assert(self@.layers =~= moved);
                assert forall|i: int| 0 <= i < self@.layers.len() implies layer_fits(
                    #[trigger] self@.layers[i],
                    self.canvas_width,
                    self.canvas_height,
                ) by {
                    let source = if i == to {
                        from as int
                    } else {
                        let j = if i < to {
                            i
                        } else {
                            i - 1
                        };
                        if j < from {
                            j
                        } else {
                            j + 1
                        }
                    };
                    assert(self@.layers[i] == old(self)@.layers[source]);
                    assert(layer_fits(
                        old(self)@.layers[source],
                        self.canvas_width,
                        self.canvas_height,
                    ));
                }
            }
        }
    }

    /// Shows a hidden layer and hides a shown one.
    pub fn toggle_layer_visibility(&mut self, index: usize)
        requires
            old(self).wf(),
        ensures
            final(self)@ == old(self)@.toggle_layer_visibility(index),
            final(self).wf(),
    {
        if index < self.layers.len() {
            let visible = self.layers[index].visible;
            self.layers[index].visible = !visible;
            proof {
                self.lemma_layer_replaced(*old(self), index);
            }
        }
    }

    /// Makes another layer the active one.
    pub fn select_layer(&mut self, index: usize)
        requires
            old(self).wf(),
        ensures
            final(self)@ == old(self)@.select_layer(index),
            final(self).wf(),
    {
        if index < self.layers.len() {
            self.active_layer_index = index;
        }
    }

    /// Sets a layer's opacity in percent; more than 100 counts as 100.
    pub fn set_layer_opacity(&mut self, index: usize, opacity: u8)
        requires
            old(self).wf(),
        ensures
            final(self)@ == old(self)@.set_layer_opacity(index, opacity),
            final(self).wf(),
    {
        if index < self.layers.len() {
            self.layers[index].opacity = if opacity > OPACITY_MAX {
                OPACITY_MAX
            } else {
                opacity
            };
            proof {
                self.lemma_layer_replaced(*old(self), index);
            }
        }
    }

    /// Renames a layer; an empty name is not taken.
    pub fn rename_layer(&mut self, index: usize, name: String)
        requires
            old(self).wf(),
        ensures
            final(self)@ == old(self)@.rename_layer(index, name@),
            final(self).wf(),
    {
        if index < self.layers.len() && !name.as_str().is_empty() {
            self.layers[index].name = name;
            proof {
                self.lemma_layer_replaced(*old(self), index);
            }
        }
    }

    /// Gives the canvas new dimensions and reallocates every layer for
    /// them; what the layers showed is discarded. Dimensions too large for
    /// a buffer change nothing.
    pub fn resize_canvas(&mut self, width: u32, height: u32)
        requires
            old(self).wf(),
        ensures
            final(self)@ == old(self)@.resize_canvas(width, height),
            final(self).wf(),
    {
        if !buffer_fits(width, height) {
            return ;
        }
        self.canvas_width = width;
        self.canvas_height = height;
        let mut i: usize = 0;
        while i < self.layers.len()
            invariant
                i <= self.layers.len(),
                self.layers.len() == old(self).layers.len(),
                buffer_len(width, height) <= usize::MAX,
                forall|j: int|
                    0 <= j < i ==> (#[trigger] self.layers@[j])@ == old(self).layers@[j]@.resized(
                        width,
                        height,
                    ),
                forall|j: int|
                    i <= j < self.layers.len() ==> #[trigger] self.layers@[j] == old(
                        self,
                    ).layers@[j],
                self.canvas_width == width,
                self.canvas_height == height,
                self.current_tool == old(self).current_tool,
                self.primary_color == old(self).primary_color,
                self.secondary_color == old(self).secondary_color,
                self.brush_size == old(self).brush_size,
                self.zoom_level == old(self).zoom_level,
                self.grid_visible == old(self).grid_visible,
                self.active_layer_index == old(self).active_layer_index,
                self.history == old(self).history,
                self.selection == old(self).selection,
                self.clipboard == old(self).clipboard,
                self.is_drawing == old(self).is_drawing,
                self.last_pixel == old(self).last_pixel,
                self.selected_export_format == old(self).selected_export_format,
                self.is_selecting == old(self).is_selecting,
                self.mirror_horizontal == old(self).mirror_horizontal,
                self.mirror_vertical == old(self).mirror_vertical,
                self.used_colors == old(self).used_colors,
            decreases self.layers.len() - i,
        {
            self.layers[i].resize(width, height);
            i += 1;
        }
        proof {
            assert(self@.layers =~= old(self)@.resize_canvas(width, height).layers);
            assert forall|j: int| 0 <= j < self@.layers.len() implies layer_fits(
                #[trigger] self@.layers[j],
                width,
                height,
            ) by {
                assert(layer_fits(
                    old(self)@.layers[j],
                    old(self).canvas_width,
                    old(self).canvas_height,
                ));
            }
        }
    }

    /// Makes every pixel of every layer transparent black.
    pub fn clear_canvas(&mut self)
        requires
            old(self).wf(),
        ensures
            final(self)@ == old(self)@.clear_canvas(),
            final(self).wf(),
    {
        proof {
            assert(layer_fits(self@.layers[0], self.canvas_width, self.canvas_height));
            assert(self.layers@[0].pixels.len() == buffer_len(
                self.canvas_width,
                self.canvas_height,
            ));
            assert forall|j: int| 0 <= j < self@.layers.len() implies old(self)@.clear_canvas().layers[j]
                == old(self)@.resize_canvas(self.canvas_width, self.canvas_height).layers[j] by {
                assert(layer_fits(self@.layers[j], self.canvas_width, self.canvas_height));
            }
            assert(old(self)@.clear_canvas().layers =~= old(self)@.resize_canvas(
                self.canvas_width,
                self.canvas_height,
            ).layers);
        }
        self.resize_canvas(self.canvas_width, self.canvas_height);
    }

    /// Sets the brush size, brought into `1..=20`.
    pub fn set_brush_size(&mut self, size: u32)
        requires
            old(self).wf(),
        ensures
            final(self)@ == old(self)@.set_brush_size(size),
            final(self).wf(),
    {
        self.brush_size = if size < BRUSH_SIZE_MIN {
            BRUSH_SIZE_MIN
        } else if size > BRUSH_SIZE_MAX {
            BRUSH_SIZE_MAX
        } else {
            size
        };
    }

    /// Sets the zoom level, brought into `1..=32`.
    pub fn set_zoom(&mut self, zoom: u32)
        requires
            old(self).wf(),
        ensures
            final(self)@ == old(self)@.set_zoom(zoom),
            final(self).wf(),
    {
        self.zoom_level = if zoom < ZOOM_MIN {
            ZOOM_MIN
        } else if zoom > ZOOM_MAX {
            ZOOM_MAX
        } else {
            zoom
        };
    }

    /// Zooms in by one step, up to the largest level.
    pub fn zoom_in(&mut self)
        requires
            old(self).wf(),
        ensures
            final(self)@ == old(self)@.zoom_in(),
            final(self).wf(),
    {
        if self.zoom_level < ZOOM_MAX {
            self.zoom_level += 1;
        }
    }

    /// Zooms out by one step, down to the smallest level.
    pub fn zoom_out(&mut self)
        requires
            old(self).wf(),
        ensures
            final(self)@ == old(self)@.zoom_out(),
            final(self).wf(),
    {
        if self.zoom_level > ZOOM_MIN {
            self.zoom_level -= 1;
        }
    }

    /// A state that differs from a well-formed one in a single layer, which
    /// kept its buffer and dimensions and has a valid opacity, has the
    /// other's layers with that one replaced, and they all still fit.
    proof fn lemma_layer_replaced(self, before: EditorState, index: usize)
        requires
            before.wf(),
            index < before.layers.len(),
            self.layers@ == before.layers@.update(index as int, self.layers@[index as int]),
            self.layers@[index as int].pixels == before.layers@[index as int].pixels,
            self.layers@[index as int].width == before.layers@[index as int].width,
            self.layers@[index as int].height == before.layers@[index as int].height,
            self.layers@[index as int].opacity <= OPACITY_MAX,
            self.canvas_width == before.canvas_width,
            self.canvas_height == before.canvas_height,
        ensures
            self@.layers == before@.layers.update(index as int, self.layers@[index as int]@),
            layers_fit(self@.layers, self.canvas_width, self.canvas_height),
    {
        assert(self@.layers =~= before@.layers.update(index as int, self.layers@[index as int]@));
        assert forall|i: int| 0 <= i < self@.layers.len() implies layer_fits(
            #[trigger] self@.layers[i],
            self.canvas_width,
            self.canvas_height,
        ) by {
            assert(layer_fits(before@.layers[i], self.canvas_width, self.canvas_height));
        }
    }
}

/// Using a colour keeps a well-formed list of used colours well formed.
pub proof fn lemma_add_used_wf(colors: Seq<Color>, color: Color)
    requires
        used_colors_wf(colors),
    ensures
        used_colors_wf(add_used(colors, color)),
{
    let next = add_used(colors, color);
    if !(color.is_faint() || is_used(colors, color)) {
        let pushed = colors.push(color);
        assert forall|i: int, j: int| 0 <= i < j < pushed.len() implies !(#[trigger] pushed[i]).close_to(
            #[trigger] pushed[j],
        ) by {
            if j == colors.len() {
                assert(!colors[i].close_to(color));
            }
        }
        if colors.len() + 1 > USED_COLORS_LIMIT {
            assert forall|i: int, j: int| 0 <= i < j < next.len() implies !(#[trigger] next[i]).close_to(
                #[trigger] next[j],
            ) by {
                assert(next[i] == pushed[i + 1]);
                assert(next[j] == pushed[j + 1]);
            }
        }
    }
}

/// The list of recently used colours after several colours were used, one
/// after the other.
pub open spec fn add_all_used(colors: Seq<Color>, added: Seq<Color>) -> Seq<Color>
    decreases added.len(),
{
    if added.len() == 0 {
        colors
    } else {
        add_used(add_all_used(colors, added.drop_last()), added.last())
    }
}

/// The list of recently used colours keeps the most recent ones: after
/// colours were used of which none is too faint, none passes for another
/// and none passes for a colour already in the list, the list holds what it
/// held followed by the new colours, cut down from the front to 32.
pub proof fn lemma_used_colors_cap(colors: Seq<Color>, added: Seq<Color>)
    requires
        colors.len() <= USED_COLORS_LIMIT,
        forall|j: int| 0 <= j < added.len() ==> !(#[trigger] added[j]).is_faint(),
        forall|i: int, j: int|
            0 <= i < j < added.len() ==> !(#[trigger] added[i]).close_to(#[trigger] added[j]),
        forall|i: int, j: int|
            0 <= i < colors.len() && 0 <= j < added.len() ==> !(#[trigger] colors[i]).close_to(
                #[trigger] added[j],
            ),
    ensures
        add_all_used(colors, added) == crate::history::most_recent(
            colors + added,
            USED_COLORS_LIMIT as int,
        ),
    decreases added.len(),
{
    let limit = USED_COLORS_LIMIT as int;
    if added.len() == 0 {
        assert(colors + added =~= colors);
    } else {
        let shorter = added.drop_last();
        let color = added.last();
        let n = added.len() - 1;
        lemma_used_colors_cap(colors, shorter);
        let all = colors + shorter;
        let before = add_all_used(colors, shorter);
        assert(before == crate::history::most_recent(all, limit));
        assert(!is_used(before, color)) by {
            if is_used(before, color) {
                let i = choose|i: int| 0 <= i < before.len() && (#[trigger] before[i]).close_to(
                    color,
                );
                let at = if all.len() > limit {
                    i + all.len() - limit
                } else {
                    i
                };
                assert(before[i] == all[at]);
                if at < colors.len() {
                    assert(all[at] == colors[at]);
                    assert(!colors[at].close_to(added[n]));
                } else {
                    assert(all[at] == added[at - colors.len()]);
                    assert(!added[at - colors.len()].close_to(added[n]));
                }
            }
        }
        assert(colors + added =~= all.push(color));
        assert(add_used(before, color) =~= crate::history::most_recent(all.push(color), limit));
    }
}

} // verus!

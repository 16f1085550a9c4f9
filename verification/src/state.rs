//! The editor's state: the canvas with its layers, the tool settings, the
//! selection, the clipboard, the recently used colours and the history.

use crate::color::Color;
use crate::history::{History, HistoryView};
use crate::layer::{buffer_len, Layer, LayerView};
use crate::message::ExportFormat;
use crate::selection::Selection;
use vstd::prelude::*;

verus! {

/// The smallest and the largest brush.
pub const BRUSH_SIZE_MIN: u32 = 1;

pub const BRUSH_SIZE_MAX: u32 = 20;

/// The smallest and the largest zoom level, in screen pixels per canvas pixel.
pub const ZOOM_MIN: u32 = 1;

pub const ZOOM_MAX: u32 = 32;

/// The most colours that the list of recently used colours keeps.
pub const USED_COLORS_LIMIT: usize = 32;

/// The side of the canvas that a new document starts with.
pub const DEFAULT_CANVAS_SIZE: u32 = 32;

/// The tools of the editor. Exactly one is current at any time.
#[derive(Debug, Clone, Copy, PartialEq, Eq, Structural)]
pub enum Tool {
    Pencil,
    Eraser,
    Fill,
    Selection,
    Eyedropper,
}

/// A detached copy of a rectangle of pixels, four bytes each in row-major order.
#[derive(Debug)]
pub struct ClipboardData {
    pub pixels: Vec<u8>,
    pub width: u32,
    pub height: u32,
}

/// The mathematical content of a `ClipboardData`.
pub struct ClipboardView {
    pub pixels: Seq<u8>,
    pub width: u32,
    pub height: u32,
}

impl View for ClipboardData {
    type V = ClipboardView;

    open spec fn view(&self) -> ClipboardView {
        ClipboardView { pixels: self.pixels@, width: self.width, height: self.height }
    }
}

impl ClipboardView {
    /// The buffer has exactly four bytes for every pixel.
    pub open spec fn wf(self) -> bool {
        self.pixels.len() == buffer_len(self.width, self.height)
    }
}

impl Clone for ClipboardData {
    fn clone(&self) -> (copy: ClipboardData)
        ensures
            copy@ == self@,
    {
        ClipboardData { pixels: self.pixels.clone(), width: self.width, height: self.height }
    }
}

/// Everything that an editing session holds.
#[derive(Debug)]
pub struct EditorState {
    pub canvas_width: u32,
    pub canvas_height: u32,
    pub current_tool: Tool,
    pub primary_color: Color,
    pub secondary_color: Color,
    /// Side of the square brush in pixels, `1..=20`.
    pub brush_size: u32,
    /// Screen pixels per canvas pixel, `1..=32`.
    pub zoom_level: u32,
    pub grid_visible: bool,
    /// The layers from the bottom up.
    pub layers: Vec<Layer>,
    pub active_layer_index: usize,
    pub history: History,
    pub selection: Option<Selection>,
    pub clipboard: Option<ClipboardData>,
    pub is_drawing: bool,
    /// The last pixel that a drag drew at, so that it is not drawn twice.
    pub last_pixel: Option<(u32, u32)>,
    pub selected_export_format: ExportFormat,
    pub is_selecting: bool,
    pub mirror_horizontal: bool,
    pub mirror_vertical: bool,
    /// The colours used last, oldest first.
    pub used_colors: Vec<Color>,
}

/// The mathematical content of an `EditorState`.
pub struct EditorStateView {
    pub canvas_width: u32,
    pub canvas_height: u32,
    pub current_tool: Tool,
    pub primary_color: Color,
    pub secondary_color: Color,
    pub brush_size: u32,
    pub zoom_level: u32,
    pub grid_visible: bool,
    pub layers: Seq<LayerView>,
    pub active_layer_index: usize,
    pub history: HistoryView,
    pub selection: Option<Selection>,
    pub clipboard: Option<ClipboardView>,
    pub is_drawing: bool,
    pub last_pixel: Option<(u32, u32)>,
    pub selected_export_format: ExportFormat,
    pub is_selecting: bool,
    pub mirror_horizontal: bool,
    pub mirror_vertical: bool,
    pub used_colors: Seq<Color>,
}

/// The views of a sequence of layers.
pub open spec fn layer_views(layers: Seq<Layer>) -> Seq<LayerView> {
    Seq::new(layers.len(), |i: int| layers[i]@)
}

/// The view of a clipboard that may be empty.
pub open spec fn clipboard_view(clipboard: Option<ClipboardData>) -> Option<ClipboardView> {
    match clipboard {
        Some(data) => Some(data@),
        None => None,
    }
}

impl View for EditorState {
    type V = EditorStateView;

    open spec fn view(&self) -> EditorStateView {
        EditorStateView {
            canvas_width: self.canvas_width,
            canvas_height: self.canvas_height,
            current_tool: self.current_tool,
            primary_color: self.primary_color,
            secondary_color: self.secondary_color,
            brush_size: self.brush_size,
            zoom_level: self.zoom_level,
            grid_visible: self.grid_visible,
            layers: layer_views(self.layers@),
            active_layer_index: self.active_layer_index,
            history: self.history@,
            selection: self.selection,
            clipboard: clipboard_view(self.clipboard),
            is_drawing: self.is_drawing,
            last_pixel: self.last_pixel,
            selected_export_format: self.selected_export_format,
            is_selecting: self.is_selecting,
            mirror_horizontal: self.mirror_horizontal,
            mirror_vertical: self.mirror_vertical,
            used_colors: self.used_colors@,
        }
    }
}

impl Clone for EditorState {
    fn clone(&self) -> (copy: EditorState)
        ensures
            copy@ == self@,
    {
        let mut layers: Vec<Layer> = Vec::new();
        let mut i: usize = 0;
        while i < self.layers.len()
            invariant
                i <= self.layers.len(),
                layers.len() == i,
                forall|k: int| 0 <= k < i ==> (#[trigger] layers@[k])@ == self.layers@[k]@,
            decreases self.layers.len() - i,
        {
            layers.push(self.layers[i].clone());
            i += 1;
        }
        let clipboard = match &self.clipboard {
            Some(data) => Some(data.clone()),
            None => None,
        };
        let copy = EditorState {
            canvas_width: self.canvas_width,
            canvas_height: self.canvas_height,
            current_tool: self.current_tool,
            primary_color: self.primary_color,
            secondary_color: self.secondary_color,
            brush_size: self.brush_size,
            zoom_level: self.zoom_level,
            grid_visible: self.grid_visible,
            layers,
            active_layer_index: self.active_layer_index,
            history: self.history.clone(),
            selection: self.selection,
            clipboard,
            is_drawing: self.is_drawing,
            last_pixel: self.last_pixel,
            selected_export_format: self.selected_export_format,
            is_selecting: self.is_selecting,
            mirror_horizontal: self.mirror_horizontal,
            mirror_vertical: self.mirror_vertical,
            used_colors: self.used_colors.clone(),
        };
        assert(copy@.layers =~= self@.layers);
        copy
    }
}

/// Whether a layer is well formed and has the given dimensions.
pub open spec fn layer_fits(layer: LayerView, width: u32, height: u32) -> bool {
    layer.wf() && layer.width == width && layer.height == height
}

/// Whether every layer is well formed and has the given dimensions.
pub open spec fn layers_fit(layers: Seq<LayerView>, width: u32, height: u32) -> bool {
    forall|i: int| 0 <= i < layers.len() ==> layer_fits(#[trigger] layers[i], width, height)
}

/// Whether a list of recently used colours is within its limit and holds no
/// two colours that pass for the same.
pub open spec fn used_colors_wf(colors: Seq<Color>) -> bool {
    &&& colors.len() <= USED_COLORS_LIMIT
    &&& forall|i: int, j: int|
        0 <= i < j < colors.len() ==> !(#[trigger] colors[i]).close_to(#[trigger] colors[j])
}

/// Whether a colour passes for one of a list.
pub open spec fn is_used(colors: Seq<Color>, color: Color) -> bool {
    exists|i: int| 0 <= i < colors.len() && (#[trigger] colors[i]).close_to(color)
}

/// The list of recently used colours after a colour was used: colours that
/// are too faint or pass for one in the list change nothing; any other goes
/// to the end, and the oldest leaves where that exceeds the limit.
pub open spec fn add_used(colors: Seq<Color>, color: Color) -> Seq<Color> {
    if color.is_faint() || is_used(colors, color) {
        colors
    } else if colors.len() + 1 > USED_COLORS_LIMIT {
        colors.push(color).skip(1)
    } else {
        colors.push(color)
    }
}

/// The name of the layer that a new document starts with.
pub open spec fn first_layer_name() -> Seq<char> {
    "Layer 1"@
}

impl EditorStateView {
    /// The state's invariant: there is at least one layer, the active index
    /// names one, every layer is well formed and as large as the canvas, the
    /// brush and the zoom are within their limits, and the history, the
    /// selection, the clipboard and the used colours are well formed.
    pub open spec fn wf(self) -> bool {
        &&& self.layers.len() >= 1
        &&& self.active_layer_index < self.layers.len()
        &&& layers_fit(self.layers, self.canvas_width, self.canvas_height)
        &&& BRUSH_SIZE_MIN <= self.brush_size <= BRUSH_SIZE_MAX
        &&& ZOOM_MIN <= self.zoom_level <= ZOOM_MAX
        &&& self.history.wf()
        &&& (self.selection matches Some(s) ==> s.wf())
        &&& (self.clipboard matches Some(c) ==> c.wf())
        &&& used_colors_wf(self.used_colors)
    }

    /// Whether `(x, y)` is a pixel of the canvas.
    pub open spec fn in_bounds(self, x: int, y: int) -> bool {
        0 <= x < self.canvas_width && 0 <= y < self.canvas_height
    }

    /// The active layer.
    pub open spec fn active_layer(self) -> LayerView {
        self.layers[self.active_layer_index as int]
    }

    /// The state with the active layer replaced.
    pub open spec fn with_active_layer(self, layer: LayerView) -> EditorStateView {
        EditorStateView {
            layers: self.layers.update(self.active_layer_index as int, layer),
            ..self
        }
    }

    /// A new document of the given size: one blank layer, the pencil with a
    /// one-pixel brush, black on white, zoom 8 with the grid shown, and
    /// black and white as the colours used so far.
    pub open spec fn new(width: u32, height: u32) -> EditorStateView {
        EditorStateView {
            canvas_width: width,
            canvas_height: height,
            current_tool: Tool::Pencil,
            primary_color: Color::black(),
            secondary_color: Color::white(),
            brush_size: 1,
            zoom_level: 8,
            grid_visible: true,
            layers: seq![LayerView::blank(first_layer_name(), width, height)],
            active_layer_index: 0,
            history: HistoryView::empty(),
            selection: None,
            clipboard: None,
            is_drawing: false,
            last_pixel: None,
            selected_export_format: ExportFormat::Png,
            is_selecting: false,
            mirror_horizontal: false,
            mirror_vertical: false,
            used_colors: seq![Color::black(), Color::white()],
        }
    }

    /// The state after a colour was used.
    pub open spec fn add_used_color(self, color: Color) -> EditorStateView {
        EditorStateView { used_colors: add_used(self.used_colors, color), ..self }
    }

    /// The state after a pixel of the active layer was set: the layer takes
    /// the colour where it has that pixel, and the colour counts as used.
    pub open spec fn set_pixel(self, x: int, y: int, color: Color) -> EditorStateView {
        if self.active_layer_index < self.layers.len() {
            self.with_active_layer(self.active_layer().with_pixel(x, y, color)).add_used_color(
                color,
            )
        } else {
            self
        }
    }

    /// The state with a new blank layer on top, which becomes the active one.
    pub open spec fn add_layer(self, name: Seq<char>) -> EditorStateView {
        EditorStateView {
            layers: self.layers.push(
                LayerView::blank(name, self.canvas_width, self.canvas_height),
            ),
            active_layer_index: self.layers.len() as usize,
            ..self
        }
    }

    /// The state with a layer removed. The last layer is never removed, nor
    /// one that is not there; an active index beyond the remaining layers
    /// moves to the topmost.
    pub open spec fn delete_layer(self, index: usize) -> EditorStateView {
        if self.layers.len() > 1 && index < self.layers.len() {
            EditorStateView {
                layers: self.layers.remove(index as int),
                active_layer_index: if self.active_layer_index >= self.layers.len() - 1 {
                    (self.layers.len() - 2) as usize
                } else {
                    self.active_layer_index
                },
                ..self
            }
        } else {
            self
        }
    }

    /// The state with a layer moved to another place in the stack. The
    /// active index follows the moved layer; where it named the layer at
    /// the destination, it steps one towards the source.
    pub open spec fn move_layer(self, from: usize, to: usize) -> EditorStateView {
        if from < self.layers.len() && to < self.layers.len() {
            EditorStateView {
                layers: self.layers.remove(from as int).insert(to as int, self.layers[from as int]),
                active_layer_index: if self.active_layer_index == from {
                    to
                } else if self.active_layer_index == to && from < to {
                    (self.active_layer_index - 1) as usize
                } else if self.active_layer_index == to && from > to {
                    (self.active_layer_index + 1) as usize
                } else {
                    self.active_layer_index
                },
                ..self
            }
        } else {
            self
        }
    }

    /// The state with a layer shown if it was hidden and hidden if shown.
    pub open spec fn toggle_layer_visibility(self, index: usize) -> EditorStateView {
        if index < self.layers.len() {
            let layer = self.layers[index as int];
            EditorStateView {
                layers: self.layers.update(
                    index as int,
                    LayerView { visible: !layer.visible, ..layer },
                ),
                ..self
            }
        } else {
            self
        }
    }

    /// The state with another layer active, where there is such a layer.
    pub open spec fn select_layer(self, index: usize) -> EditorStateView {
        if index < self.layers.len() {
            EditorStateView { active_layer_index: index, ..self }
        } else {
            self
        }
    }

    /// The state with a layer's opacity set, cut down to 100 percent.
    pub open spec fn set_layer_opacity(self, index: usize, opacity: u8) -> EditorStateView {
        if index < self.layers.len() {
            let layer = self.layers[index as int];
            EditorStateView {
                layers: self.layers.update(
                    index as int,
                    LayerView {
                        opacity: if opacity > crate::color::OPACITY_MAX {
                            crate::color::OPACITY_MAX
                        } else {
                            opacity
                        },
                        ..layer
                    },
                ),
                ..self
            }
        } else {
            self
        }
    }

    /// The state with a layer renamed; an empty name changes nothing.
    pub open spec fn rename_layer(self, index: usize, name: Seq<char>) -> EditorStateView {
        if index < self.layers.len() && name.len() > 0 {
            let layer = self.layers[index as int];
            EditorStateView {
                layers: self.layers.update(index as int, LayerView { name, ..layer }),
                ..self
            }
        } else {
            self
        }
    }

    /// The state with the canvas and every layer reallocated for new
    /// dimensions; what the layers showed is discarded. Dimensions whose
    /// buffer no `usize` can index change nothing.
    pub open spec fn resize_canvas(self, width: u32, height: u32) -> EditorStateView {
        if buffer_len(width, height) <= usize::MAX {
            EditorStateView {
                canvas_width: width,
                canvas_height: height,
                layers: Seq::new(self.layers.len(), |i: int| self.layers[i].resized(width, height)),
                ..self
            }
        } else {
            self
        }
    }

    /// The state with every pixel of every layer transparent black.
    pub open spec fn clear_canvas(self) -> EditorStateView {
        EditorStateView {
            layers: Seq::new(
                self.layers.len(),
                |i: int| self.layers[i].resized(self.layers[i].width, self.layers[i].height),
            ),
            ..self
        }
    }

    /// The state with the brush size set, brought into `1..=20`.
    pub open spec fn set_brush_size(self, size: u32) -> EditorStateView {
        EditorStateView {
            brush_size: if size < BRUSH_SIZE_MIN {
                BRUSH_SIZE_MIN
            } else if size > BRUSH_SIZE_MAX {
                BRUSH_SIZE_MAX
            } else {
                size
            },
            ..self
        }
    }

    /// The state with the zoom level set, brought into `1..=32`.
    pub open spec fn set_zoom(self, zoom: u32) -> EditorStateView {
        EditorStateView {
            zoom_level: if zoom < ZOOM_MIN {
                ZOOM_MIN
            } else if zoom > ZOOM_MAX {
                ZOOM_MAX
            } else {
                zoom
            },
            ..self
        }
    }

    /// The state zoomed in by one step, up to the largest level.
    pub open spec fn zoom_in(self) -> EditorStateView {
        EditorStateView {
            zoom_level: if self.zoom_level + 1 > ZOOM_MAX {
                ZOOM_MAX
            } else {
                (self.zoom_level + 1) as u32
            },
            ..self
        }
    }

    /// The state zoomed out by one step, down to the smallest level.
    pub open spec fn zoom_out(self) -> EditorStateView {
        EditorStateView {
            zoom_level: if self.zoom_level - 1 < ZOOM_MIN {
                ZOOM_MIN
            } else {
                (self.zoom_level - 1) as u32
            },
            ..self
        }
    }
}

} // verus!

//! What a session does besides drawing: choosing tools and colours,
//! pointer strokes, the life of a selection, and taking in an image as a
//! new layer.

use crate::color::{Color, OPACITY_MAX};
use crate::editor::buffer_fits;
use crate::layer::{buffer_len, Layer, LayerView};
use crate::message::ExportFormat;
use crate::selection::Selection;
use crate::state::{
    layer_fits, layer_views, EditorState, EditorStateView, Tool, DEFAULT_CANVAS_SIZE,
};
use crate::tools::{apply_eraser, apply_eyedropper, apply_pencil};
use vstd::prelude::*;

verus! {

/// The name that a layer made from an image gets.
pub open spec fn imported_layer_name() -> Seq<char> {
    "Imported"@
}

/// The larger of two extents.
pub open spec fn larger(a: u32, b: u32) -> u32 {
    if a >= b {
        a
    } else {
        b
    }
}

impl EditorStateView {
    /// The state with another tool current.
    pub open spec fn select_tool(self, tool: Tool) -> EditorStateView {
        EditorStateView { current_tool: tool, ..self }
    }

    /// The state with another primary colour.
    pub open spec fn set_primary_color(self, color: Color) -> EditorStateView {
        EditorStateView { primary_color: color, ..self }
    }

    /// The state with another secondary colour.
    pub open spec fn set_secondary_color(self, color: Color) -> EditorStateView {
        EditorStateView { secondary_color: color, ..self }
    }

    /// The state with another export format chosen.
    pub open spec fn select_export_format(self, format: ExportFormat) -> EditorStateView {
        EditorStateView { selected_export_format: format, ..self }
    }

    /// The state with the grid shown if it was hidden and hidden if shown.
    pub open spec fn toggle_grid(self) -> EditorStateView {
        EditorStateView { grid_visible: !self.grid_visible, ..self }
    }

    /// The state with horizontal mirroring switched.
    pub open spec fn toggle_mirror_horizontal(self) -> EditorStateView {
        EditorStateView { mirror_horizontal: !self.mirror_horizontal, ..self }
    }

    /// The state with vertical mirroring switched.
    pub open spec fn toggle_mirror_vertical(self) -> EditorStateView {
        EditorStateView { mirror_vertical: !self.mirror_vertical, ..self }
    }

    /// The state after the pointer went down at the pixel `(x, y)`. The
    /// pixel is noted as the last one drawn. With the pencil, the eraser or
    /// the fill tool a drawing begins and the tool is applied; with the
    /// selection tool a selection begins at the pixel; the eyedropper picks.
    pub open spec fn start_drawing(self, x: u32, y: u32) -> EditorStateView {
        let begun = EditorStateView {
            is_drawing: self.current_tool != Tool::Selection && self.current_tool
                != Tool::Eyedropper,
            is_selecting: self.current_tool == Tool::Selection,
            last_pixel: Some((x, y)),
            ..self
        };
        match self.current_tool {
            Tool::Pencil => begun.pencil(x, y),
            Tool::Eraser => begun.eraser(x, y),
            Tool::Fill => begun.fill(x, y),
            Tool::Selection => EditorStateView {
                selection: Some(Selection::at(x as int, y as int)),
                ..begun
            },
            Tool::Eyedropper => begun.eyedropper(x, y),
        }
    }

    /// The state after the pointer was dragged to the pixel `(x, y)`.
    /// Nothing happens unless a drawing is under way and the pixel is not
    /// the last one drawn; then the pixel is noted, and the pencil or the
    /// eraser is applied. The other tools do not draw on a drag.
    pub open spec fn draw_pixel(self, x: u32, y: u32) -> EditorStateView {
        if self.is_drawing && self.last_pixel != Some((x, y)) {
            let moved = EditorStateView { last_pixel: Some((x, y)), ..self };
            match self.current_tool {
                Tool::Pencil => moved.pencil(x, y),
                Tool::Eraser => moved.eraser(x, y),
                _ => moved,
            }
        } else {
            self
        }
    }

    /// The state after the pointer went up: no drawing is under way and no
    /// pixel is noted; a selection stays under way only with the selection tool.
    pub open spec fn end_drawing(self) -> EditorStateView {
        EditorStateView {
            is_drawing: false,
            last_pixel: None,
            is_selecting: self.is_selecting && self.current_tool == Tool::Selection,
            ..self
        }
    }

    /// The state with a selection begun at a position.
    pub open spec fn start_selection(self, x: i32, y: i32) -> EditorStateView {
        EditorStateView {
            is_selecting: true,
            selection: Some(Selection::at(x as int, y as int)),
            ..self
        }
    }

    /// The state after the pointer moved to a position while a selection
    /// is under way: the selection's far corner follows; where there is no
    /// selection yet, one begins with the selection tool. Nothing happens
    /// while no selection is under way.
    pub open spec fn update_selection(self, x: i32, y: i32) -> EditorStateView {
        if self.is_selecting {
            match self.selection {
                Some(selection) => EditorStateView {
                    selection: Some(selection.dragged_to(x, y)),
                    ..self
                },
                None => if self.current_tool == Tool::Selection {
                    EditorStateView { selection: Some(Selection::at(x as int, y as int)), ..self }
                } else {
                    self
                },
            }
        } else {
            self
        }
    }

    /// The state after a selection was let go: it is no longer under way,
    /// and its rectangle is normalized.
    pub open spec fn end_selection(self) -> EditorStateView {
        EditorStateView {
            is_selecting: false,
            selection: match self.selection {
                Some(selection) => Some(selection.normalized()),
                None => None,
            },
            ..self
        }
    }

    /// The state without a selection.
    pub open spec fn clear_selection(self) -> EditorStateView {
        EditorStateView { selection: None, is_selecting: false, ..self }
    }

    /// Whether an image can be taken in: its buffer has four bytes for
    /// every pixel, and a canvas large enough for it and for the present
    /// canvas can be allocated.
    pub open spec fn can_import(self, width: u32, height: u32, pixels: Seq<u8>) -> bool {
        &&& pixels.len() == buffer_len(width, height)
        &&& buffer_len(larger(width, self.canvas_width), larger(height, self.canvas_height))
            <= usize::MAX
    }

    /// The state after an image was taken in as a new layer on top, which
    /// becomes the active one. The canvas grows to hold both itself and the
    /// image, and every layer that is not as large as the canvas then is
    /// reallocated blank. An image that cannot be taken in changes nothing.
    pub open spec fn import_layer(self, width: u32, height: u32, pixels: Seq<u8>) -> EditorStateView {
        if self.can_import(width, height, pixels) {
            let canvas_width = larger(width, self.canvas_width);
            let canvas_height = larger(height, self.canvas_height);
            let stacked = self.layers.push(
                LayerView {
                    name: imported_layer_name(),
                    pixels,
                    width,
                    height,
                    visible: true,
                    opacity: OPACITY_MAX,
                },
            );
            EditorStateView {
                canvas_width,
                canvas_height,
                layers: Seq::new(
                    stacked.len(),
                    |i: int|
                        if stacked[i].width != canvas_width || stacked[i].height != canvas_height {
                            stacked[i].resized(canvas_width, canvas_height)
                        } else {
                            stacked[i]
                        },
                ),
                active_layer_index: self.layers.len() as usize,
                ..self
            }
        } else {
            self
        }
    }
}

impl EditorState {
    /// Makes another tool the current one.
    pub fn select_tool(&mut self, tool: Tool)
        requires
            old(self).wf(),
        ensures
            final(self)@ == old(self)@.select_tool(tool),
            final(self).wf(),
    {
        self.current_tool = tool;
    }

    /// Sets the primary colour.
    pub fn set_primary_color(&mut self, color: Color)
        requires
            old(self).wf(),
        ensures
            final(self)@ == old(self)@.set_primary_color(color),
            final(self).wf(),
    {
        self.primary_color = color;
    }

    /// Sets the secondary colour.
    pub fn set_secondary_color(&mut self, color: Color)
        requires
            old(self).wf(),
        ensures
            final(self)@ == old(self)@.set_secondary_color(color),
            final(self).wf(),
    {
        self.secondary_color = color;
    }

    /// Chooses the format of the next export.
    pub fn select_export_format(&mut self, format: ExportFormat)
        requires
            old(self).wf(),
        ensures
            final(self)@ == old(self)@.select_export_format(format),
            final(self).wf(),
    {
        self.selected_export_format = format;
    }

    /// Shows or hides the grid.
    pub fn toggle_grid(&mut self)
        requires
            old(self).wf(),
        ensures
            final(self)@ == old(self)@.toggle_grid(),
            final(self).wf(),
    {
        self.grid_visible = !self.grid_visible;
    }

    /// Switches horizontal mirroring on or off.
    pub fn toggle_mirror_horizontal(&mut self)
        requires
            old(self).wf(),
        ensures
            final(self)@ == old(self)@.toggle_mirror_horizontal(),
            final(self).wf(),
    {
        self.mirror_horizontal = !self.mirror_horizontal;
    }

    /// Switches vertical mirroring on or off.
    pub fn toggle_mirror_vertical(&mut self)
        requires
            old(self).wf(),
        ensures
            final(self)@ == old(self)@.toggle_mirror_vertical(),
            final(self).wf(),
    {
        self.mirror_vertical = !self.mirror_vertical;
    }

    /// The pointer went down at the pixel `(x, y)`: the current tool is
    /// applied there, and a drawing or a selection begins.
    pub fn start_drawing(&mut self, x: u32, y: u32)
        requires
            old(self).wf(),
        ensures
            final(self)@ == old(self)@.start_drawing(x, y),
            final(self).wf(),
    {
        let tool = self.current_tool;
        let is_selection_tool = matches!(tool, Tool::Selection);
        let is_eyedropper = matches!(tool, Tool::Eyedropper);
        self.is_drawing = !is_selection_tool && !is_eyedropper;
        self.is_selecting = is_selection_tool;
        self.last_pixel = Some((x, y));
        match tool {
            Tool::Pencil => {
                apply_pencil(self, x, y);
            },
            Tool::Eraser => {
                apply_eraser(self, x, y);
            },
            Tool::Fill => {
                crate::fill::apply_fill(self, x, y);
            },
            Tool::Selection => {
                self.selection = Some(Selection::at_pixel(x, y));
            },
            Tool::Eyedropper => {
                apply_eyedropper(self, x, y);
            },
        }
    }

    /// The pointer was dragged to the pixel `(x, y)`: while a drawing is
    /// under way the pencil and the eraser draw there, unless it is the
    /// pixel they drew at last.
    pub fn draw_pixel(&mut self, x: u32, y: u32)
        requires
            old(self).wf(),
        ensures
            final(self)@ == old(self)@.draw_pixel(x, y),
            final(self).wf(),
    {
        if self.is_drawing {
            let same = match self.last_pixel {
                Some(last) => last.0 == x && last.1 == y,
                None => false,
            };
            if !same {
                self.last_pixel = Some((x, y));
                match self.current_tool {
                    Tool::Pencil => {
                        apply_pencil(self, x, y);
                    },
                    Tool::Eraser => {
                        apply_eraser(self, x, y);
                    },
                    Tool::Fill | Tool::Selection | Tool::Eyedropper => {},
                }
            }
        }
    }

    /// The pointer went up: the drawing ends.
    pub fn end_drawing(&mut self)
        requires
            old(self).wf(),
        ensures
            final(self)@ == old(self)@.end_drawing(),
            final(self).wf(),
    {
        self.is_drawing = false;
        self.last_pixel = None;
        if !matches!(self.current_tool, Tool::Selection) {
            self.is_selecting = false;
        }
    }

    /// Begins a selection at a position.
    pub fn start_selection(&mut self, x: i32, y: i32)
        requires
            old(self).wf(),
        ensures
            final(self)@ == old(self)@.start_selection(x, y),
            final(self).wf(),
    {
        self.is_selecting = true;
        self.selection = Some(Selection::new(x, y));
    }

    /// Drags the far corner of the selection that is under way to a position.
    pub fn update_selection(&mut self, x: i32, y: i32)
        requires
            old(self).wf(),
        ensures
            final(self)@ == old(self)@.update_selection(x, y),
            final(self).wf(),
    {
        if self.is_selecting {
            match self.selection {
                Some(selection) => {
                    let mut dragged = selection;
                    dragged.drag_to(x, y);
                    self.selection = Some(dragged);
                },
                None => {
                    if matches!(self.current_tool, Tool::Selection) {
                        self.selection = Some(Selection::new(x, y));
                    }
                },
            }
        }
    }

    /// Lets the selection go: it is normalized and no longer under way.
    pub fn end_selection(&mut self)
        requires
            old(self).wf(),
        ensures
            final(self)@ == old(self)@.end_selection(),
            final(self).wf(),
    {
        self.is_selecting = false;
        match self.selection {
            Some(selection) => {
                let mut normalized = selection;
                normalized.normalize();
                self.selection = Some(normalized);
            },
            None => {},
        }
    }

    /// Drops the selection.
    pub fn clear_selection(&mut self)
        requires
            old(self).wf(),
        ensures
            final(self)@ == old(self)@.clear_selection(),
            final(self).wf(),
    {
        self.selection = None;
        self.is_selecting = false;
    }

    /// Takes in an image as a new layer; see `EditorStateView::import_layer`.
    pub fn import_layer(&mut self, width: u32, height: u32, pixels: Vec<u8>)
        requires
            old(self).wf(),
        ensures
            final(self)@ == old(self)@.import_layer(width, height, pixels@),
            final(self).wf(),
    {
        let canvas_width = if width >= self.canvas_width {
            width
        } else {
            self.canvas_width
        };
        let canvas_height = if height >= self.canvas_height {
            height
        } else {
            self.canvas_height
        };
        if !buffer_fits(width, height) || !buffer_fits(canvas_width, canvas_height) {
            proof {
                if buffer_len(width, height) > usize::MAX {
                    assert(pixels@.len() <= usize::MAX) by {
                        assert(pixels.len() == pixels@.len());
                    }
                }
            }
            return ;
        }
        assert(0 <= width * height <= width * height * 4) by (nonlinear_arith);
        let size: usize = (width as usize) * (height as usize) * 4;
        if pixels.len() != size {
            return ;
        }
        let ghost target = old(self)@.import_layer(width, height, pixels@);
        let ghost stacked = old(self)@.layers.push(
            LayerView {
                name: imported_layer_name(),
                pixels: pixels@,
                width,
                height,
                visible: true,
                opacity: OPACITY_MAX,
            },
        );
        let layer = Layer {
            name: "Imported".to_owned(),
            pixels,
            width,
            height,
            visible: true,
            opacity: OPACITY_MAX,
        };
        self.layers.push(layer);
        self.active_layer_index = self.layers.len() - 1;
        self.canvas_width = canvas_width;
        self.canvas_height = canvas_height;
        proof {
            assert(layer_views(self.layers@) =~= stacked);
        }
        let mut i: usize = 0;
        while i < self.layers.len()
            invariant
                i <= self.layers.len(),
                self.layers.len() == stacked.len(),
                stacked.len() == target.layers.len(),
                old(self).wf(),
                buffer_len(canvas_width, canvas_height) <= usize::MAX,
                canvas_width == target.canvas_width,
                canvas_height == target.canvas_height,
                stacked.len() == old(self)@.layers.len() + 1,
                forall|j: int|
                    0 <= j < old(self)@.layers.len() ==> #[trigger] stacked[j] == old(
                        self,
                    )@.layers[j],
                stacked[stacked.len() - 1].wf(),
                stacked[stacked.len() - 1].width == width,
                stacked[stacked.len() - 1].height == height,
                forall|j: int|
                    0 <= j < stacked.len() ==> #[trigger] target.layers[j] == if stacked[j].width
                        != canvas_width || stacked[j].height != canvas_height {
                        stacked[j].resized(canvas_width, canvas_height)
                    } else {
                        stacked[j]
                    },
                forall|j: int| 0 <= j < i ==> (#[trigger] self.layers@[j])@ == target.layers[j],
                forall|j: int| i <= j < self.layers.len() ==> (#[trigger] self.layers@[j])@ == stacked[j],
                self@ == (EditorStateView { layers: self@.layers, ..target }),
            decreases self.layers.len() - i,
        {
            if self.layers[i].width != canvas_width || self.layers[i].height != canvas_height {
                self.layers[i].resize(canvas_width, canvas_height);
            }
            i += 1;
        }
        proof {
            assert(self@.layers =~= target.layers);
            assert forall|j: int| 0 <= j < self@.layers.len() implies layer_fits(
                #[trigger] self@.layers[j],
                canvas_width,
                canvas_height,
            ) by {
                if j < old(self)@.layers.len() {
                    assert(layer_fits(
                        old(self)@.layers[j],
                        old(self).canvas_width,
                        old(self).canvas_height,
                    ));
                }
            }
        }
    }

    /// Starts over with a new document on the default canvas.
    pub fn reset(&mut self)
        ensures
            final(self)@ == EditorStateView::new(DEFAULT_CANVAS_SIZE, DEFAULT_CANVAS_SIZE),
            final(self).wf(),
    {
        *self = EditorState::new(DEFAULT_CANVAS_SIZE, DEFAULT_CANVAS_SIZE);
    }
}

} // verus!

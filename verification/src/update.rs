//! The editor's one entry point for messages.

use crate::message::{Action, Message};
use crate::state::{EditorState, EditorStateView, DEFAULT_CANVAS_SIZE};
use vstd::prelude::*;

verus! {

impl EditorStateView {
    /// The state after a message. Every message stands for one operation
    /// of the editor; messages about files that are only chosen, written
    /// or reported leave the state as it is.
    pub open spec fn update(self, message: Message) -> EditorStateView {
        match message {
            Message::ToolSelected(tool) => self.select_tool(tool),
            Message::PrimaryColorChanged(color) => self.set_primary_color(color),
            Message::SecondaryColorChanged(color) => self.set_secondary_color(color),
            Message::ColorPicked(color) => self.set_primary_color(color),
            Message::UsedColorPicked(color) => self.set_primary_color(color),
            Message::BrushSizeChanged(size) => self.set_brush_size(size),
            Message::CanvasResized { width, height } => self.resize_canvas(width, height),
            Message::CanvasCleared => self.clear_canvas(),
            Message::LayerAdded(name) => self.add_layer(name@),
            Message::LayerDeleted(index) => self.delete_layer(index),
            Message::LayerMoved { from, to } => self.move_layer(from, to),
            Message::LayerVisibilityToggled(index) => self.toggle_layer_visibility(index),
            Message::LayerSelected(index) => self.select_layer(index),
            Message::LayerOpacityChanged { index, opacity } => self.set_layer_opacity(
                index,
                opacity,
            ),
            Message::LayerRenamed { index, name } => self.rename_layer(index, name@),
            Message::PixelDrawn { x, y } => self.draw_pixel(x, y),
            Message::DrawingStarted { x, y } => self.start_drawing(x, y),
            Message::DrawingEnded => self.end_drawing(),
            Message::FileNew => EditorStateView::new(DEFAULT_CANVAS_SIZE, DEFAULT_CANVAS_SIZE),
            Message::FileOpen => self,
            Message::FileSave => self,
            Message::FileSaveDialogResult { .. } => self,
            Message::ExportFormatSelected(format) => self.select_export_format(format),
            Message::FileLoaded { width, height, data } => self.import_layer(width, height, data@),
            Message::FileSaved { .. } => self,
            Message::Undo => self.undo(),
            Message::Redo => self.redo(),
            Message::ZoomChanged(zoom) => self.set_zoom(zoom),
            Message::ZoomIn => self.zoom_in(),
            Message::ZoomOut => self.zoom_out(),
            Message::GridToggled => self.toggle_grid(),
            Message::PanChanged { .. } => self,
            Message::SelectionStarted { x, y } => self.start_selection(x, y),
            Message::SelectionUpdated { x, y } => self.update_selection(x, y),
            Message::SelectionEnded => self.end_selection(),
            Message::SelectionCleared => self.clear_selection(),
            Message::CopySelection => self.copy_selection(),
            Message::PasteSelection { x, y } => self.paste_selection(x, y),
            Message::CutSelection => self.cut_selection(),
            Message::CanvasEvent => self,
            Message::MirrorHorizontalToggled => self.toggle_mirror_horizontal(),
            Message::MirrorVerticalToggled => self.toggle_mirror_vertical(),
            Message::Nothing => self,
        }
    }

    /// Whether an action is what the editor asks for after a message:
    /// a file to open after `FileOpen`, a file to save to, in the chosen
    /// format, after `FileSave`, the export of the flattened canvas after
    /// `FileSaveDialogResult`, and nothing after any other message.
    pub open spec fn asks_for(self, message: Message, action: Action) -> bool {
        match message {
            Message::FileOpen => action is ChooseFileToOpen,
            Message::FileSave => action == (Action::ChooseFileToSave {
                format: self.selected_export_format,
            }),
            Message::FileSaveDialogResult { path, format } => {
                &&& action matches Action::Export {
                    path: to,
                    format: written,
                    width,
                    height,
                    pixels,
                }
                &&& to@ == path@
                &&& written == format
                &&& width == self.canvas_width
                &&& height == self.canvas_height
                &&& pixels@ == self.flattened()
            },
            _ => action is Nothing,
        }
    }
}

/// Takes a message: changes the state as the message asks and says what is
/// to be done outside the editor.
pub fn update(state: &mut EditorState, message: Message) -> (action: Action)
    requires
        old(state).wf(),
    ensures
        final(state)@ == old(state)@.update(message),
        final(state).wf(),
        old(state)@.asks_for(message, action),
{
    match message {
        Message::ToolSelected(tool) => {
            state.select_tool(tool);
        },
        Message::PrimaryColorChanged(color) => {
            state.set_primary_color(color);
        },
        Message::SecondaryColorChanged(color) => {
            state.set_secondary_color(color);
        },
        Message::ColorPicked(color) => {
            state.set_primary_color(color);
        },
        Message::UsedColorPicked(color) => {
            state.set_primary_color(color);
        },
        Message::BrushSizeChanged(size) => {
            state.set_brush_size(size);
        },
        Message::CanvasResized { width, height } => {
            state.resize_canvas(width, height);
        },
        Message::CanvasCleared => {
            state.clear_canvas();
        },
        Message::LayerAdded(name) => {
            state.add_layer(name);
        },
        Message::LayerDeleted(index) => {
            state.delete_layer(index);
        },
        Message::LayerMoved { from, to } => {
            state.move_layer(from, to);
        },
        Message::LayerVisibilityToggled(index) => {
            state.toggle_layer_visibility(index);
        },
        Message::LayerSelected(index) => {
            state.select_layer(index);
        },
        Message::LayerOpacityChanged { index, opacity } => {
            state.set_layer_opacity(index, opacity);
        },
        Message::LayerRenamed { index, name } => {
            state.rename_layer(index, name);
        },
        Message::PixelDrawn { x, y } => {
            state.draw_pixel(x, y);
        },
        Message::DrawingStarted { x, y } => {
            state.start_drawing(x, y);
        },
        Message::DrawingEnded => {
            state.end_drawing();
        },
        Message::FileNew => {
            state.reset();
        },
        Message::FileOpen => {
            return Action::ChooseFileToOpen;
        },
        Message::FileSave => {
            return Action::ChooseFileToSave { format: state.selected_export_format };
        },
        Message::FileSaveDialogResult { path, format } => {
            let pixels = state.flatten();
            return Action::Export {
                path,
                format,
                width: state.canvas_width,
                height: state.canvas_height,
                pixels,
            };
        },
        Message::ExportFormatSelected(format) => {
            state.select_export_format(format);
        },
        Message::FileLoaded { width, height, data } => {
            state.import_layer(width, height, data);
        },
        Message::FileSaved { path } => {},
        Message::Undo => {
            state.undo();
        },
        Message::Redo => {
            state.redo();
        },
        Message::ZoomChanged(zoom) => {
            state.set_zoom(zoom);
        },
        Message::ZoomIn => {
            state.zoom_in();
        },
        Message::ZoomOut => {
            state.zoom_out();
        },
        Message::GridToggled => {
            state.toggle_grid();
        },
        Message::PanChanged { x, y } => {},
        Message::SelectionStarted { x, y } => {
            state.start_selection(x, y);
        },
        Message::SelectionUpdated { x, y } => {
            state.update_selection(x, y);
        },
        Message::SelectionEnded => {
            state.end_selection();
        },
        Message::SelectionCleared => {
            state.clear_selection();
        },
        Message::CopySelection => {
            state.copy_selection();
        },
        Message::PasteSelection { x, y } => {
            state.paste_selection(x, y);
        },
        Message::CutSelection => {
            state.cut_selection();
        },
        Message::CanvasEvent => {},
        Message::MirrorHorizontalToggled => {
            state.toggle_mirror_horizontal();
        },
        Message::MirrorVerticalToggled => {
            state.toggle_mirror_vertical();
        },
        Message::Nothing => {},
    }
    Action::Nothing
}

} // verus!

use pixel_editor::color::Color;
use pixel_editor::history::EditCommand;
use pixel_editor::message::{Action, ExportFormat, Message};
use pixel_editor::selection::Selection;
use pixel_editor::state::{EditorState, Tool};
use pixel_editor::update::update;

const BLUE: Color = Color { r: 0, g: 0, b: 255, a: 255 };

fn send(state: &mut EditorState, message: Message) {
    assert_eq!(update(state, message), Action::Nothing);
    assert!(state.is_well_formed());
}

#[test]
fn messages_about_tools_and_colours_set_them() {
    let mut state = EditorState::new(8, 8);
    send(&mut state, Message::ToolSelected(Tool::Fill));
    assert_eq!(state.current_tool, Tool::Fill);
    send(&mut state, Message::PrimaryColorChanged(BLUE));
    assert_eq!(state.primary_color, BLUE);
    send(&mut state, Message::SecondaryColorChanged(Color::black()));
    assert_eq!(state.secondary_color, Color::black());
    send(&mut state, Message::ColorPicked(Color::white()));
    assert_eq!(state.primary_color, Color::white());
    send(&mut state, Message::UsedColorPicked(Color::new(1, 2, 3, 4)));
    assert_eq!(state.primary_color, Color::new(1, 2, 3, 4));
    send(&mut state, Message::BrushSizeChanged(50));
    assert_eq!(state.brush_size, 20);
    send(&mut state, Message::BrushSizeChanged(0));
    assert_eq!(state.brush_size, 1);
    send(&mut state, Message::ExportFormatSelected(ExportFormat::Bmp));
    assert_eq!(state.selected_export_format, ExportFormat::Bmp);
    assert_eq!(state.used_colors.len(), 2);
}

#[test]
fn messages_about_the_view_set_it() {
    let mut state = EditorState::new(8, 8);
    send(&mut state, Message::ZoomChanged(40));
    assert_eq!(state.zoom_level, 32);
    send(&mut state, Message::ZoomOut);
    assert_eq!(state.zoom_level, 31);
    send(&mut state, Message::ZoomIn);
    send(&mut state, Message::ZoomIn);
    assert_eq!(state.zoom_level, 32);
    send(&mut state, Message::ZoomChanged(0));
    assert_eq!(state.zoom_level, 1);
    send(&mut state, Message::GridToggled);
    assert!(!state.grid_visible);
    send(&mut state, Message::MirrorHorizontalToggled);
    assert!(state.mirror_horizontal);
    send(&mut state, Message::MirrorVerticalToggled);
    assert!(state.mirror_vertical);
    send(&mut state, Message::MirrorHorizontalToggled);
    assert!(!state.mirror_horizontal);
}

#[test]
fn messages_about_layers_change_the_stack() {
    let mut state = EditorState::new(4, 4);
    send(&mut state, Message::LayerAdded("B".to_string()));
    send(&mut state, Message::LayerAdded("C".to_string()));
    assert_eq!(state.layers.len(), 3);
    assert_eq!(state.active_layer_index, 2);
    send(&mut state, Message::LayerSelected(0));
    assert_eq!(state.active_layer_index, 0);
    send(&mut state, Message::LayerSelected(3));
    assert_eq!(state.active_layer_index, 0);
    send(&mut state, Message::LayerMoved { from: 0, to: 1 });
    assert_eq!(state.layers[1].name, "Layer 1");
    assert_eq!(state.active_layer_index, 1);
    send(&mut state, Message::LayerVisibilityToggled(2));
    assert!(!state.layers[2].visible);
    send(&mut state, Message::LayerOpacityChanged { index: 2, opacity: 30 });
    assert_eq!(state.layers[2].opacity, 30);
    send(&mut state, Message::LayerOpacityChanged { index: 2, opacity: 255 });
    assert_eq!(state.layers[2].opacity, 100);
    send(&mut state, Message::LayerRenamed { index: 2, name: "Sky".to_string() });
    assert_eq!(state.layers[2].name, "Sky");
    send(&mut state, Message::LayerRenamed { index: 2, name: String::new() });
    assert_eq!(state.layers[2].name, "Sky");
    send(&mut state, Message::LayerDeleted(0));
    assert_eq!(state.layers.len(), 2);
    assert_eq!(state.layers[0].name, "Layer 1");
    send(&mut state, Message::LayerDeleted(7));
    assert_eq!(state.layers.len(), 2);
}

#[test]
fn messages_about_the_canvas_resize_and_clear_it() {
    let mut state = EditorState::new(4, 4);
    send(&mut state, Message::PrimaryColorChanged(BLUE));
    send(&mut state, Message::DrawingStarted { x: 1, y: 1 });
    send(&mut state, Message::CanvasCleared);
    assert_eq!(state.layers[0].pixels, vec![0u8; 64]);
    send(&mut state, Message::CanvasResized { width: 2, height: 3 });
    assert_eq!(state.canvas_width, 2);
    assert_eq!(state.canvas_height, 3);
    assert_eq!(state.layers[0].pixels, vec![0u8; 24]);
    assert_eq!(state.history.commands.len(), 1);
}

#[test]
fn a_click_with_the_pencil_draws_and_a_drag_draws_on() {
    let mut state = EditorState::new(8, 8);
    send(&mut state, Message::PrimaryColorChanged(BLUE));
    send(&mut state, Message::DrawingStarted { x: 1, y: 1 });
    assert!(state.is_drawing);
    assert!(!state.is_selecting);
    assert_eq!(state.last_pixel, Some((1, 1)));
    assert_eq!(state.layers[0].get_pixel(1, 1), BLUE);
    send(&mut state, Message::PixelDrawn { x: 1, y: 1 });
    assert_eq!(state.history.commands.len(), 1);
    send(&mut state, Message::PixelDrawn { x: 2, y: 1 });
    assert_eq!(state.history.commands.len(), 2);
    assert_eq!(state.layers[0].get_pixel(2, 1), BLUE);
    assert_eq!(state.last_pixel, Some((2, 1)));
    send(&mut state, Message::DrawingEnded);
    assert!(!state.is_drawing);
    assert_eq!(state.last_pixel, None);
    send(&mut state, Message::PixelDrawn { x: 3, y: 1 });
    assert_eq!(state.layers[0].get_pixel(3, 1), Color::transparent());
    assert_eq!(state.history.commands.len(), 2);
}

#[test]
fn a_drag_beyond_the_canvas_is_noted_but_draws_nothing() {
    let mut state = EditorState::new(4, 4);
    send(&mut state, Message::DrawingStarted { x: 9, y: 9 });
    assert!(state.is_drawing);
    assert_eq!(state.last_pixel, Some((9, 9)));
    assert_eq!(state.history.commands.len(), 0);
    send(&mut state, Message::PixelDrawn { x: 9, y: 8 });
    assert_eq!(state.last_pixel, Some((9, 8)));
    assert_eq!(state.history.commands.len(), 0);
}

#[test]
fn the_eraser_and_the_fill_tool_work_on_a_click() {
    let mut state = EditorState::new(4, 4);
    send(&mut state, Message::PrimaryColorChanged(BLUE));
    send(&mut state, Message::ToolSelected(Tool::Fill));
    send(&mut state, Message::DrawingStarted { x: 0, y: 0 });
    assert!(state.is_drawing);
    assert_eq!(state.layers[0].get_pixel(3, 3), BLUE);
    send(&mut state, Message::PixelDrawn { x: 1, y: 1 });
    assert_eq!(state.history.commands.len(), 1);
    assert_eq!(state.last_pixel, Some((1, 1)));
    send(&mut state, Message::DrawingEnded);
    send(&mut state, Message::ToolSelected(Tool::Eraser));
    send(&mut state, Message::DrawingStarted { x: 2, y: 2 });
    send(&mut state, Message::PixelDrawn { x: 2, y: 3 });
    assert_eq!(state.layers[0].get_pixel(2, 2), Color::transparent());
    assert_eq!(state.layers[0].get_pixel(2, 3), Color::transparent());
    assert_eq!(state.layers[0].get_pixel(3, 3), BLUE);
    assert_eq!(state.history.commands.len(), 3);
}

#[test]
fn the_eyedropper_picks_on_a_click_without_drawing() {
    let mut state = EditorState::new(4, 4);
    state.layers[0].set_pixel(1, 1, BLUE);
    send(&mut state, Message::ToolSelected(Tool::Eyedropper));
    send(&mut state, Message::DrawingStarted { x: 1, y: 1 });
    assert!(!state.is_drawing);
    assert!(!state.is_selecting);
    assert_eq!(state.primary_color, BLUE);
    assert_eq!(state.last_pixel, Some((1, 1)));
    assert_eq!(state.history.commands.len(), 0);
}

#[test]
fn the_selection_tool_drags_out_a_rectangle() {
    let mut state = EditorState::new(8, 8);
    send(&mut state, Message::ToolSelected(Tool::Selection));
    send(&mut state, Message::DrawingStarted { x: 5, y: 5 });
    assert!(!state.is_drawing);
    assert!(state.is_selecting);
    assert_eq!(state.selection, Some(Selection { x: 5, y: 5, width: 0, height: 0 }));
    send(&mut state, Message::SelectionUpdated { x: 2, y: 2 });
    assert_eq!(state.selection, Some(Selection { x: 5, y: 5, width: -3, height: -3 }));
    send(&mut state, Message::DrawingEnded);
    assert!(state.is_selecting);
    send(&mut state, Message::SelectionEnded);
    assert!(!state.is_selecting);
    assert_eq!(state.selection, Some(Selection { x: 2, y: 2, width: 3, height: 3 }));
    send(&mut state, Message::SelectionUpdated { x: 7, y: 7 });
    assert_eq!(state.selection, Some(Selection { x: 2, y: 2, width: 3, height: 3 }));
    send(&mut state, Message::SelectionCleared);
    assert_eq!(state.selection, None);
    assert!(!state.is_selecting);
}

#[test]
fn a_selection_can_be_started_by_message() {
    let mut state = EditorState::new(8, 8);
    send(&mut state, Message::SelectionStarted { x: 0, y: 0 });
    assert!(state.is_selecting);
    assert_eq!(state.selection, Some(Selection { x: 0, y: 0, width: 0, height: 0 }));
    send(&mut state, Message::SelectionUpdated { x: 4, y: -3 });
    assert_eq!(state.selection, Some(Selection { x: 0, y: 0, width: 4, height: -3 }));
    send(&mut state, Message::SelectionEnded);
    assert_eq!(state.selection, Some(Selection { x: 0, y: -3, width: 4, height: 3 }));
    send(&mut state, Message::DrawingEnded);
    assert!(!state.is_selecting);
}

#[test]
fn updating_a_selection_that_is_missing_starts_one_with_the_selection_tool() {
    let mut state = EditorState::new(8, 8);
    state.is_selecting = true;
    send(&mut state, Message::SelectionUpdated { x: 3, y: 4 });
    assert_eq!(state.selection, None);
    send(&mut state, Message::ToolSelected(Tool::Selection));
    send(&mut state, Message::SelectionUpdated { x: 3, y: 4 });
    assert_eq!(state.selection, Some(Selection { x: 3, y: 4, width: 0, height: 0 }));
    send(&mut state, Message::SelectionEnded);
    assert_eq!(state.selection, Some(Selection { x: 3, y: 4, width: 0, height: 0 }));
}

#[test]
fn copy_cut_and_paste_go_through_the_clipboard() {
    let mut state = EditorState::new(4, 4);
    state.layers[0].set_pixel(0, 0, BLUE);
    send(&mut state, Message::PasteSelection { x: 1, y: 1 });
    assert_eq!(state.history.commands.len(), 0);
    send(&mut state, Message::SelectionStarted { x: 0, y: 0 });
    send(&mut state, Message::SelectionUpdated { x: 1, y: 1 });
    send(&mut state, Message::SelectionEnded);
    send(&mut state, Message::CopySelection);
    assert_eq!(state.clipboard.clone().unwrap().pixels, vec![0, 0, 255, 255]);
    send(&mut state, Message::PasteSelection { x: 3, y: 3 });
    assert_eq!(state.layers[0].get_pixel(3, 3), BLUE);
    send(&mut state, Message::CutSelection);
    assert_eq!(state.layers[0].get_pixel(0, 0), Color::transparent());
    assert_eq!(state.history.commands.len(), 2);
}

#[test]
fn undo_and_redo_messages_reverse_and_reapply() {
    let mut state = EditorState::new(4, 4);
    send(&mut state, Message::PrimaryColorChanged(BLUE));
    send(&mut state, Message::Undo);
    send(&mut state, Message::Redo);
    send(&mut state, Message::DrawingStarted { x: 1, y: 1 });
    send(&mut state, Message::DrawingEnded);
    send(&mut state, Message::Undo);
    assert_eq!(state.layers[0].get_pixel(1, 1), Color::transparent());
    assert_eq!(state.history.current_index, 0);
    send(&mut state, Message::Redo);
    assert_eq!(state.layers[0].get_pixel(1, 1), BLUE);
    send(&mut state, Message::Undo);
    send(&mut state, Message::DrawingStarted { x: 2, y: 2 });
    send(&mut state, Message::Redo);
    assert_eq!(state.layers[0].get_pixel(1, 1), Color::transparent());
    assert_eq!(state.history.commands.len(), 1);
}

#[test]
fn an_undo_on_a_layer_that_is_gone_changes_nothing() {
    let mut state = EditorState::new(4, 4);
    state.history.push(EditCommand::PixelChange {
        layer_index: 5,
        x: 0,
        y: 0,
        old_color: BLUE,
        new_color: Color::white(),
    });
    state.history.push(EditCommand::MultiPixelChange {
        layer_index: 0,
        changes: vec![(9, 9, BLUE, Color::white()), (1, 1, BLUE, Color::white())],
    });
    send(&mut state, Message::Undo);
    assert_eq!(state.layers[0].get_pixel(1, 1), BLUE);
    assert_eq!(state.layers[0].pixels.iter().filter(|b| **b != 0).count(), 2);
    send(&mut state, Message::Undo);
    assert_eq!(state.layers[0].pixels.iter().filter(|b| **b != 0).count(), 2);
    send(&mut state, Message::Redo);
    send(&mut state, Message::Redo);
    assert_eq!(state.layers[0].get_pixel(1, 1), Color::white());
}

#[test]
fn file_new_starts_over() {
    let mut state = EditorState::new(4, 6);
    send(&mut state, Message::PrimaryColorChanged(BLUE));
    send(&mut state, Message::DrawingStarted { x: 1, y: 1 });
    send(&mut state, Message::LayerAdded("B".to_string()));
    send(&mut state, Message::FileNew);
    assert_eq!(state.canvas_width, 32);
    assert_eq!(state.canvas_height, 32);
    assert_eq!(state.layers.len(), 1);
    assert_eq!(state.layers[0].pixels, vec![0u8; 32 * 32 * 4]);
    assert_eq!(state.history.commands.len(), 0);
    assert_eq!(state.primary_color, Color::black());
    assert_eq!(state.used_colors, vec![Color::black(), Color::white()]);
}

#[test]
fn file_messages_ask_for_what_is_to_be_done() {
    let mut state = EditorState::new(2, 1);
    state.layers[0].set_pixel(1, 0, BLUE);
    assert_eq!(update(&mut state, Message::FileOpen), Action::ChooseFileToOpen);
    assert_eq!(
        update(&mut state, Message::FileSave),
        Action::ChooseFileToSave { format: ExportFormat::Png }
    );
    send(&mut state, Message::ExportFormatSelected(ExportFormat::Gif));
    assert_eq!(
        update(&mut state, Message::FileSave),
        Action::ChooseFileToSave { format: ExportFormat::Gif }
    );
    assert_eq!(
        update(
            &mut state,
            Message::FileSaveDialogResult { path: "out.bmp".to_string(), format: ExportFormat::Bmp }
        ),
        Action::Export {
            path: "out.bmp".to_string(),
            format: ExportFormat::Bmp,
            width: 2,
            height: 1,
            pixels: vec![0, 0, 0, 0, 0, 0, 255, 255],
        }
    );
    send(&mut state, Message::FileSaved { path: "out.bmp".to_string() });
    assert_eq!(state.layers[0].get_pixel(1, 0), BLUE);
    assert_eq!(state.selected_export_format, ExportFormat::Gif);
}

#[test]
fn a_loaded_image_of_the_canvas_size_becomes_the_top_layer() {
    let mut state = EditorState::new(2, 1);
    state.layers[0].set_pixel(0, 0, BLUE);
    send(&mut state, Message::FileLoaded { width: 2, height: 1, data: vec![1, 2, 3, 4, 5, 6, 7, 8] });
    assert_eq!(state.layers.len(), 2);
    assert_eq!(state.active_layer_index, 1);
    assert_eq!(state.layers[1].name, "Imported");
    assert_eq!(state.layers[1].pixels, vec![1, 2, 3, 4, 5, 6, 7, 8]);
    assert!(state.layers[1].visible);
    assert_eq!(state.layers[1].opacity, 100);
    assert_eq!(state.layers[0].get_pixel(0, 0), BLUE);
}

#[test]
fn a_loaded_image_larger_than_the_canvas_grows_the_canvas() {
    let mut state = EditorState::new(2, 1);
    state.layers[0].set_pixel(0, 0, BLUE);
    send(&mut state, Message::FileLoaded { width: 2, height: 2, data: vec![9; 16] });
    assert_eq!(state.canvas_width, 2);
    assert_eq!(state.canvas_height, 2);
    assert_eq!(state.layers[0].pixels, vec![0u8; 16]);
    assert_eq!(state.layers[1].pixels, vec![9u8; 16]);
    send(&mut state, Message::FileLoaded { width: 3, height: 1, data: vec![7; 12] });
    assert_eq!(state.canvas_width, 3);
    assert_eq!(state.canvas_height, 2);
    assert_eq!(state.layers.len(), 3);
    for layer in state.layers.iter() {
        assert_eq!(layer.width, 3);
        assert_eq!(layer.height, 2);
        assert_eq!(layer.pixels, vec![0u8; 24]);
    }
    assert_eq!(state.active_layer_index, 2);
}

#[test]
fn a_loaded_image_smaller_than_the_canvas_is_reallocated() {
    let mut state = EditorState::new(2, 2);
    send(&mut state, Message::FileLoaded { width: 1, height: 1, data: vec![9; 4] });
    assert_eq!(state.layers.len(), 2);
    assert_eq!(state.layers[1].width, 2);
    assert_eq!(state.layers[1].height, 2);
    assert_eq!(state.layers[1].pixels, vec![0u8; 16]);
    assert_eq!(state.layers[1].name, "Imported");
}

#[test]
fn a_loaded_image_whose_buffer_does_not_match_is_left_out() {
    let mut state = EditorState::new(2, 2);
    send(&mut state, Message::FileLoaded { width: 2, height: 2, data: vec![9; 15] });
    send(&mut state, Message::FileLoaded { width: 2, height: 2, data: vec![9; 17] });
    send(&mut state, Message::FileLoaded { width: u32::MAX, height: u32::MAX, data: vec![9; 16] });
    assert_eq!(state.layers.len(), 1);
    assert_eq!(state.canvas_width, 2);
}

#[test]
fn messages_that_ask_for_nothing_change_nothing() {
    let mut state = EditorState::new(4, 4);
    send(&mut state, Message::PanChanged { x: 3, y: 4 });
    send(&mut state, Message::CanvasEvent);
    send(&mut state, Message::Nothing);
    assert_eq!(state.layers[0].pixels, vec![0u8; 64]);
    assert_eq!(state.history.commands.len(), 0);
    assert_eq!(state.zoom_level, 8);
    assert_eq!(state.selection, None);
}

#[test]
fn export_formats_have_names_and_extensions() {
    assert_eq!(ExportFormat::Png.label(), "PNG");
    assert_eq!(ExportFormat::Gif.label(), "GIF");
    assert_eq!(ExportFormat::Bmp.label(), "BMP");
    assert_eq!(ExportFormat::Png.extension(), "png");
    assert_eq!(ExportFormat::Gif.extension(), "gif");
    assert_eq!(ExportFormat::Bmp.extension(), "bmp");
}

use pixel_editor::color::Color;
use pixel_editor::editor::{buffer_fits, buffer_matches};
use pixel_editor::message::ExportFormat;
use pixel_editor::selection::Selection;
use pixel_editor::state::{ClipboardData, EditorState, Tool};

#[test]
fn a_new_document_has_the_defaults() {
    let state = EditorState::new(8, 6);
    assert_eq!(state.canvas_width, 8);
    assert_eq!(state.canvas_height, 6);
    assert_eq!(state.current_tool, Tool::Pencil);
    assert_eq!(state.primary_color, Color::black());
    assert_eq!(state.secondary_color, Color::white());
    assert_eq!(state.brush_size, 1);
    assert_eq!(state.zoom_level, 8);
    assert!(state.grid_visible);
    assert_eq!(state.layers.len(), 1);
    assert_eq!(state.layers[0].name, "Layer 1");
    assert_eq!(state.layers[0].width, 8);
    assert_eq!(state.layers[0].height, 6);
    assert_eq!(state.layers[0].pixels, vec![0u8; 8 * 6 * 4]);
    assert_eq!(state.active_layer_index, 0);
    assert_eq!(state.history.commands.len(), 0);
    assert_eq!(state.selection, None);
    assert!(state.clipboard.is_none());
    assert!(!state.is_drawing);
    assert_eq!(state.last_pixel, None);
    assert_eq!(state.selected_export_format, ExportFormat::Png);
    assert!(!state.is_selecting);
    assert!(!state.mirror_horizontal);
    assert!(!state.mirror_vertical);
    assert_eq!(state.used_colors, vec![Color::black(), Color::white()]);
    assert!(state.is_well_formed());
}

#[test]
fn the_default_document_is_32_by_32() {
    let state = EditorState::default();
    assert_eq!(state.canvas_width, 32);
    assert_eq!(state.canvas_height, 32);
    assert_eq!(state.layers[0].pixels.len(), 32 * 32 * 4);
    assert!(state.is_well_formed());
}

#[test]
fn active_layer_is_the_layer_at_the_active_index() {
    let mut state = EditorState::new(4, 4);
    state.add_layer("Top".to_string());
    assert_eq!(state.active_layer().map(|l| l.name.clone()), Some("Top".to_string()));
    state.active_layer_index = 7;
    assert!(state.active_layer().is_none());
}

#[test]
fn add_layer_puts_a_blank_layer_on_top_and_selects_it() {
    let mut state = EditorState::new(4, 3);
    state.add_layer("Second".to_string());
    assert_eq!(state.layers.len(), 2);
    assert_eq!(state.active_layer_index, 1);
    assert_eq!(state.layers[1].name, "Second");
    assert_eq!(state.layers[1].width, 4);
    assert_eq!(state.layers[1].height, 3);
    assert_eq!(state.layers[1].pixels, vec![0u8; 48]);
    assert!(state.layers[1].visible);
    assert_eq!(state.layers[1].opacity, 100);
    assert!(state.is_well_formed());
}

#[test]
fn delete_layer_keeps_the_last_layer() {
    let mut state = EditorState::new(4, 4);
    state.delete_layer(0);
    assert_eq!(state.layers.len(), 1);
    state.add_layer("B".to_string());
    state.delete_layer(5);
    assert_eq!(state.layers.len(), 2);
}

#[test]
fn delete_layer_moves_the_active_index_into_range() {
    let mut state = EditorState::new(4, 4);
    state.add_layer("B".to_string());
    state.add_layer("C".to_string());
    assert_eq!(state.active_layer_index, 2);
    state.delete_layer(2);
    assert_eq!(state.layers.len(), 2);
    assert_eq!(state.active_layer_index, 1);
    state.delete_layer(0);
    assert_eq!(state.layers.len(), 1);
    assert_eq!(state.active_layer_index, 0);
    assert_eq!(state.layers[0].name, "B");
    assert!(state.is_well_formed());
}

#[test]
fn delete_layer_below_the_active_one_leaves_the_index() {
    let mut state = EditorState::new(4, 4);
    state.add_layer("B".to_string());
    state.add_layer("C".to_string());
    state.select_layer(1);
    state.delete_layer(0);
    assert_eq!(state.active_layer_index, 1);
    assert_eq!(state.layers[1].name, "C");
}

#[test]
fn move_layer_reorders_and_follows_the_active_layer() {
    let mut state = EditorState::new(4, 4);
    state.add_layer("B".to_string());
    state.add_layer("C".to_string());
    state.select_layer(0);
    state.move_layer(0, 2);
    let names: Vec<String> = state.layers.iter().map(|l| l.name.clone()).collect();
    assert_eq!(names, vec!["B".to_string(), "C".to_string(), "Layer 1".to_string()]);
    assert_eq!(state.active_layer_index, 2);
    state.move_layer(0, 2);
    let names: Vec<String> = state.layers.iter().map(|l| l.name.clone()).collect();
    assert_eq!(names, vec!["C".to_string(), "Layer 1".to_string(), "B".to_string()]);
    assert_eq!(state.active_layer_index, 1);
    state.move_layer(2, 1);
    assert_eq!(state.active_layer_index, 2);
    state.move_layer(3, 0);
    state.move_layer(0, 3);
    assert_eq!(state.layers.len(), 3);
    assert!(state.is_well_formed());
}

#[test]
fn layer_settings_change_one_layer() {
    let mut state = EditorState::new(4, 4);
    state.add_layer("B".to_string());
    state.toggle_layer_visibility(0);
    assert!(!state.layers[0].visible);
    assert!(state.layers[1].visible);
    state.toggle_layer_visibility(0);
    assert!(state.layers[0].visible);
    state.toggle_layer_visibility(9);
    state.set_layer_opacity(1, 40);
    assert_eq!(state.layers[1].opacity, 40);
    state.set_layer_opacity(1, 250);
    assert_eq!(state.layers[1].opacity, 100);
    state.set_layer_opacity(1, 0);
    assert_eq!(state.layers[1].opacity, 0);
    state.set_layer_opacity(9, 10);
    state.rename_layer(0, "Ground".to_string());
    assert_eq!(state.layers[0].name, "Ground");
    state.rename_layer(0, String::new());
    assert_eq!(state.layers[0].name, "Ground");
    state.rename_layer(9, "X".to_string());
    state.select_layer(0);
    assert_eq!(state.active_layer_index, 0);
    state.select_layer(2);
    assert_eq!(state.active_layer_index, 0);
    assert!(state.is_well_formed());
}

#[test]
fn set_pixel_writes_to_the_active_layer_and_notes_the_colour() {
    let mut state = EditorState::new(4, 4);
    state.add_layer("B".to_string());
    let red = Color::new(255, 0, 0, 255);
    state.set_pixel(1, 2, red);
    assert_eq!(state.layers[1].get_pixel(1, 2), red);
    assert_eq!(state.layers[0].get_pixel(1, 2), Color::transparent());
    assert_eq!(state.used_colors, vec![Color::black(), Color::white(), red]);
    state.set_pixel(9, 9, Color::new(0, 255, 0, 255));
    assert_eq!(state.used_colors.len(), 4);
    assert_eq!(state.layers[1].pixels.iter().filter(|b| **b != 0).count(), 2);
}

#[test]
fn used_colours_skip_faint_and_near_colours() {
    let mut state = EditorState::new(4, 4);
    state.add_used_color(Color::new(9, 9, 9, 2));
    state.add_used_color(Color::new(1, 2, 0, 254));
    state.add_used_color(Color::new(255, 253, 255, 255));
    assert_eq!(state.used_colors, vec![Color::black(), Color::white()]);
    state.add_used_color(Color::new(9, 9, 9, 3));
    state.add_used_color(Color::new(3, 0, 0, 255));
    assert_eq!(state.used_colors.len(), 4);
}

#[test]
fn used_colours_keep_the_most_recent_32() {
    let mut state = EditorState::new(4, 4);
    let mut added = Vec::new();
    for n in 0..40u8 {
        let color = Color::new(10 + 5 * n, 100, 7, 255);
        added.push(color);
        state.add_used_color(color);
    }
    assert_eq!(state.used_colors.len(), 32);
    assert_eq!(state.used_colors, added[8..].to_vec());
    assert!(state.is_well_formed());
}

#[test]
fn resize_canvas_reallocates_every_layer() {
    let mut state = EditorState::new(4, 4);
    state.add_layer("B".to_string());
    state.set_pixel(0, 0, Color::white());
    state.resize_canvas(3, 5);
    assert_eq!(state.canvas_width, 3);
    assert_eq!(state.canvas_height, 5);
    for layer in state.layers.iter() {
        assert_eq!(layer.width, 3);
        assert_eq!(layer.height, 5);
        assert_eq!(layer.pixels, vec![0u8; 60]);
    }
    assert_eq!(state.layers[1].name, "B");
    assert_eq!(state.active_layer_index, 1);
    assert!(state.is_well_formed());
}

#[test]
fn resize_canvas_refuses_dimensions_without_a_buffer() {
    let mut state = EditorState::new(4, 4);
    if !buffer_fits(u32::MAX, u32::MAX) {
        state.resize_canvas(u32::MAX, u32::MAX);
        assert_eq!(state.canvas_width, 4);
        assert_eq!(state.canvas_height, 4);
        assert_eq!(state.layers[0].pixels.len(), 64);
    }
    assert!(buffer_fits(4, 4));
    assert!(buffer_fits(0, u32::MAX));
}

#[test]
fn buffer_matches_asks_four_bytes_per_pixel() {
    assert!(buffer_matches(48, 4, 3));
    assert!(!buffer_matches(47, 4, 3));
    assert!(buffer_matches(0, 0, 9));
    assert!(!buffer_matches(16, u32::MAX, u32::MAX));
}

#[test]
fn clear_canvas_blanks_every_layer() {
    let mut state = EditorState::new(4, 4);
    state.set_pixel(0, 0, Color::white());
    state.add_layer("B".to_string());
    state.set_pixel(1, 1, Color::black());
    state.clear_canvas();
    assert_eq!(state.layers[0].pixels, vec![0u8; 64]);
    assert_eq!(state.layers[1].pixels, vec![0u8; 64]);
    assert_eq!(state.canvas_width, 4);
    assert_eq!(state.layers.len(), 2);
}

#[test]
fn brush_size_and_zoom_stay_within_their_limits() {
    let mut state = EditorState::new(4, 4);
    state.set_brush_size(0);
    assert_eq!(state.brush_size, 1);
    state.set_brush_size(21);
    assert_eq!(state.brush_size, 20);
    state.set_brush_size(7);
    assert_eq!(state.brush_size, 7);
    state.set_zoom(0);
    assert_eq!(state.zoom_level, 1);
    state.zoom_out();
    assert_eq!(state.zoom_level, 1);
    state.zoom_in();
    assert_eq!(state.zoom_level, 2);
    state.set_zoom(99);
    assert_eq!(state.zoom_level, 32);
    state.zoom_in();
    assert_eq!(state.zoom_level, 32);
    state.zoom_out();
    assert_eq!(state.zoom_level, 31);
    state.set_zoom(12);
    assert_eq!(state.zoom_level, 12);
}

#[test]
fn is_well_formed_finds_what_is_out_of_order() {
    let fresh = EditorState::new(4, 4);
    let mut state = fresh.clone();
    state.active_layer_index = 1;
    assert!(!state.is_well_formed());
    let mut state = fresh.clone();
    state.layers[0].pixels.pop();
    assert!(!state.is_well_formed());
    let mut state = fresh.clone();
    state.layers[0].width = 5;
    assert!(!state.is_well_formed());
    let mut state = fresh.clone();
    state.layers[0].opacity = 101;
    assert!(!state.is_well_formed());
    let mut state = fresh.clone();
    state.layers.clear();
    assert!(!state.is_well_formed());
    let mut state = fresh.clone();
    state.brush_size = 0;
    assert!(!state.is_well_formed());
    let mut state = fresh.clone();
    state.zoom_level = 33;
    assert!(!state.is_well_formed());
    let mut state = fresh.clone();
    state.history.current_index = 1;
    assert!(!state.is_well_formed());
    let mut state = fresh.clone();
    state.selection = Some(Selection { x: 0, y: 0, width: i64::MAX, height: 0 });
    assert!(!state.is_well_formed());
    let mut state = fresh.clone();
    state.selection = Some(Selection { x: 5, y: 5, width: -3, height: -3 });
    assert!(state.is_well_formed());
    let mut state = fresh.clone();
    state.clipboard = Some(ClipboardData { pixels: vec![0; 3], width: 1, height: 1 });
    assert!(!state.is_well_formed());
    let mut state = fresh.clone();
    state.used_colors.push(Color::new(0, 1, 0, 255));
    assert!(!state.is_well_formed());
    assert!(fresh.is_well_formed());
}

#[test]
fn a_cloned_state_is_the_same_state() {
    let mut state = EditorState::new(4, 4);
    state.add_layer("B".to_string());
    state.set_pixel(1, 1, Color::new(7, 8, 9, 255));
    state.set_zoom(3);
    let copy = state.clone();
    assert_eq!(copy.layers.len(), 2);
    assert_eq!(copy.layers[1].pixels, state.layers[1].pixels);
    assert_eq!(copy.zoom_level, 3);
    assert_eq!(copy.used_colors, state.used_colors);
    assert_eq!(copy.active_layer_index, 1);
}

#[test]
fn the_active_layer_can_be_written_through_its_mutable_handle() {
    let mut state = EditorState::new(4, 4);
    state.add_layer("Top".to_string());
    if let Some(layer) = state.active_layer_mut() {
        assert_eq!(layer.name, "Top");
        layer.set_pixel(2, 3, Color::new(9, 8, 7, 255));
    } else {
        panic!("the active layer exists");
    }
    assert_eq!(state.layers[1].get_pixel(2, 3), Color::new(9, 8, 7, 255));
    assert_eq!(state.layers[0].get_pixel(2, 3), Color::transparent());
    assert_eq!(state.history.commands.len(), 0);
    assert!(state.is_well_formed());
    state.active_layer_index = 2;
    assert!(state.active_layer_mut().is_none());
}

#[test]
fn a_single_opaque_layer_flattens_to_its_own_buffer() {
    let mut state = EditorState::new(3, 2);
    for y in 0..2u32 {
        for x in 0..3u32 {
            state.layers[0].set_pixel(x, y, Color::new((40 * x) as u8, (90 * y) as u8, 17, (120 * x) as u8));
        }
    }
    state.layers[0].set_pixel(0, 0, Color::transparent());
    state.layers[0].set_pixel(0, 1, Color::transparent());
    assert_eq!(state.flatten(), state.layers[0].pixels);
}

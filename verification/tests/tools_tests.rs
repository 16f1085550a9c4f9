use pixel_editor::color::Color;
use pixel_editor::fill::apply_fill;
use pixel_editor::history::EditCommand;
use pixel_editor::state::EditorState;
use pixel_editor::tools::{
    apply_eraser, apply_eyedropper, apply_pencil, get_brush_pixels, get_mirrored_positions,
    record_changes,
};

const RED: Color = Color { r: 255, g: 0, b: 0, a: 255 };

fn painted_count(state: &EditorState, layer: usize, color: Color) -> usize {
    let mut count = 0;
    for y in 0..state.canvas_height {
        for x in 0..state.canvas_width {
            if state.layers[layer].get_pixel(x, y) == color {
                count += 1;
            }
        }
    }
    count
}

#[test]
fn a_one_pixel_brush_covers_its_centre() {
    assert_eq!(get_brush_pixels(3, 4, 1, 10, 10), vec![(3, 4)]);
    assert_eq!(get_brush_pixels(3, 4, 0, 10, 10), vec![(3, 4)]);
}

#[test]
fn a_brush_covers_a_square_row_by_row() {
    assert_eq!(
        get_brush_pixels(3, 4, 3, 10, 10),
        vec![(2, 3), (3, 3), (4, 3), (2, 4), (3, 4), (4, 4), (2, 5), (3, 5), (4, 5)]
    );
    assert_eq!(get_brush_pixels(3, 4, 2, 10, 10).len(), 9);
    assert_eq!(get_brush_pixels(5, 5, 5, 20, 20).len(), 25);
}

#[test]
fn a_brush_is_clipped_to_the_canvas() {
    assert_eq!(get_brush_pixels(0, 0, 3, 10, 10), vec![(0, 0), (1, 0), (0, 1), (1, 1)]);
    assert_eq!(get_brush_pixels(9, 9, 3, 10, 10), vec![(8, 8), (9, 8), (8, 9), (9, 9)]);
    assert_eq!(get_brush_pixels(12, 12, 3, 10, 10), Vec::<(u32, u32)>::new());
    assert_eq!(get_brush_pixels(10, 5, 3, 10, 10), vec![(9, 4), (9, 5), (9, 6)]);
    assert_eq!(get_brush_pixels(u32::MAX, u32::MAX, 3, 10, 10), Vec::<(u32, u32)>::new());
}

#[test]
fn without_mirroring_a_position_stands_alone() {
    let state = EditorState::new(10, 10);
    assert_eq!(get_mirrored_positions(&state, 2, 3), vec![(2, 3)]);
}

#[test]
fn horizontal_mirroring_adds_the_image_across_the_vertical_axis() {
    let mut state = EditorState::new(10, 10);
    state.toggle_mirror_horizontal();
    assert_eq!(get_mirrored_positions(&state, 2, 3), vec![(2, 3), (7, 3)]);
    assert_eq!(get_mirrored_positions(&state, 7, 3), vec![(2, 3), (7, 3)]);
}

#[test]
fn vertical_mirroring_adds_the_image_across_the_horizontal_axis() {
    let mut state = EditorState::new(10, 10);
    state.toggle_mirror_vertical();
    assert_eq!(get_mirrored_positions(&state, 2, 3), vec![(2, 3), (2, 6)]);
}

#[test]
fn both_mirrorings_add_three_images() {
    let mut state = EditorState::new(10, 10);
    state.toggle_mirror_horizontal();
    state.toggle_mirror_vertical();
    assert_eq!(get_mirrored_positions(&state, 2, 3), vec![(2, 3), (2, 6), (7, 3), (7, 6)]);
}

#[test]
fn a_position_on_the_axis_is_its_own_image() {
    let mut state = EditorState::new(11, 11);
    state.toggle_mirror_horizontal();
    assert_eq!(get_mirrored_positions(&state, 5, 3), vec![(5, 3)]);
    state.toggle_mirror_vertical();
    assert_eq!(get_mirrored_positions(&state, 5, 5), vec![(5, 5)]);
    assert_eq!(get_mirrored_positions(&state, 5, 3), vec![(5, 3), (5, 7)]);
}

#[test]
fn mirroring_a_position_beyond_the_canvas_lands_on_the_edge() {
    let mut state = EditorState::new(10, 10);
    state.toggle_mirror_horizontal();
    assert_eq!(get_mirrored_positions(&state, 15, 3), vec![(0, 3), (15, 3)]);
}

#[test]
fn the_pencil_draws_one_pixel_and_records_it() {
    let mut state = EditorState::new(10, 10);
    state.set_primary_color(RED);
    apply_pencil(&mut state, 2, 3);
    assert_eq!(state.layers[0].get_pixel(2, 3), RED);
    assert_eq!(painted_count(&state, 0, RED), 1);
    assert_eq!(
        state.history.commands,
        vec![EditCommand::PixelChange {
            layer_index: 0,
            x: 2,
            y: 3,
            old_color: Color::transparent(),
            new_color: RED,
        }]
    );
    assert_eq!(state.history.current_index, 1);
    assert_eq!(state.used_colors, vec![Color::black(), Color::white(), RED]);
    assert!(state.is_well_formed());
}

#[test]
fn the_pencil_with_horizontal_mirroring_draws_the_mirror_image() {
    let mut state = EditorState::new(10, 10);
    state.set_primary_color(RED);
    state.toggle_mirror_horizontal();
    apply_pencil(&mut state, 2, 3);
    assert_eq!(state.layers[0].get_pixel(2, 3), RED);
    assert_eq!(state.layers[0].get_pixel(7, 3), RED);
    assert_eq!(painted_count(&state, 0, RED), 2);
    assert_eq!(
        state.history.commands,
        vec![EditCommand::MultiPixelChange {
            layer_index: 0,
            changes: vec![(2, 3, Color::transparent(), RED), (7, 3, Color::transparent(), RED)],
        }]
    );
}

#[test]
fn the_pencil_on_the_axis_of_symmetry_writes_once() {
    let mut state = EditorState::new(11, 11);
    state.set_primary_color(RED);
    state.toggle_mirror_horizontal();
    apply_pencil(&mut state, 5, 3);
    assert_eq!(painted_count(&state, 0, RED), 1);
    assert_eq!(
        state.history.commands,
        vec![EditCommand::PixelChange {
            layer_index: 0,
            x: 5,
            y: 3,
            old_color: Color::transparent(),
            new_color: RED,
        }]
    );
}

#[test]
fn the_pencil_with_a_wide_brush_records_every_pixel_by_columns() {
    let mut state = EditorState::new(10, 10);
    state.set_primary_color(RED);
    state.set_brush_size(3);
    state.layers[0].set_pixel(3, 3, Color::white());
    apply_pencil(&mut state, 3, 3);
    assert_eq!(painted_count(&state, 0, RED), 9);
    match &state.history.commands[0] {
        EditCommand::MultiPixelChange { layer_index, changes } => {
            assert_eq!(*layer_index, 0);
            let positions: Vec<(u32, u32)> = changes.iter().map(|c| (c.0, c.1)).collect();
            assert_eq!(
                positions,
                vec![(2, 2), (2, 3), (2, 4), (3, 2), (3, 3), (3, 4), (4, 2), (4, 3), (4, 4)]
            );
            assert_eq!(changes[4], (3, 3, Color::white(), RED));
            assert_eq!(changes[0], (2, 2, Color::transparent(), RED));
        },
        other => panic!("unexpected command {:?}", other),
    }
}

#[test]
fn overlapping_mirror_images_are_written_once() {
    let mut state = EditorState::new(4, 4);
    state.set_primary_color(RED);
    state.set_brush_size(3);
    state.toggle_mirror_horizontal();
    state.toggle_mirror_vertical();
    apply_pencil(&mut state, 1, 1);
    assert_eq!(painted_count(&state, 0, RED), 16);
    match &state.history.commands[0] {
        EditCommand::MultiPixelChange { changes, .. } => assert_eq!(changes.len(), 16),
        other => panic!("unexpected command {:?}", other),
    }
}

#[test]
fn the_pencil_draws_on_the_active_layer_only() {
    let mut state = EditorState::new(4, 4);
    state.add_layer("Top".to_string());
    state.set_primary_color(RED);
    apply_pencil(&mut state, 1, 1);
    assert_eq!(state.layers[1].get_pixel(1, 1), RED);
    assert_eq!(state.layers[0].get_pixel(1, 1), Color::transparent());
    assert_eq!(
        state.history.commands[0],
        EditCommand::PixelChange {
            layer_index: 1,
            x: 1,
            y: 1,
            old_color: Color::transparent(),
            new_color: RED,
        }
    );
}

#[test]
fn tools_outside_the_canvas_do_nothing() {
    let mut state = EditorState::new(4, 4);
    state.set_primary_color(RED);
    apply_pencil(&mut state, 4, 0);
    apply_pencil(&mut state, 0, 4);
    apply_eraser(&mut state, 9, 9);
    apply_fill(&mut state, 4, 4);
    apply_eyedropper(&mut state, 4, 4);
    assert_eq!(state.history.commands.len(), 0);
    assert_eq!(state.layers[0].pixels, vec![0u8; 64]);
    assert_eq!(state.used_colors.len(), 2);
    assert_eq!(state.primary_color, RED);
}

#[test]
fn the_eraser_makes_pixels_transparent_and_records_them() {
    let mut state = EditorState::new(4, 4);
    state.set_primary_color(RED);
    apply_pencil(&mut state, 1, 1);
    apply_eraser(&mut state, 1, 1);
    assert_eq!(state.layers[0].get_pixel(1, 1), Color::transparent());
    assert_eq!(
        state.history.commands[1],
        EditCommand::PixelChange {
            layer_index: 0,
            x: 1,
            y: 1,
            old_color: RED,
            new_color: Color::transparent(),
        }
    );
    assert_eq!(state.used_colors, vec![Color::black(), Color::white(), RED]);
}

#[test]
fn the_eyedropper_picks_the_composited_colour() {
    let mut state = EditorState::new(2, 2);
    state.add_layer("Top".to_string());
    state.layers[0].set_pixel(0, 0, Color::new(255, 0, 0, 255));
    state.layers[1].set_pixel(0, 0, Color::new(0, 0, 255, 255));
    state.set_layer_opacity(1, 50);
    apply_eyedropper(&mut state, 0, 0);
    assert_eq!(state.primary_color, Color::new(128, 0, 128, 255));
    assert_eq!(state.used_colors.last(), Some(&Color::new(128, 0, 128, 255)));
    assert_eq!(state.history.commands.len(), 0);
}

#[test]
fn the_eyedropper_leaves_faint_colours() {
    let mut state = EditorState::new(2, 2);
    state.layers[0].set_pixel(1, 1, Color::new(9, 9, 9, 2));
    apply_eyedropper(&mut state, 1, 1);
    apply_eyedropper(&mut state, 0, 0);
    assert_eq!(state.primary_color, Color::black());
    state.layers[0].set_pixel(1, 1, Color::new(9, 9, 9, 3));
    apply_eyedropper(&mut state, 1, 1);
    assert_eq!(state.primary_color, Color::new(9, 9, 9, 3));
}

#[test]
fn record_changes_chooses_the_command_by_the_number_of_changes() {
    let mut state = EditorState::new(4, 4);
    record_changes(&mut state, Vec::new());
    assert_eq!(state.history.commands.len(), 0);
    record_changes(&mut state, vec![(1, 1, Color::black(), Color::white())]);
    assert_eq!(
        state.history.commands[0],
        EditCommand::PixelChange {
            layer_index: 0,
            x: 1,
            y: 1,
            old_color: Color::black(),
            new_color: Color::white(),
        }
    );
    let two = vec![(1, 1, Color::black(), Color::white()), (2, 1, Color::black(), Color::white())];
    record_changes(&mut state, two.clone());
    assert_eq!(
        state.history.commands[1],
        EditCommand::MultiPixelChange { layer_index: 0, changes: two }
    );
}

#[test]
fn undoing_every_stroke_restores_the_canvas_and_redoing_restores_the_strokes() {
    let mut state = EditorState::new(8, 8);
    state.set_primary_color(RED);
    state.set_brush_size(3);
    state.toggle_mirror_horizontal();
    state.layers[0].set_pixel(2, 2, Color::white());
    state.layers[0].set_pixel(5, 5, Color::new(1, 2, 3, 4));
    let before = state.layers[0].pixels.clone();
    let strokes = [(1, 1), (2, 2), (2, 3), (6, 6), (0, 7), (2, 2)];
    for (x, y) in strokes {
        apply_pencil(&mut state, x, y);
    }
    let after = state.layers[0].pixels.clone();
    assert_ne!(before, after);
    assert_eq!(state.history.commands.len(), strokes.len());
    for _ in 0..strokes.len() {
        state.undo();
    }
    assert_eq!(state.layers[0].pixels, before);
    assert_eq!(state.history.current_index, 0);
    state.undo();
    assert_eq!(state.layers[0].pixels, before);
    for _ in 0..strokes.len() {
        state.redo();
    }
    assert_eq!(state.layers[0].pixels, after);
    state.redo();
    assert_eq!(state.layers[0].pixels, after);
    assert!(state.is_well_formed());
}

#[test]
fn more_strokes_than_the_history_holds_cannot_all_be_undone() {
    let mut state = EditorState::new(16, 16);
    state.set_primary_color(RED);
    let before = state.layers[0].pixels.clone();
    for n in 0..101u32 {
        apply_pencil(&mut state, n % 16, n / 16);
    }
    assert_eq!(state.history.commands.len(), 100);
    for _ in 0..101 {
        state.undo();
    }
    assert_ne!(state.layers[0].pixels, before);
    assert_eq!(state.layers[0].get_pixel(0, 0), RED);
    assert_eq!(painted_count(&state, 0, RED), 1);
}
